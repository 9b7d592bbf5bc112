use mediasoup::{
    map_worker_resource_usage, ResourceUsageResponse, WorkerGetResourceUsageRequest,
    WorkerResourceUsage,
};

fn numbered_response() -> ResourceUsageResponse {
    ResourceUsageResponse {
        ru_utime: 1,
        ru_stime: 2,
        ru_maxrss: 3,
        ru_ixrss: 4,
        ru_idrss: 5,
        ru_isrss: 6,
        ru_minflt: 7,
        ru_majflt: 8,
        ru_nswap: 9,
        ru_inblock: 10,
        ru_oublock: 11,
        ru_msgsnd: 12,
        ru_msgrcv: 13,
        ru_nsignals: 14,
        ru_nvcsw: 15,
        ru_nivcsw: 16,
    }
}

fn fields(usage: &WorkerResourceUsage) -> [u64; 16] {
    [
        usage.ru_utime,
        usage.ru_stime,
        usage.ru_maxrss,
        usage.ru_ixrss,
        usage.ru_idrss,
        usage.ru_isrss,
        usage.ru_minflt,
        usage.ru_majflt,
        usage.ru_nswap,
        usage.ru_inblock,
        usage.ru_oublock,
        usage.ru_msgsnd,
        usage.ru_msgrcv,
        usage.ru_nsignals,
        usage.ru_nvcsw,
        usage.ru_nivcsw,
    ]
}

#[test]
fn worker_resource_usage_maps_every_native_protocol_field() {
    let mapped = map_worker_resource_usage(numbered_response());

    assert_eq!(mapped.ru_utime, 1);
    assert_eq!(mapped.ru_stime, 2);
    assert_eq!(mapped.ru_maxrss, 3);
    assert_eq!(mapped.ru_ixrss, 4);
    assert_eq!(mapped.ru_idrss, 5);
    assert_eq!(mapped.ru_isrss, 6);
    assert_eq!(mapped.ru_minflt, 7);
    assert_eq!(mapped.ru_majflt, 8);
    assert_eq!(mapped.ru_nswap, 9);
    assert_eq!(mapped.ru_inblock, 10);
    assert_eq!(mapped.ru_oublock, 11);
    assert_eq!(mapped.ru_msgsnd, 12);
    assert_eq!(mapped.ru_msgrcv, 13);
    assert_eq!(mapped.ru_nsignals, 14);
    assert_eq!(mapped.ru_nvcsw, 15);
    assert_eq!(mapped.ru_nivcsw, 16);
}

#[test]
fn mapping_keeps_extreme_values() {
    let mut response = numbered_response();
    response.ru_utime = 0;
    response.ru_nivcsw = u64::MAX;
    let mapped = map_worker_resource_usage(response);
    assert_eq!(mapped.ru_utime, 0);
    assert_eq!(mapped.ru_nivcsw, u64::MAX);
    assert_eq!(mapped.ru_stime, 2);
}

#[test]
fn equal_responses_map_to_equal_usage() {
    let a = map_worker_resource_usage(numbered_response());
    let b = map_worker_resource_usage(numbered_response());
    assert_eq!(a, b);
    assert_eq!(fields(&a), [1, 2, 3, 4, 5, 6, 7, 8, 9, 10, 11, 12, 13, 14, 15, 16]);
}

#[test]
fn decoded_reply_becomes_the_usage() {
    let usage =
        WorkerGetResourceUsageRequest::convert_response::<String>(Ok(numbered_response()));
    let usage = usage.expect("a decoded reply converts");
    assert_eq!(fields(&usage), [1, 2, 3, 4, 5, 6, 7, 8, 9, 10, 11, 12, 13, 14, 15, 16]);
}

#[test]
fn undecodable_reply_keeps_its_error() {
    let usage = WorkerGetResourceUsageRequest::convert_response::<String>(Err(
        "truncated buffer".to_string(),
    ));
    assert_eq!(usage.err(), Some("truncated buffer".to_string()));
}
