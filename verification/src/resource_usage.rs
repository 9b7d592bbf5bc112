use vstd::prelude::*;

verus! {

/// Resource usage returned by the native mediasoup worker.
#[derive(Debug, Clone, Copy, PartialEq, Eq, Structural)]
#[non_exhaustive]
pub struct WorkerResourceUsage {
    /// User CPU time used, in milliseconds.
    pub ru_utime: u64,
    /// System CPU time used, in milliseconds.
    pub ru_stime: u64,
    /// Maximum resident set size.
    pub ru_maxrss: u64,
    /// Integral shared memory size.
    pub ru_ixrss: u64,
    /// Integral unshared data size.
    pub ru_idrss: u64,
    /// Integral unshared stack size.
    pub ru_isrss: u64,
    /// Page reclaims (soft page faults).
    pub ru_minflt: u64,
    /// Page faults (hard page faults).
    pub ru_majflt: u64,
    /// Swaps.
    pub ru_nswap: u64,
    /// Block input operations.
    pub ru_inblock: u64,
    /// Block output operations.
    pub ru_oublock: u64,
    /// IPC messages sent.
    pub ru_msgsnd: u64,
    /// IPC messages received.
    pub ru_msgrcv: u64,
    /// Signals received.
    pub ru_nsignals: u64,
    /// Voluntary context switches.
    pub ru_nvcsw: u64,
    /// Involuntary context switches.
    pub ru_nivcsw: u64,
}

/// The `ResourceUsageResponse` record of the worker protocol, as decoded
/// from a `WorkerGetResourceUsage` reply: one unsigned 64-bit value per
/// field, in the order in which the protocol lists them.
#[derive(Debug, Clone, Copy, PartialEq, Eq, Structural)]
pub struct ResourceUsageResponse {
    pub ru_utime: u64,
    pub ru_stime: u64,
    pub ru_maxrss: u64,
    pub ru_ixrss: u64,
    pub ru_idrss: u64,
    pub ru_isrss: u64,
    pub ru_minflt: u64,
    pub ru_majflt: u64,
    pub ru_nswap: u64,
    pub ru_inblock: u64,
    pub ru_oublock: u64,
    pub ru_msgsnd: u64,
    pub ru_msgrcv: u64,
    pub ru_nsignals: u64,
    pub ru_nvcsw: u64,
    pub ru_nivcsw: u64,
}

/// The usage that a protocol record stands for: each field of the record
/// becomes the field of the same name, unchanged.
pub open spec fn usage_of(data: ResourceUsageResponse) -> WorkerResourceUsage {
    WorkerResourceUsage {
        ru_utime: data.ru_utime,
        ru_stime: data.ru_stime,
        ru_maxrss: data.ru_maxrss,
        ru_ixrss: data.ru_ixrss,
        ru_idrss: data.ru_idrss,
        ru_isrss: data.ru_isrss,
        ru_minflt: data.ru_minflt,
        ru_majflt: data.ru_majflt,
        ru_nswap: data.ru_nswap,
        ru_inblock: data.ru_inblock,
        ru_oublock: data.ru_oublock,
        ru_msgsnd: data.ru_msgsnd,
        ru_msgrcv: data.ru_msgrcv,
        ru_nsignals: data.ru_nsignals,
        ru_nvcsw: data.ru_nvcsw,
        ru_nivcsw: data.ru_nivcsw,
    }
}

/// Maps a decoded `ResourceUsageResponse` into the public
/// [`WorkerResourceUsage`], field by field.
pub fn map_worker_resource_usage(data: ResourceUsageResponse) -> (usage: WorkerResourceUsage)
    ensures
        usage == usage_of(data),
        usage.ru_utime == data.ru_utime,
        usage.ru_stime == data.ru_stime,
        usage.ru_maxrss == data.ru_maxrss,
        usage.ru_ixrss == data.ru_ixrss,
        usage.ru_idrss == data.ru_idrss,
        usage.ru_isrss == data.ru_isrss,
        usage.ru_minflt == data.ru_minflt,
        usage.ru_majflt == data.ru_majflt,
        usage.ru_nswap == data.ru_nswap,
        usage.ru_inblock == data.ru_inblock,
        usage.ru_oublock == data.ru_oublock,
        usage.ru_msgsnd == data.ru_msgsnd,
        usage.ru_msgrcv == data.ru_msgrcv,
        usage.ru_nsignals == data.ru_nsignals,
        usage.ru_nvcsw == data.ru_nvcsw,
        usage.ru_nivcsw == data.ru_nivcsw,
{
    WorkerResourceUsage {
        ru_utime: data.ru_utime,
        ru_stime: data.ru_stime,
        ru_maxrss: data.ru_maxrss,
        ru_ixrss: data.ru_ixrss,
        ru_idrss: data.ru_idrss,
        ru_isrss: data.ru_isrss,
        ru_minflt: data.ru_minflt,
        ru_majflt: data.ru_majflt,
        ru_nswap: data.ru_nswap,
        ru_inblock: data.ru_inblock,
        ru_oublock: data.ru_oublock,
        ru_msgsnd: data.ru_msgsnd,
        ru_msgrcv: data.ru_msgrcv,
        ru_nsignals: data.ru_nsignals,
        ru_nvcsw: data.ru_nvcsw,
        ru_nivcsw: data.ru_nivcsw,
    }
}

/// The `WorkerGetResourceUsage` request of the worker protocol.
pub struct WorkerGetResourceUsageRequest {}

impl WorkerGetResourceUsageRequest {
    /// Turns the reply to this request, once its `ResourceUsageResponse`
    /// body has been decoded, into the public [`WorkerResourceUsage`]. A body
    /// that could not be decoded is answered with the decoding error.
    pub fn convert_response<E>(response: Result<ResourceUsageResponse, E>) -> (usage: Result<
        WorkerResourceUsage,
        E,
    >)
        ensures
            match response {
                Ok(data) => usage == Ok::<WorkerResourceUsage, E>(usage_of(data)),
                Err(error) => usage == Err::<WorkerResourceUsage, E>(error),
            },
    {
        match response {
            Ok(data) => Ok(map_worker_resource_usage(data)),
            Err(error) => Err(error),
        }
    }
}

} // verus!
