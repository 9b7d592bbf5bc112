//! Worker-side logic of a mediasoup binding: the resource usage that a native
//! worker reports, and the registry of live workers used to exercise native
//! worker failure recovery.

pub mod resource_usage;
pub mod test_worker;

pub use resource_usage::{
    map_worker_resource_usage, ResourceUsageResponse, WorkerGetResourceUsageRequest,
    WorkerResourceUsage,
};
pub use test_worker::{
    close_worker, register, unregister, worker_ids, Closing, WorkerId, WorkerRegistry,
};
