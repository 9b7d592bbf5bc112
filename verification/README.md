# mediasoup worker logic, verified

- `src/resource_usage.rs`: the public `WorkerResourceUsage` value, the
  library's record of the protocol's `ResourceUsageResponse`, the field-by-field
  mapping between them and the conversion of a decoded reply.
- `src/test_worker.rs`: the registry of native workers (`register`,
  `unregister`, `worker_ids`, `close_worker`) over a `HashMap` keyed by the
  workers' 128-bit identifiers, with its laws, including laws over a history
  of calls (`RegistryCall`, `is_history`). Every worker that the registry's
  probes find is handed back to the caller (`worker_ids`' second result,
  `Closing`), so that it is closed or dropped only after the registry lock is
  released.
- `app/`: the process-wide registry behind its lock, the serde-enabled copy of
  `WorkerResourceUsage`, and the FlatBuffers framing of the request, which uses
  the protocol types generated by `mediasoup-sys`.
