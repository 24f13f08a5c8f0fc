# wattopus

Per-route energy attribution for a Kubernetes demo shop, with the logic
verified in Verus.

- `src/` is the verified library: the OTLP/JSON span reader and the
  per-service, per-route busy-time weights (`attributor`), the claim of pods
  by traced services (`attribution`), trace context and span export
  (`otlp`), the Prometheus exposition format and instant-query reader
  (`prom`), the apiserver object readers and the snapshot layout
  (`feeder`, `k8s`), the operator's scale state machine (`operator`), the
  predictor's sliding window (`predictor`) and the demo shop's routing and
  pricing (`demo`). `json` is the JSON value model they all read.
- `app/` holds the programs around it: HTTP servers and clients, the
  environment, the clock loops, serde, and the floating-point arithmetic
  (watts, joules, CPU statistics).
- `tests/` runs the library on concrete values.
