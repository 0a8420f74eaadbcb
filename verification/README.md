# stream_pacing

The sending side of a deadline-aware transport, verified with Verus.

- `src/` is the library. Its contracts are proved by Verus, apart from those of the few wrappers
  around `bytes` and `rand`, which state what is taken on trust.
  - `send`, `send_buffer`, `source`: a stream, the data it holds and where that data comes from
  - `hints`, `hints_laws`: announced objects and how bytes are credited to them
  - `bbr/`: BBR congestion control and admission of objects by their deadlines
  - `cross_layer`, `cross_layer_laws`: throughput prediction from radio-layer hints
  - `priority`: from the time that is left to a priority
  - `float64`, `rounding`, `float_order`: double-precision arithmetic on bit patterns
  - `time`: points and spans of time
  - `chunk`: the boundary to the `bytes` crate
- `tests/` runs the library, among other things against the machine's own floating point.
- `app/` connects the library to clocks, locks, logging and machine floats.
