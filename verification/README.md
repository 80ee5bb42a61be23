# provenant

The license rules of a source code scanner, verified with Verus, and the parts
around them.

- `src/` is the library. Its functions state what they return, and Verus proves
  it, but for the trusted items named below. Where a result rests on the clock or
  on a call that the caller hands in, they state how it follows from what came back.
  - `text`, `lists`, `keyed`: texts, sequences and keyed values.
  - `expression`, `spdx`, `reading`: license expressions, how they combine, and
    that they read back as they were written.
  - `models`, `index`, `query`: what the detection engine reports and reads.
  - `matched_text`, `convert`, `context`, `notice`, `readme`, `nix`, `declared`,
    `sourcemap`, `paths`: the rules that make scan output of detections.
  - `extract`: the license record of one file.
  - `workflow`, `headers`: scan options and the requests that they make.
  - `serve`, `routes`, `jobs`, `json`: which request the scan server answers how.
- `app/` holds sockets, threads and floating point.
- `tests/` runs the library on examples.

The functions whose names begin with `law_` state what holds of the library as a
whole. The items marked `external_body`, `external_type_specification` and
`assume_specification` are trusted: they speak of `std`, `serde_json` and
`tiny_http`.
