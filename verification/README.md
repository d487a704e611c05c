# webweg

A library for UCSD's WebReg course enrollment system, verified with Verus:
it reads WebReg's answers (course listings, schedules, enrollment counts,
prerequisites, events) into clean values, and builds the requests that
search, enroll, plan and manage schedules and events.

## Layout

- `src/` — the verified library.
  - `ww_parser.rs`: reading WebReg's answers, and the URLs of course searches;
    the laws of the parsed values stand at its end.
  - `wrapper/input_types.rs`: the inputs of requests and their builders.
  - `wrapper/requests.rs`: the addresses, query and form pairs of requests,
    the checks on their inputs, and how an answer is read.
  - `util.rs`: day codes, term IDs, course codes, instructor lists.
  - `types.rs`, `raw_types.rs`: the cleaned and the raw values.
  - `display.rs`: the values as readable text.
  - `text.rs`, `num.rs`, `order.rs`, `grouping.rs`: strings, numbers, the
    order of strings, and grouping, as the rest builds on them.
  - `outside.rs`: the outside error types that errors carry.
- `tests/` — tests of the library.
- `app/` — the network client around the library (reqwest), and serde copies
  of the library's values.
