# status_insights

A library that decides what a status card says about token usage and rate limits.

- `src/` is the library. Its functions are written in Verus and carry contracts
  that are proved, except for the eight wrappers around `chrono` in `src/time.rs`:
  their contracts, and what they say of the two names `rfc3339_timestamp` and
  `ymd_day`, are trusted.
  - `time`: instants, days and the calls into `chrono`
  - `double`: doubles by their bit pattern, and their order
  - `text`, `daily`: text and per-day maps
  - `limits`: windows of rate limits, next reset, inputs of estimates
  - `compact`: burn rate, warnings, the compact status
  - `usage`, `rollout`, `walk`: tallies, the lines of rollout files, the walk that
    finds the files
  - `streaks`, `observability`: runs of active days and the full usage report
  - `reading`: which lines of a file count, and that they decide the tally
  - `balance`, `sums`: why the sums per day and per model agree, and why the order
    of the files does not matter
  - `snapshot`: rendered cards as comparable text
- `app/` is ordinary Rust around it: files, the clock, floating-point arithmetic
  and the session protocol.
- `tests/` holds the tests of the library.
