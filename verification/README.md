# azure_gateway

A gateway that drains simulated sensors into rings, paces its readers, sums readings up over time
windows, publishes each window as JSON files and serves them over HTTP. The logic is verified with
Verus; threads, files, the web server and floating point stand around it.

- `src/` is the verified library.
  - `queue`, `sensor`: the ring of a sensor, which gives up its oldest reading when it is full, and
    the life of a sensor and its thread.
  - `governor`, `buffer`: how long a reader sleeps between two polls.
  - `types`, `binary64`: statistics of a window; doubles are carried by their bits and ordered as
    doubles are and cut to whole numbers, while sums, quotients and roots are handed in.
  - `moments`: why mean and sum of squares are right where nothing is rounded.
  - `storage`, `text`: the storage worker as a state machine, the files it publishes, and the log
    of an hour.
  - `dashboard`, `helpers`: what the dashboard answers.
  - `json`, `response`: what is relied on of the `serde_json` and `hotaru` crates.
- `app/` runs the library: the storage thread, the threads of the sensors, the web server, and the
  arithmetic in floating point.
- `tests/` runs the library on concrete values.

What holds across calls is proved by the public proof functions whose names begin with `law_`:
among them, that nobody ever sees a part of a published file, that a log is published in time and
survives a restart, that a persisted frame is found by every query that it answers, that a ring
holds the newest values in their order, and that pressure, and nothing else, brings fast recovery.
