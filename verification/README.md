# forklift

The rules of an artifact repository server, written and proved in Verus.

- `src/` is the library. `repo` decides what is served, fetched, blocked, merged and
  published; `objstore` and `replication` keep copies of the metadata database and of
  the blobs; `notify` writes the alarms. `text`, `cut`, `percent`, `json`, `record`,
  `table` and `times` are what these share. `bridge` holds every call into another crate,
  each with what is claimed of it.
- `tests/` runs the library on concrete values.
- `app/` is the server around the library: HTTP, storage, timers.

Instants of the clock and spans of time are counts of nanoseconds; a release time is a
stamp, which can lie in a leap second. Texts are modelled as sequences
of characters, bodies as sequences of bytes. What a clock, a database or an upstream
says is handed to the library as an argument.
