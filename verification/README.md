# artheris

The ground station of a small aircraft. Telemetry comes in as UDP packets, is
normalised, shown to WebSocket clients and written to QuestDB as InfluxDB line
protocol; commands go the other way; the points of a flight are read back and
analysed.

`src/` is the library, verified with Verus:

- `text`, `json`, `clock`, `double`: texts, JSON values, moments, and doubles as
  far as they compare and round;
- `ilp`, `questdb`: lines of line protocol, and the statements of the database;
- `telemetry`, `dataudp`: packets, the numeric fields they hold, the records made
  of them, batches;
- `server`, `http_server`, `stats`: the index of known fields, what clients ask
  for, recordings, counters;
- `metrics`, `handlers`, `anomaly`, `fft`: which numbers of a flight are measured,
  and what is chosen among them.

Functions that start with `law_` state what holds of several functions together.
What comes from an outside crate stands behind functions marked
`#[verifier::external_body]`, each with what is taken for granted of it.

`app/` is the program around the library: sockets, servers, the database
connection, and whatever computes with doubles. `tests/` holds the tests of the
library.
