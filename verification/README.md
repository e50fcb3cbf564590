# vigil

Behavioral anomaly detection for AI agents. A profile is learnt from what an agent does
(which tools it calls, in which order, how often, how much data goes through them), and
later events are measured against it.

- `src/` is the library. It is verified with Verus, except for the few calls listed below.
  - `event`, `time`, `number`, `text`, `json`, `order`, `dict`: values and their models.
  - `source`: transcripts and traces, turned into events.
  - `baseline`: the profile, the builder that learns it, a run over a stream of events,
    and the laws that hold of them.
  - `detect`: the detection strategies, the default panel, and the ensemble score.
  - `export`: anomalies as OpenTelemetry spans.
  - `store`: the layout of a store.
- `app/` is the command line. It reads and writes files, turns JSON into values of the
  library, and reckons with real numbers.
- `tests/` runs the library on concrete values.

Real numbers stay outside the library: it carries them as decimal numerals. A strategy
that needs them comes in two halves. The first half says what is to be measured; the
second takes the reading and says what it means.

## What is trusted

The proofs rest on what these items say of code outside the library. A comment at each
says what it claims.

- `chrono`, in `time`: `Utc.timestamp_opt`, `Timelike::hour`, `signed_duration_since`,
  `timestamp_nanos_opt`, the parser of dates, and `Utc::now`. Which instant a text writes is
  left to `chrono` (`parsed_utc`), and of the clock nothing is claimed but that `chrono` can
  hold what it shows.
- `serde_json`, in `json`: reading a text and looking a value up in it (`json_at`), splitting
  the first value off a text (`json_front`), and quoting a string, which is spelled out.
- The standard library: `String::push` in `text`, `str::strip_prefix` in `json`, and the type
  `PathBuf` in `store`, which is only carried through.
