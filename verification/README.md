# benefit_engine

The verified core of a benefit engine: transactions are ingested as jobs,
a MapReduce coordinator hands their files to workers, the workers sum each
customer's transactions, and an evaluator runs a decision rule over the
totals to grant benefits, which are then served with a cache. The HTTP and
gRPC servers themselves are not part of this crate: what they decide is, as
functions that the servers would call.

- `src/` is the library, written in Verus. Its functions carry contracts
  and are proved against them, except the wrappers around outside code,
  whose contracts are trusted rather than proved:
  - `text`: `push_char` (`String::push`), `utf8_string`
    (`String::from_utf8`), `utf8_lossy_string` (`String::from_utf8_lossy`),
    `to_lowercase` (`str::to_lowercase`);
  - `time`: `parse_rfc3339`, `parse_naive_datetime`, `parse_naive_date`,
    `format_compact_date`, `naive_iso`, `utc_rfc3339` (chrono);
  - `scheduler`: `cron_parses`, `cron_next_after` (cron), `tz_parses`
    (chrono-tz), `millis_between` (chrono);
  - `presentation`: `display_naive` (chrono's `Display`);
  - `evaluator`: `sha256` (sha2);
  - `worker`: `key_hashes` (std's `DefaultHasher` over each key; only that
    equal keys hash equally is claimed, not the values);
  - `benefits`: `share` (`Rc::clone`).

  The modules are
  - `sql`: the repository queries and their filters;
  - `coordinator`, `messages`: the MapReduce coordinator as a state machine;
  - `worker`, `codec`, `transaction_summary`, `order`: the map and reduce
    steps, the length-delimited encoding, and per-customer summaries;
  - `reduced`: reading a job's reduced output back as customer totals;
  - `ingestion`, `client`, `scheduler`: ingestion requests, the files they
    name, and when and what the scheduler submits;
  - `evaluator`, `json`, `report`: the rule engine's inputs, the benefits
    read out of its results, idempotency keys and stored rows, and the
    benefit report;
  - `presentation`, `benefits`: evaluator validity, the benefits queries,
    the time-limited caches, and answering a benefits request step by step;
  - `models`, `paths`, `time`, `text`: table rows, file locations, instants
    and text utilities.
- `tests/` exercises the library.
- `app/` is the program around it: environment settings, file I/O, the
  rule engine's evaluation, the scheduler's clock, and the benefit report.
