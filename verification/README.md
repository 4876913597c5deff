# thread_store

The logic of a local store of conversation threads. A thread's history is a rollout: a file of
newline-delimited JSON records. Forked threads refer to a position in the rollout of their source
instead of copying it.

- `src/` is the library, verified with Verus. It reads and writes nothing: operations ask for byte
  ranges, facts and locks, and decide.
  - `reverse_scanner`: records of a file, last one first.
  - `json`, `envelope`: JSON objects member by member, and the envelope of a rollout record.
  - `legacy_envelope`, `record_search`, `legacy_fork`: cutoffs of legacy histories, the search for
    the last one, and forks that refer to them.
  - `lineage`, `lineage_walk`: the rollouts that contribute to a forked history.
  - `attachment`, `reference_attachment`: bounded attachments of referenced histories.
  - `writer_lock`, `source_locks`: who may write to a thread, across and within processes.
  - `store`, `model_context`, `unarchive`: what the store decides for its operations.
  - `thread_id`, `history`, `error`, `path`, `text`: what these share.
- `app/` performs what the library decides: files, locks, tasks.
- `tests/` runs the library on contents kept in memory.

Strings and skipped values inside JSON objects are read by `serde_json`, and identifiers are spelled
by `uuid`. What the proofs take from these crates stands above the functions that call them.
