//! Logic of a local thread store: reverse JSONL scanning, rollout envelopes, fork lineages,
//! logical attachments, and cross-process writer locks.
//!
//! The library holds no files. Functions that need file contents ask for byte ranges and are
//! handed the bytes; what they conclude is stated over every file that agrees with those bytes.
//! Longer operations are values that move from state to state: each step takes what was found out
//! or done outside, and says what is next or why the operation is refused.

pub mod attachment;
pub mod envelope;
pub mod error;
pub mod history;
pub mod json;
pub mod legacy_envelope;
pub mod legacy_fork;
pub mod lineage;
pub mod lineage_walk;
pub mod model_context;
pub mod path;
pub mod record_search;
pub mod reference_attachment;
pub mod reverse_scanner;
pub mod source_locks;
pub mod store;
pub mod text;
pub mod thread_id;
pub mod unarchive;
pub mod writer_lock;
