use std::path::PathBuf;
use thread_store::error::ThreadStoreError;
use thread_store::history::HistoryPosition;
use thread_store::history::ThreadHistoryMode;
use thread_store::legacy_envelope::cutoff_answer;
use thread_store::legacy_envelope::EnvelopeCheck;
use thread_store::legacy_envelope::EnvelopeStep;
use thread_store::legacy_envelope::InvalidEnvelope;
use thread_store::lineage::cutoff_checked;
use thread_store::lineage::cutoff_request;
use thread_store::lineage::CutoffCheck;
use thread_store::lineage::CutoffRequest;
use thread_store::lineage::RolloutLineage;
use thread_store::lineage_walk::LineageMeta;
use thread_store::lineage_walk::LineageProgress;
use thread_store::lineage_walk::LineageRepresentation;
use thread_store::lineage_walk::LineageTarget;
use thread_store::lineage_walk::LineageWalk;
use thread_store::lineage_walk::LocatedRollout;
use thread_store::lineage_walk::RolloutFileIds;
use thread_store::model_context::fork_context_plan;
use thread_store::model_context::ForkContextPlan;
use thread_store::model_context::LineageScan;
use thread_store::thread_id::ThreadId;

/// A rollout of a store that is kept in memory.
struct Rollout {
    path: PathBuf,
    file: RolloutFileIds,
    meta: LineageMeta,
    contents: Vec<u8>,
}

#[derive(Default)]
struct Store {
    rollouts: Vec<Rollout>,
    sources: Vec<ThreadId>,
    locked: Vec<ThreadId>,
    coordinated: Vec<ThreadId>,
    materialized: Vec<PathBuf>,
}

const REACHED: CutoffCheck = CutoffCheck::Prefix { contained: true };
const PASSED: CutoffCheck = CutoffCheck::Prefix { contained: false };

fn id(value: u128) -> ThreadId {
    ThreadId { value }
}

fn line(ordinal: u64) -> String {
    format!("{{\"timestamp\":\"2026-07-16T00:00:00.000Z\",\"ordinal\":{ordinal},\"type\":\"event_msg\",\"payload\":{{}}}}\n")
}

impl Store {
    fn write(
        &mut self,
        directory: &str,
        logical: ThreadId,
        rollout: ThreadId,
        meta_id: ThreadId,
        history_mode: ThreadHistoryMode,
        history_base: Option<HistoryPosition>,
        next_ordinal: u64,
    ) -> PathBuf {
        let name = if logical == rollout {
            rollout.to_text()
        } else {
            format!("{}_{}", logical.to_text(), rollout.to_text())
        };
        let path = PathBuf::from(format!(
            "{directory}/rollout-2026-07-16T00-00-00-{name}.jsonl"
        ));
        let initial = history_base.map_or(0, |base| base.end_ordinal_exclusive);
        let contents: String = (0..next_ordinal).map(|offset| line(initial + offset)).collect();
        self.rollouts.push(Rollout {
            path: path.clone(),
            file: RolloutFileIds {
                thread_id: Some(logical),
                rollout_id: Some(rollout),
            },
            meta: LineageMeta {
                id: meta_id,
                history_mode,
                history_base,
            },
            contents: contents.into_bytes(),
        });
        path
    }

    fn write_rollout(
        &mut self,
        thread_id: ThreadId,
        history_base: Option<HistoryPosition>,
        next_ordinal: u64,
    ) -> PathBuf {
        self.write(
            "sessions/2026/07/16",
            thread_id,
            thread_id,
            thread_id,
            ThreadHistoryMode::Paginated,
            history_base,
            next_ordinal,
        )
    }

    fn write_reverted(
        &mut self,
        logical: ThreadId,
        rollout: ThreadId,
        history_base: Option<HistoryPosition>,
        next_ordinal: u64,
    ) -> PathBuf {
        self.write(
            "sessions/2026/07/16",
            logical,
            rollout,
            logical,
            ThreadHistoryMode::Paginated,
            history_base,
            next_ordinal,
        )
    }

    fn rollout(&self, rollout_id: ThreadId) -> Option<&Rollout> {
        self.rollouts
            .iter()
            .find(|rollout| rollout.file.rollout_id == Some(rollout_id))
    }

    fn len(&self, rollout_id: ThreadId) -> u64 {
        self.rollout(rollout_id).expect("rollout").contents.len() as u64
    }

    /// The position before the first record with this ordinal.
    fn position(&self, rollout_id: ThreadId, end_ordinal_exclusive: u64) -> HistoryPosition {
        let rollout = self.rollout(rollout_id).expect("rollout");
        let initial = rollout
            .meta
            .history_base
            .map_or(0, |base| base.end_ordinal_exclusive);
        let end_byte_offset = rollout
            .contents
            .split_inclusive(|byte| *byte == b'\n')
            .take((end_ordinal_exclusive - initial) as usize)
            .map(<[u8]>::len)
            .sum::<usize>() as u64;
        HistoryPosition {
            thread_id: rollout_id,
            end_ordinal_exclusive,
            end_byte_offset,
        }
    }

    fn check_cutoff(&self, rollout_id: ThreadId, request: CutoffRequest) -> CutoffCheck {
        let contents = &self.rollout(rollout_id).expect("rollout").contents;
        match request {
            CutoffRequest::Prefix { end } => CutoffCheck::Prefix {
                contained: end <= contents.len() as u64,
            },
            CutoffRequest::Envelope { end } => {
                let mut check = EnvelopeCheck::new(contents.len() as u64, end);
                loop {
                    match check.next() {
                        EnvelopeStep::Read { offset, len } => check
                            .supply(&contents[offset as usize..(offset + len) as usize]),
                        EnvelopeStep::Done { verdict } => {
                            return CutoffCheck::Envelope {
                                answer: cutoff_answer(verdict, "expected value".to_string()),
                            }
                        }
                    }
                }
            }
        }
    }

    fn resolve(
        &mut self,
        requested: ThreadId,
        representation: LineageRepresentation,
    ) -> Result<RolloutLineage, ThreadStoreError> {
        let mut walk = LineageWalk::new(requested, representation);
        loop {
            self.coordinated.extend(walk.coordination_id());
            self.sources.extend(walk.source_lock());
            let found = match walk.target() {
                LineageTarget::Current { thread_id } => self
                    .rollouts
                    .iter()
                    .rev()
                    .find(|rollout| rollout.file.thread_id == Some(thread_id)),
                LineageTarget::Rollout { rollout_id } => self.rollout(rollout_id),
            };
            let located = found.map(|rollout| LocatedRollout {
                rollout_id: rollout.file.rollout_id.expect("rollout id"),
                path: rollout.path.clone(),
            });
            let facts = found.map(|rollout| (rollout.meta, rollout.file, rollout.path.clone()));
            let mut visit = walk.visit(located)?;
            let (meta, file, path) = facts.expect("located");
            let shown = path.display().to_string();
            if visit.needs_managed_path() {
                visit = visit.with_path(path.clone());
            }
            self.locked.extend(visit.ancestor_lock(file));
            let mut candidate = visit.identify(meta, file)?;
            if candidate.needs_materialization() {
                self.materialized.push(path.clone());
                candidate = candidate.with_path(path);
            }
            let checked = candidate.cutoff().map(|request| {
                self.check_cutoff(file.rollout_id.expect("rollout id"), request)
            });
            match candidate.accept(&shown, checked)? {
                LineageProgress::Continue { walk: next } => walk = next,
                LineageProgress::Complete { lineage } => return Ok(lineage),
            }
        }
    }

    fn existing(&mut self, requested: ThreadId) -> Result<RolloutLineage, ThreadStoreError> {
        self.resolve(requested, LineageRepresentation::Existing)
    }
}

type Segment = (ThreadId, PathBuf, u64, Option<HistoryPosition>);

fn segments(lineage: &RolloutLineage) -> Vec<Segment> {
    lineage
        .segments()
        .iter()
        .map(|segment| {
            (
                segment.rollout_id(),
                segment.rollout_path.clone(),
                segment.start_ordinal(),
                segment.end,
            )
        })
        .collect()
}

fn message(error: ThreadStoreError) -> String {
    match error {
        ThreadStoreError::InvalidRequest { message }
        | ThreadStoreError::Conflict { message }
        | ThreadStoreError::Internal { message } => message,
        other => panic!("unexpected error {other:?}"),
    }
}

fn assert_invalid(store: &mut Store, requested: ThreadId, detail: &str) {
    let error = message(store.existing(requested).expect_err("invalid lineage"));
    assert!(error.contains(detail), "{error}");
}

fn assert_invalid_reference(store: &mut Store, requested: ThreadId, detail: &str) {
    let error = message(
        store
            .resolve(requested, LineageRepresentation::PlainForReference)
            .expect_err("invalid lineage"),
    );
    assert!(error.contains(detail), "{error}");
}

#[test]
fn resolves_nested_lineage_with_empty_intermediate_segments() {
    let mut store = Store::default();
    let (root, middle, child) = (id(1), id(2), id(3));
    let root_path = store.write_rollout(root, None, 6);
    let root_end = store.position(root, 4);
    let middle_path = store.write_rollout(middle, Some(root_end), 1);
    let middle_end = store.position(middle, 5);
    let child_path = store.write_rollout(child, Some(middle_end), 3);

    let lineage = store.existing(child).expect("resolve nested lineage");
    assert_eq!(
        segments(&lineage),
        vec![
            (root, root_path, 1, Some(root_end)),
            (middle, middle_path, 5, Some(middle_end)),
            (child, child_path, 6, None),
        ]
    );
    assert_eq!(lineage.history_mode(), ThreadHistoryMode::Paginated);
    // Each ordinal lies in at most one segment; those of the metadata lie in none.
    let owners: Vec<Option<usize>> = (0..9)
        .map(|ordinal| lineage.segment_index_for_ordinal(ordinal))
        .collect();
    assert_eq!(
        owners,
        vec![None, Some(0), Some(0), Some(0), None, None, Some(2), Some(2), Some(2)]
    );
    assert_eq!(lineage.segments()[0].end_ordinal(), Some(4));
    assert_eq!(lineage.segments()[2].end_ordinal(), None);
}

#[test]
fn resolves_archived_ancestors() {
    let mut store = Store::default();
    let (root, child) = (id(1), id(2));
    let root_path = store.write(
        "archived_sessions",
        root,
        root,
        root,
        ThreadHistoryMode::Paginated,
        None,
        3,
    );
    let base = store.position(root, 3);
    store.write_rollout(child, Some(base), 2);
    let lineage = store.existing(child).expect("resolve archived ancestor");
    assert_eq!(lineage.segments()[0].rollout_path, root_path);
}

#[test]
fn resolves_lineage_at_explicit_history_position() {
    let mut store = Store::default();
    let (root, child) = (id(1), id(2));
    let root_path = store.write_rollout(root, None, 6);
    let root_end = store.position(root, 4);
    let child_path = store.write_rollout(child, Some(root_end), 4);
    let end = store.position(child, 6);

    let lineage = store.existing(child).expect("resolve child lineage");
    assert_eq!(lineage.segment_index_for_position(end).expect("in lineage"), 1);
    let lineage = lineage.truncate_at(end, "", REACHED).expect("explicit position");
    assert_eq!(
        segments(&lineage),
        vec![
            (root, root_path, 1, Some(root_end)),
            (child, child_path, 5, Some(end)),
        ]
    );
}

#[test]
fn rejects_missing_cycles_and_out_of_bounds_offsets() {
    let unchecked = |thread_id| HistoryPosition {
        thread_id,
        end_ordinal_exclusive: 1,
        end_byte_offset: 0,
    };
    let mut store = Store::default();
    store.write_rollout(id(2), Some(unchecked(id(1))), 2);
    assert_invalid(&mut store, id(2), "missing source rollout");
    assert_eq!(
        message(store.existing(id(2)).expect_err("missing")),
        "invalid paginated history lineage for 00000000-0000-0000-0000-000000000001: missing source rollout"
    );
    assert_invalid(&mut store, id(9), "missing source rollout");

    store.write_rollout(id(3), Some(unchecked(id(4))), 2);
    store.write_rollout(id(4), Some(unchecked(id(3))), 2);
    assert_invalid(&mut store, id(3), "cycle detected");
    assert_eq!(
        message(store.existing(id(3)).expect_err("cycle")),
        "invalid paginated history lineage for 00000000-0000-0000-0000-000000000003: cycle detected"
    );

    store.write_rollout(id(5), None, 2);
    let past = HistoryPosition {
        thread_id: id(5),
        end_ordinal_exclusive: 2,
        end_byte_offset: store.len(id(5)) + 1,
    };
    store.write_rollout(id(6), Some(past), 2);
    assert_invalid(
        &mut store,
        id(6),
        "cutoff byte offset is past the source rollout",
    );
}

#[test]
fn reference_lineage_rejects_mismatched_leaf_and_ancestor_metadata() {
    let mut store = Store::default();
    let (root, child, unrelated) = (id(1), id(2), id(3));
    let mode = ThreadHistoryMode::Paginated;
    store.write("sessions", root, root, unrelated, mode, None, 1);
    let base = store.position(root, 1);
    store.write_rollout(child, Some(base), 2);
    assert_invalid_reference(&mut store, child, "belongs to another thread");

    let mismatched_leaf = id(4);
    store.write(
        "sessions",
        mismatched_leaf,
        mismatched_leaf,
        unrelated,
        mode,
        None,
        1,
    );
    assert_invalid_reference(&mut store, mismatched_leaf, "belongs to another thread");
}

#[test]
fn ancestors_are_locked_by_thread_not_by_rollout() {
    let mut store = Store::default();
    let (root_logical, root_rollout, child) = (id(1), id(2), id(3));
    store.write_reverted(root_logical, root_rollout, None, 2);
    let base = store.position(root_rollout, 2);
    store.write_rollout(child, Some(base), 2);
    let lineage = store
        .resolve(child, LineageRepresentation::LockedForReference)
        .expect("resolve locked lineage");
    assert_eq!(lineage.segments().len(), 2);
    // The thread of the ancestor is locked, not the rollout that the lineage names.
    assert_eq!(store.locked, vec![root_logical]);
    assert_eq!(store.sources, vec![child]);
    assert_eq!(store.materialized.len(), 2);
    let attached = store
        .resolve(child, LineageRepresentation::LockedForAttachment)
        .expect("resolve locked lineage");
    assert_eq!(segments(&attached), segments(&lineage));
    assert_eq!(store.materialized.len(), 2);
    assert_eq!(store.sources, vec![child]);
}

#[test]
fn attachments_do_not_lock_their_own_thread_again() {
    let mut store = Store::default();
    let (root, logical, replacement) = (id(1), id(2), id(3));
    store.write_rollout(root, None, 2);
    let base = store.position(root, 2);
    store.write_rollout(logical, Some(base), 3);
    let earlier = store.position(logical, 3);
    store.write_reverted(logical, replacement, Some(earlier), 2);
    let lineage = store
        .resolve(logical, LineageRepresentation::LockedForAttachment)
        .expect("resolve attachment lineage");
    assert_eq!(lineage.segments().len(), 3);
    assert!(store.sources.is_empty());
    assert_eq!(store.locked, vec![root]);
    store
        .resolve(logical, LineageRepresentation::LockedForReference)
        .expect("resolve locked lineage");
    assert_eq!(store.sources, vec![logical]);
    assert_eq!(store.locked, vec![root, logical, root]);
}

#[test]
fn resolves_reverted_rollout_with_distinct_logical_and_immutable_ids() {
    let mut store = Store::default();
    let (root, logical, replacement) = (id(1), id(2), id(3));
    store.write_rollout(root, None, 2);
    let base = store.position(root, 2);
    store.write_reverted(logical, replacement, Some(base), 3);
    let lineage = store.existing(logical).expect("reverted lineage");
    assert_eq!(lineage.segments()[0].rollout_id(), root);
    assert_eq!(lineage.segments()[1].rollout_id(), replacement);
}

#[test]
fn rejects_reverted_filename_with_mismatched_logical_thread_id() {
    let mut store = Store::default();
    let (root, child, unrelated) = (id(1), id(2), id(3));
    store.write_reverted(unrelated, root, None, 2);
    let base = store.position(root, 2);
    store.write_rollout(child, Some(base), 2);
    assert_invalid_reference(&mut store, child, "filename or metadata belongs");
}

#[test]
fn rejects_a_leaf_whose_filename_names_another_thread() {
    let mut store = Store::default();
    let (requested, replacement, unrelated) = (id(1), id(2), id(3));
    store.write_reverted(requested, replacement, None, 2);
    let reference = LineageRepresentation::PlainForReference;
    assert!(store.existing(requested).is_ok());
    assert!(store.resolve(requested, reference).is_ok());
    let walk = LineageWalk::new(requested, LineageRepresentation::Existing);
    let path = store.rollouts[0].path.clone();
    let visit = walk
        .visit(Some(LocatedRollout {
            rollout_id: replacement,
            path,
        }))
        .expect("visit");
    let error = visit
        .identify(
            store.rollouts[0].meta,
            RolloutFileIds {
                thread_id: Some(unrelated),
                rollout_id: Some(replacement),
            },
        )
        .expect_err("the name belongs to another thread");
    assert_eq!(
        message(error),
        "invalid paginated history lineage for 00000000-0000-0000-0000-000000000001: source rollout filename or metadata belongs to another thread"
    );
}

#[test]
fn a_newly_shared_source_is_stored_plainly() {
    let mut store = Store::default();
    store.write_rollout(id(1), None, 3);
    let base = store.position(id(1), 2);
    store.write_rollout(id(2), Some(base), 2);
    store
        .resolve(id(1), LineageRepresentation::PlainForReference)
        .expect("source without base");
    assert_eq!(store.materialized.len(), 1);
    assert_eq!(store.coordinated, vec![id(1)]);
    store
        .resolve(id(2), LineageRepresentation::PlainForReference)
        .expect("source with base");
    assert_eq!(store.materialized.len(), 1);
    assert_eq!(store.coordinated, vec![id(1), id(2), id(1)]);
    assert!(store.locked.is_empty());
}

#[test]
fn histories_do_not_mix_modes() {
    let mut store = Store::default();
    store.write(
        "sessions",
        id(1),
        id(1),
        id(1),
        ThreadHistoryMode::Legacy,
        None,
        2,
    );
    let base = store.position(id(1), 1);
    store.write_rollout(id(2), Some(base), 2);
    assert_invalid(&mut store, id(2), "source rollout mixes history modes");
}

#[test]
fn legacy_cutoffs_have_to_end_records() {
    let mut store = Store::default();
    let mode = ThreadHistoryMode::Legacy;
    store.write("sessions", id(1), id(1), id(1), mode, None, 2);
    let base = HistoryPosition {
        thread_id: id(1),
        end_ordinal_exclusive: 0,
        end_byte_offset: line(0).len() as u64,
    };
    store.write("sessions", id(2), id(2), id(2), mode, Some(base), 1);
    let lineage = store.existing(id(2)).expect("legacy lineage");
    assert_eq!(lineage.history_mode(), mode);
    assert_eq!(
        segments(&lineage)
            .into_iter()
            .map(|(id, _, start, end)| (id, start, end))
            .collect::<Vec<_>>(),
        vec![(id(1), 0, Some(base)), (id(2), 0, None)]
    );
    let inside = HistoryPosition {
        end_byte_offset: base.end_byte_offset - 1,
        ..base
    };
    store.write("sessions", id(3), id(3), id(3), mode, Some(inside), 1);
    assert_invalid(
        &mut store,
        id(3),
        "cutoff byte offset is not at a complete JSONL record",
    );
}

#[test]
fn legacy_cutoffs_behind_lines_that_are_no_records_fail() {
    let mut store = Store::default();
    let mode = ThreadHistoryMode::Legacy;
    let path = store.write("sessions", id(1), id(1), id(1), mode, None, 1);
    store.rollouts[0].contents.extend(b"bad\n");
    let base = HistoryPosition {
        thread_id: id(1),
        end_ordinal_exclusive: 0,
        end_byte_offset: store.len(id(1)),
    };
    store.write("sessions", id(2), id(2), id(2), mode, Some(base), 1);
    assert!(matches!(
        store.existing(id(2)),
        Err(ThreadStoreError::Internal { message })
            if message
                == format!("failed to validate legacy cutoff {}: expected value", path.display())
    ));
    let checked = store.check_cutoff(id(1), CutoffRequest::Envelope { end: base.end_byte_offset });
    let lineage = store.existing(id(1)).expect("source");
    assert!(matches!(
        lineage.truncate_at(base, "source", checked),
        Err(ThreadStoreError::Internal { message })
            if message == "failed to validate legacy cutoff source: expected value"
    ));
}

#[test]
fn cutoffs_are_checked_by_mode() {
    let (legacy, paginated) = (ThreadHistoryMode::Legacy, ThreadHistoryMode::Paginated);
    assert_eq!(cutoff_request(legacy, 7), CutoffRequest::Envelope { end: 7 });
    assert_eq!(cutoff_request(paginated, 7), CutoffRequest::Prefix { end: 7 });
    let envelope = |answer| CutoffCheck::Envelope { answer };
    assert!(cutoff_checked(id(1), "a", legacy, envelope(Ok(true))).is_ok());
    assert!(cutoff_checked(id(1), "a", paginated, REACHED).is_ok());
    let refused = |mode, checked| match cutoff_checked(id(1), "a", mode, checked) {
        Err(ThreadStoreError::InvalidRequest { message }) => message,
        other => panic!("unexpected outcome {other:?}"),
    };
    let prefix = "invalid paginated history lineage for 00000000-0000-0000-0000-000000000001: ";
    assert_eq!(
        refused(legacy, envelope(Ok(false))),
        format!("{prefix}cutoff byte offset is not at a complete JSONL record")
    );
    assert_eq!(
        refused(paginated, PASSED),
        format!("{prefix}cutoff byte offset is past the source rollout")
    );
    assert!(matches!(
        cutoff_checked(
            id(1),
            "a",
            legacy,
            envelope(Err(InvalidEnvelope {
                reason: "missing field".to_string()
            }))
        ),
        Err(ThreadStoreError::Internal { message })
            if message == "failed to validate legacy cutoff a: missing field"
    ));
}

#[test]
fn paginated_cutoffs_may_lie_anywhere_in_their_rollout() {
    let mut store = Store::default();
    store.write_rollout(id(1), None, 2);
    let len = store.len(id(1));
    for (child, end_byte_offset) in [(2, 0), (3, 1), (4, len - 1), (5, len)] {
        let base = HistoryPosition {
            thread_id: id(1),
            end_ordinal_exclusive: 900,
            end_byte_offset,
        };
        store.write_rollout(id(child), Some(base), 1);
        let lineage = store.existing(id(child)).expect("cutoff in its rollout");
        assert_eq!(lineage.segments()[0].end, Some(base));
    }
}

#[test]
fn ordinals_do_not_overflow() {
    let mut store = Store::default();
    store.write_rollout(id(1), None, 1);
    let base = HistoryPosition {
        thread_id: id(1),
        end_ordinal_exclusive: u64::MAX,
        end_byte_offset: 0,
    };
    store.write_rollout(id(2), Some(base), 0);
    assert_invalid(&mut store, id(2), "source ordinal overflow");
}

#[test]
fn positions_outside_a_lineage_are_refused() {
    let mut store = Store::default();
    store.write_rollout(id(1), None, 2);
    let outside = HistoryPosition {
        thread_id: id(7),
        end_ordinal_exclusive: 1,
        end_byte_offset: 0,
    };
    let lineage = store.existing(id(1)).expect("lineage");
    assert!(matches!(
        lineage.truncate_at(outside, "", REACHED),
        Err(ThreadStoreError::Internal { message })
            if message == "fork position is outside the source lineage"
    ));
    let lineage = store.existing(id(1)).expect("lineage");
    let inside = HistoryPosition {
        thread_id: id(1),
        ..outside
    };
    assert_eq!(
        message(lineage.truncate_at(inside, "", PASSED).expect_err("cutoff")),
        "invalid paginated history lineage for 00000000-0000-0000-0000-000000000001: cutoff byte offset is past the source rollout"
    );
}

#[test]
fn forks_inherit_the_history_of_their_source() {
    let mut store = Store::default();
    store.write_rollout(id(1), None, 6);
    let first = store.position(id(1), 4);
    store.write_rollout(id(2), Some(first), 4);
    let fork = store.position(id(2), 6);
    store.write_rollout(id(3), Some(fork), 2);
    let child = segments(&store.existing(id(3)).expect("child"));
    let source = store.existing(id(2)).expect("source");
    let truncated = segments(&source.truncate_at(fork, "", REACHED).expect("truncated"));
    assert_eq!(child[..child.len() - 1], truncated[..]);
}

#[test]
fn contexts_are_scanned_from_the_last_segment() {
    let mut store = Store::default();
    store.write_rollout(id(1), None, 6);
    let base = store.position(id(1), 4);
    store.write_rollout(id(2), Some(base), 2);
    let lineage = store.existing(id(2)).expect("lineage");
    let mut scan = LineageScan::new(&lineage);
    let last = scan.next(&lineage, false).expect("last segment");
    assert_eq!((last.index, last.end_byte_offset), (1, None));
    let first = scan.next(&lineage, false).expect("first segment");
    assert_eq!(
        (first.index, first.end_byte_offset),
        (0, Some(base.end_byte_offset))
    );
    assert!(scan.next(&lineage, false).is_none());
    let mut scan = LineageScan::new(&lineage);
    scan.next(&lineage, false).expect("last segment");
    assert!(scan.next(&lineage, true).is_none());

    assert_eq!(
        fork_context_plan(&lineage, Some(base)).expect("plan"),
        (1, ForkContextPlan::Truncated { end: base })
    );
    assert_eq!(
        fork_context_plan(&lineage, None).expect("plan"),
        (1, ForkContextPlan::MetaOnly)
    );
}
