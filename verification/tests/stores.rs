use thread_store::error::ThreadStoreError;
use thread_store::history::ThreadHistoryMode;
use thread_store::legacy_fork::ForkBoundary;
use thread_store::lineage_walk::RolloutFileIds;
use thread_store::model_context::context_plan;
use thread_store::model_context::found_rollout;
use thread_store::model_context::is_compressed;
use thread_store::model_context::with_canonical_meta;
use thread_store::model_context::ContextAction;
use thread_store::model_context::ContextPlan;
use thread_store::model_context::ContextRecord;
use thread_store::model_context::ContextSegmentScan;
use thread_store::model_context::SegmentStep;
use thread_store::store::fork_route;
use thread_store::store::history_route;
use thread_store::store::loaded_history;
use thread_store::store::needs_managed_source;
use thread_store::store::ForkRoute;
use thread_store::store::ForkSource;
use thread_store::store::HistoryRoute;
use thread_store::store::LiveRecorders;
use thread_store::thread_id::ThreadId;
use thread_store::unarchive::ArchivedRollout;
use thread_store::unarchive::MoveStep;
use thread_store::unarchive::RolloutDate;
use thread_store::unarchive::UnarchiveMove;
use thread_store::unarchive::UnarchiveRequest;

const LEGACY: ThreadHistoryMode = ThreadHistoryMode::Legacy;
const PAGINATED: ThreadHistoryMode = ThreadHistoryMode::Paginated;

fn id(value: u128) -> ThreadId {
    ThreadId { value }
}

fn message(error: ThreadStoreError) -> String {
    match error {
        ThreadStoreError::InvalidRequest { message }
        | ThreadStoreError::Conflict { message }
        | ThreadStoreError::Internal { message } => message,
        other => panic!("unexpected error {other:?}"),
    }
}

#[test]
fn a_thread_has_one_live_writer() {
    let mut recorders: LiveRecorders<&str, &str> = LiveRecorders::new();
    recorders.ensure_live_recorder_absent(id(1)).expect("absent");
    recorders
        .insert_live_recorder(id(1), "recorder", PAGINATED, Some("lock"))
        .expect("first writer");
    let duplicate = "thread 00000000-0000-0000-0000-000000000001 already has a live local writer";
    assert!(matches!(
        recorders.ensure_live_recorder_absent(id(1)),
        Err(ThreadStoreError::InvalidRequest { message }) if message == duplicate
    ));
    assert!(matches!(
        recorders.insert_live_recorder(id(1), "other", LEGACY, None),
        Err(ThreadStoreError::InvalidRequest { message }) if message == duplicate
    ));
    let kept = recorders.remove(id(1)).expect("first writer");
    assert_eq!((kept.recorder, kept.history_mode, kept.writer_lock), ("recorder", PAGINATED, Some("lock")));
    recorders.ensure_live_recorder_absent(id(1)).expect("absent");
    assert!(recorders.remove(id(1)).is_none());
}

#[test]
fn only_locks_that_no_live_writer_holds_are_acquired() {
    let mut recorders: LiveRecorders<(), u8> = LiveRecorders::new();
    recorders
        .insert_live_recorder(id(1), (), LEGACY, Some(7))
        .expect("with lock");
    recorders
        .insert_live_recorder(id(2), (), LEGACY, None)
        .expect("without lock");
    assert_eq!(recorders.existing_writer_lock(id(1)), Some(&7));
    assert_eq!(recorders.existing_writer_lock(id(2)), None);
    assert_eq!(recorders.existing_writer_lock(id(3)), None);
    assert_eq!(
        recorders.missing_writer_locks(&[id(3), id(1), id(2), id(3)]),
        vec![id(3), id(2), id(3)]
    );
}

#[test]
fn histories_of_live_writers_are_read_from_their_rollouts() {
    assert_eq!(history_route(id(1), None, false).expect("route"), HistoryRoute::StoredThread);
    assert_eq!(
        history_route(id(1), Some(false), false).expect("route"),
        HistoryRoute::LiveRollout
    );
    assert_eq!(
        history_route(id(1), Some(true), true).expect("route"),
        HistoryRoute::LiveRollout
    );
    assert_eq!(
        message(history_route(id(1), Some(true), false).expect_err("archived")),
        "thread 00000000-0000-0000-0000-000000000001 is archived"
    );
    assert_eq!(loaded_history(id(1), Some("history")).expect("history"), "history");
    assert_eq!(
        message(loaded_history(id(1), None::<&str>).expect_err("no history")),
        "failed to load history for thread 00000000-0000-0000-0000-000000000001"
    );
}

#[test]
fn forks_are_dispatched_by_history_mode() {
    let route = |boundary, mode, managed, base| fork_route(id(1), boundary, mode, managed, base);
    assert!(needs_managed_source(ForkBoundary::Latest, LEGACY));
    assert!(!needs_managed_source(ForkBoundary::Latest, PAGINATED));
    assert!(!needs_managed_source(ForkBoundary::Earlier, LEGACY));
    assert_eq!(
        route(ForkBoundary::Latest, LEGACY, true, false).expect("legacy"),
        ForkRoute::Legacy
    );
    for managed in [false, true] {
        for boundary in [ForkBoundary::Latest, ForkBoundary::Earlier] {
            assert_eq!(
                route(boundary, PAGINATED, managed, true).expect("paginated"),
                ForkRoute::Paginated
            );
        }
    }
    assert_eq!(
        message(route(ForkBoundary::Earlier, LEGACY, true, false).expect_err("legacy")),
        "fork source 00000000-0000-0000-0000-000000000001 does not use paginated history"
    );
    assert_eq!(
        message(route(ForkBoundary::Latest, LEGACY, false, true).expect_err("external")),
        "reference rollout for thread 00000000-0000-0000-0000-000000000001 must resolve to its managed Codex home path"
    );
    assert!(matches!(
        route(ForkBoundary::Latest, LEGACY, false, false),
        Err(ThreadStoreError::Unsupported { operation: "external legacy latest fork" })
    ));
}

#[test]
fn fork_sources_need_a_rollout_but_no_writer() {
    let source = || ForkSource {
        thread_id: id(1),
        boundary: ForkBoundary::Latest,
        lifecycle: "lease",
        filesystem: "lock",
    };
    let kept = source()
        .persisted(Err(ThreadStoreError::ThreadNotFound { thread_id: id(1) }))
        .expect("no writer");
    assert_eq!((kept.lifecycle, kept.filesystem), ("lease", "lock"));
    assert!(matches!(
        source().persisted(Err(ThreadStoreError::Conflict { message: "busy".to_string() })),
        Err(ThreadStoreError::Conflict { message }) if message == "busy"
    ));
    assert_eq!(source().located(Some("/p")).expect("rollout"), "/p");
    assert!(matches!(
        source().located(None::<&str>),
        Err(ThreadStoreError::ThreadNotFound { thread_id }) if thread_id == id(1)
    ));
}

#[test]
fn contexts_are_read_by_what_their_rollout_is() {
    let plan = |base, compressed, mode| context_plan(id(1), "/p", id(1), base, compressed, mode);
    assert_eq!(plan(true, true, LEGACY).expect("plan"), ContextPlan::LockedLineage);
    assert_eq!(plan(false, true, PAGINATED).expect("plan"), ContextPlan::WholeRollout);
    assert_eq!(plan(false, false, LEGACY).expect("plan"), ContextPlan::Rollout);
    assert_eq!(plan(false, false, PAGINATED).expect("plan"), ContextPlan::Lineage);
    assert_eq!(
        message(context_plan(id(1), "/p", id(2), true, false, LEGACY).expect_err("other thread")),
        "rollout at /p belongs to thread 00000000-0000-0000-0000-000000000002, not 00000000-0000-0000-0000-000000000001"
    );
    assert_eq!(
        message(found_rollout(id(1), None::<&str>).expect_err("missing")),
        "no rollout found for thread id 00000000-0000-0000-0000-000000000001"
    );
    assert_eq!(found_rollout(id(1), Some("/p")).expect("found"), "/p");
    assert!(is_compressed(Some("rollout-a.jsonl.zst")));
    assert!(is_compressed(Some(".jsonl.zst")));
    assert!(!is_compressed(Some("rollout-a.jsonl")));
    assert!(!is_compressed(Some("zst")));
    assert!(!is_compressed(None));
}

#[test]
fn contexts_start_with_canonical_metadata() {
    assert_eq!(with_canonical_meta(vec!["a", "b"], false, "meta"), vec!["meta", "a", "b"]);
    assert_eq!(with_canonical_meta(vec!["m", "b"], true, "meta"), vec!["m", "b"]);
    assert_eq!(with_canonical_meta(Vec::new(), false, "meta"), vec!["meta"]);
}

/// Scans a segment whose records are named by their first byte, and says which items were pushed
/// and how the scan ended; pushing the record that starts with `complete_at` completes the context.
fn scan_segment(file: &[u8], end: Option<u64>, complete_at: u8) -> (String, bool) {
    let at = end.unwrap_or(file.len() as u64) as usize;
    let before = if at == 0 { None } else { Some(file[at - 1]) };
    let mut scan = match ContextSegmentScan::new(file.len() as u64, end, before) {
        Ok(scan) => scan,
        Err(error) => panic!("{}", error.message()),
    };
    let mut pushed = String::new();
    loop {
        match scan.next() {
            SegmentStep::Read { offset, len } => {
                let start = offset as usize;
                scan.supply(file[start..start + len].to_vec());
            }
            SegmentStep::Record { bytes } => {
                let kind = match bytes[0] {
                    b'!' => ContextRecord::Rejected,
                    b'g' => ContextRecord::GhostSnapshot,
                    b'?' => ContextRecord::NotALine,
                    b'm' => ContextRecord::SessionMeta,
                    _ => ContextRecord::Item,
                };
                if scan.judge(kind) == ContextAction::Push {
                    pushed.push(bytes[0] as char);
                    scan.pushed(bytes[0] == complete_at);
                }
            }
            SegmentStep::Done { complete } => {
                assert!(matches!(scan.next(), SegmentStep::Done { complete: again } if again == complete));
                return (pushed, complete);
            }
        }
    }
}

#[test]
fn segments_are_pushed_newest_first_until_the_context_is_complete() {
    let file = b"meta\na\n!\nb\n\nghost\nc\n?\nmeta\nd";
    assert_eq!(scan_segment(file, None, b'-'), ("dcba".to_string(), false));
    assert_eq!(scan_segment(file, None, b'b'), ("dcb".to_string(), true));
    assert_eq!(scan_segment(file, None, b'd'), ("d".to_string(), true));
    assert_eq!(scan_segment(file, None, b'a'), ("dcba".to_string(), true));
    // A record that is skipped completes nothing.
    assert_eq!(scan_segment(file, None, b'm'), ("dcba".to_string(), false));
    assert_eq!(scan_segment(file, Some(11), b'-'), ("ba".to_string(), false));
    assert_eq!(scan_segment(file, Some(0), b'-'), (String::new(), false));
    assert_eq!(scan_segment(b"", None, b'-'), (String::new(), false));
    assert!(ContextSegmentScan::new(3, Some(4), None).is_err());
}

fn archived(name: &str, date: Option<RolloutDate>) -> ArchivedRollout {
    ArchivedRollout {
        path: format!("archived_sessions/{name}"),
        file_name: name.to_string(),
        date,
    }
}

fn date() -> Option<RolloutDate> {
    Some(RolloutDate {
        year: "2025".to_string(),
        month: "01".to_string(),
        day: "03".to_string(),
    })
}

fn moving(locks: Vec<u8>) -> UnarchiveMove<&'static str, &'static str, u8, &'static str> {
    let recorders: LiveRecorders<(), ()> = LiveRecorders::new();
    let locked = UnarchiveRequest {
        thread_id: id(203),
        lifecycle: "lifecycle",
        live_writer: "writer",
    }
    .without_active_writer(&recorders)
    .expect("idle")
    .with_locks(locks, "topology");
    let path = "archived_sessions/rollout-2025-01-03T13-00-00-x.jsonl";
    assert_eq!(locked.archived_rollout(Ok(Some(path))).expect("found"), path);
    locked
        .destination(&vec![archived("rollout-2025-01-03T13-00-00-x.jsonl", date())])
        .expect("destination")
}

#[test]
fn unarchived_rollouts_go_to_the_directory_of_their_date() {
    let mut moving = moving(vec![5]);
    assert_eq!(moving.restored(0).directories, vec!["sessions", "2025", "01", "03"]);
    assert_eq!(moving.restored(0).file_name, "rollout-2025-01-03T13-00-00-x.jsonl");
    let mut steps = Vec::new();
    while let Some((index, step)) = moving.next_step() {
        assert_eq!(index, 0);
        steps.push(step);
        moving = moving.step_done(Ok(())).expect("step");
    }
    assert_eq!(
        steps,
        vec![MoveStep::CreateDirectory, MoveStep::Rename, MoveStep::Touch]
    );
    let guards = moving.finish().expect("guards");
    assert_eq!(
        (guards.lifecycle, guards.live_writer, guards.writer_lock, guards.topology),
        ("lifecycle", "writer", 5, "topology")
    );
}

#[test]
fn every_rollout_of_an_unarchived_thread_is_restored() {
    let recorders: LiveRecorders<(), ()> = LiveRecorders::new();
    let locked = || {
        UnarchiveRequest {
            thread_id: id(203),
            lifecycle: (),
            live_writer: (),
        }
        .without_active_writer(&recorders)
        .expect("idle")
        .with_locks(vec![5], ())
    };
    let dated = |day: &str| {
        Some(RolloutDate {
            year: "2025".to_string(),
            month: "01".to_string(),
            day: day.to_string(),
        })
    };
    let file = |thread_id, rollout_id| RolloutFileIds { thread_id, rollout_id };
    for (named, expected) in [
        (file(Some(id(203)), Some(id(203))), id(203)),
        (file(Some(id(203)), Some(id(9))), id(9)),
        (file(Some(id(8)), Some(id(9))), id(203)),
        (file(Some(id(203)), None), id(203)),
        (file(None, None), id(203)),
    ] {
        assert_eq!(locked().expected_rollout_id(named), expected);
    }
    let mut moving = locked()
        .destination(&vec![
            archived("c.jsonl", dated("05")),
            archived("a.jsonl", dated("03")),
            archived("b.jsonl", dated("04")),
        ])
        .expect("destinations");
    let mut places: Vec<String> = ["c", "a", "b"]
        .iter()
        .map(|name| format!("archived_sessions/{name}.jsonl"))
        .collect();
    let mut steps = Vec::new();
    while let Some((index, step)) = moving.next_step() {
        if step == MoveStep::Rename {
            let restored = moving.restored(index);
            places[index] = format!("{}/{}", restored.directories.join("/"), restored.file_name);
        }
        steps.push((index, step));
        moving = moving.step_done(Ok(())).expect("step");
    }
    assert_eq!(
        places,
        vec![
            "sessions/2025/01/05/c.jsonl",
            "sessions/2025/01/03/a.jsonl",
            "sessions/2025/01/04/b.jsonl"
        ]
    );
    let expected: Vec<(usize, MoveStep)> = (0..3)
        .flat_map(|index| {
            [MoveStep::CreateDirectory, MoveStep::Rename, MoveStep::Touch].map(|step| (index, step))
        })
        .collect();
    assert_eq!(steps, expected);
    assert_eq!(moving.finish().expect("guards").writer_lock, 5);

    // Nothing is moved where one of the rollouts has no date.
    assert_eq!(
        message(
            locked()
                .destination(&vec![archived("c.jsonl", dated("05")), archived("a.jsonl", None)])
                .expect_err("no date")
        ),
        "rollout path `archived_sessions/a.jsonl` missing filename timestamp"
    );
}

#[test]
fn unarchives_are_refused_while_a_writer_is_active() {
    let mut recorders: LiveRecorders<(), u8> = LiveRecorders::new();
    recorders
        .insert_live_recorder(id(205), (), LEGACY, Some(1))
        .expect("live writer");
    let request = || UnarchiveRequest {
        thread_id: id(205),
        lifecycle: (),
        live_writer: (),
    };
    let error = request()
        .without_active_writer(&recorders)
        .expect_err("unarchive must not move an active legacy rollout");
    assert!(matches!(error, ThreadStoreError::Conflict { .. }));
    assert_eq!(
        message(error),
        "thread 00000000-0000-0000-0000-0000000000cd already has an active writer"
    );
    recorders.remove(id(205)).expect("shutdown");
    assert!(request().without_active_writer(&recorders).is_ok());
}

#[test]
fn failed_unarchives_say_why() {
    let recorders: LiveRecorders<(), ()> = LiveRecorders::new();
    let locked = || {
        UnarchiveRequest {
            thread_id: id(203),
            lifecycle: (),
            live_writer: (),
        }
        .without_active_writer(&recorders)
        .expect("idle")
        .with_locks(vec![5], ())
    };
    assert_eq!(
        message(locked().archived_rollout(Ok(None::<&str>)).expect_err("missing")),
        "no archived rollout found for thread id 00000000-0000-0000-0000-0000000000cb"
    );
    assert_eq!(
        message(
            locked()
                .archived_rollout::<&str>(Err("disk".to_string()))
                .expect_err("failed")
        ),
        "failed to locate archived thread id 00000000-0000-0000-0000-0000000000cb: disk"
    );
    assert_eq!(
        message(
            locked()
                .destination(&vec![archived("x.jsonl", None)])
                .expect_err("no date")
        ),
        "rollout path `archived_sessions/x.jsonl` missing filename timestamp"
    );
    let failed = || Err("disk".to_string());
    assert_eq!(
        message(moving(vec![5]).step_done(failed()).expect_err("directory")),
        "failed to unarchive thread: disk"
    );
    let renamed = moving(vec![5]).step_done(Ok(())).expect("directory");
    assert_eq!(
        message(renamed.step_done(failed()).expect_err("rename")),
        "failed to unarchive thread: disk"
    );
    let touched = moving(Vec::new())
        .step_done(Ok(()))
        .expect("directory")
        .step_done(Ok(()))
        .expect("rename");
    let moved = touched.step_done(Ok(())).expect("touch");
    assert_eq!(
        message(moved.finish().expect_err("no lock")),
        "missing writer lock for unarchiving thread 00000000-0000-0000-0000-0000000000cb"
    );
    let touched = moving(vec![5])
        .step_done(Ok(()))
        .expect("directory")
        .step_done(Ok(()))
        .expect("rename");
    assert_eq!(
        message(touched.step_done(failed()).expect_err("touch")),
        "failed to update unarchived thread timestamp: disk"
    );
}
