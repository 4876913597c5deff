use std::path::PathBuf;
use thread_store::error::ThreadStoreError;
use thread_store::lineage_walk::LineageRepresentation;
use thread_store::lineage_walk::LineageWalk;
use thread_store::source_locks::acquire_error;
use thread_store::source_locks::acquire_topology_error;
use thread_store::source_locks::SourceDecision;
use thread_store::source_locks::SourceLockKey;
use thread_store::source_locks::SourceLockRegistry;
use thread_store::thread_id::ThreadId;
use thread_store::writer_lock::lock_path;
use thread_store::writer_lock::release_step;
use thread_store::writer_lock::stale_lock_entry;
use thread_store::writer_lock::stale_lock_step;
use thread_store::writer_lock::thread_lock_file;
use thread_store::writer_lock::thread_of_lock_file;
use thread_store::writer_lock::AcquireAction;
use thread_store::writer_lock::HomeLock;
use thread_store::writer_lock::LockEvent;
use thread_store::writer_lock::LockPath;
use thread_store::writer_lock::ReleaseAction;
use thread_store::writer_lock::StaleLockAction;
use thread_store::writer_lock::ThreadWriterLockCoordinator;
use thread_store::writer_lock::WriterLockError;
use thread_store::writer_lock::THREAD_WRITER_COORDINATION_LOCK_FILE;
use thread_store::writer_lock::THREAD_WRITER_LOCK_DIR;
use thread_store::writer_lock::THREAD_WRITER_TOPOLOGY_LOCK_FILE;

fn id(value: u128) -> ThreadId {
    ThreadId { value }
}

/// A directory of lock files, each held by somebody or not.
#[derive(Default)]
struct LockDirectory {
    files: Vec<(String, bool)>,
    cleanups: usize,
}

impl LockDirectory {
    fn names(&self) -> Vec<&str> {
        self.files.iter().map(|(name, _)| name.as_str()).collect()
    }

    fn open(&mut self, name: &str) {
        if !self.names().contains(&name) {
            self.files.push((name.to_string(), false));
        }
    }

    fn try_lock(&mut self, name: &str) -> LockEvent {
        let file = self
            .files
            .iter_mut()
            .find(|(file, _)| file == name)
            .expect("open file");
        if file.1 {
            return LockEvent::WouldBlock;
        }
        file.1 = true;
        LockEvent::Done
    }

    fn remove_stale(&mut self) {
        self.cleanups += 1;
        for name in self.names().into_iter().map(str::to_string).collect::<Vec<_>>() {
            let mut action = stale_lock_entry(Some(&name));
            loop {
                let event = match action {
                    StaleLockAction::Open => LockEvent::Done,
                    StaleLockAction::TryLock => self.try_lock(&name),
                    StaleLockAction::Remove => {
                        self.files.retain(|(file, _)| *file != name);
                        LockEvent::Done
                    }
                    _ => break,
                };
                action = stale_lock_step(action, &event);
            }
        }
    }

    fn open_path(&mut self, path: LockPath) -> String {
        assert_eq!(path.directories, vec![THREAD_WRITER_LOCK_DIR]);
        self.open(&path.file_name);
        path.file_name
    }

    fn acquire(
        &mut self,
        coordinator: &mut ThreadWriterLockCoordinator,
        thread_id: ThreadId,
    ) -> Result<String, WriterLockError> {
        let mut acquisition = coordinator.acquire(thread_id);
        let mut event = LockEvent::Done;
        let mut opened = String::new();
        loop {
            match acquisition.advance(coordinator, event) {
                AcquireAction::LockCoordination { path } => {
                    self.open_path(path);
                    event = LockEvent::Done;
                }
                AcquireAction::RemoveStaleLocks { directories } => {
                    assert_eq!(directories, vec![THREAD_WRITER_LOCK_DIR]);
                    self.remove_stale();
                    event = LockEvent::Done;
                }
                AcquireAction::OpenLockFile { path } => {
                    opened = self.open_path(path);
                    event = LockEvent::Done;
                }
                AcquireAction::TryLockFile => event = self.try_lock(&opened),
                AcquireAction::Finish { outcome } => return outcome.map(|()| opened),
            }
        }
    }

    fn acquire_topology(
        &mut self,
        coordinator: &ThreadWriterLockCoordinator,
    ) -> Result<(), WriterLockError> {
        let name = self.open_path(coordinator.acquire_topology());
        let event = self.try_lock(&name);
        coordinator.topology_outcome(event)
    }

    fn release(&mut self, name: &str) {
        match release_step(&LockEvent::Done) {
            ReleaseAction::CloseAndRemoveFile => self.files.retain(|(file, _)| file != name),
            ReleaseAction::CloseFile => panic!("coordinated release removes the file"),
        }
    }
}

fn coordinator() -> ThreadWriterLockCoordinator {
    ThreadWriterLockCoordinator::new(PathBuf::from("/home"))
}

fn would_block(error: WriterLockError) -> String {
    match error {
        WriterLockError::WouldBlock { message } => message,
        WriterLockError::Failed { message } => panic!("failed: {message}"),
    }
}

#[test]
fn shared_writer_locks_conflict_across_independent_coordinators() {
    let mut home = LockDirectory::default();
    let thread_id = id(901);
    let (mut first, mut second) = (coordinator(), coordinator());
    let held = home.acquire(&mut first, thread_id).expect("first");
    let error = home
        .acquire(&mut second, thread_id)
        .expect_err("second coordinator must observe the held lock");
    assert_eq!(
        would_block(error),
        "thread 00000000-0000-0000-0000-000000000385 already has an active writer"
    );
    home.release(&held);
    assert!(home.acquire(&mut second, thread_id).is_ok());
}

#[test]
fn topology_barrier_serializes_reference_scans_and_renames() {
    let mut home = LockDirectory::default();
    let (first, second) = (coordinator(), coordinator());
    home.acquire_topology(&first).expect("first");
    let error = home
        .acquire_topology(&second)
        .expect_err("topology operations must not overlap");
    assert_eq!(would_block(error), "rollout topology is busy");
    home.release(THREAD_WRITER_TOPOLOGY_LOCK_FILE);
    assert!(home.acquire_topology(&second).is_ok());
}

#[test]
fn writer_locks_reject_competing_owners_and_release_their_files() {
    let mut home = LockDirectory::default();
    let (mut primary, mut secondary) = (coordinator(), coordinator());
    let (thread_id, other_thread_id) = (id(1), id(2));
    let owner = home.acquire(&mut primary, thread_id).expect("owner");
    assert_eq!(owner, format!("{}.lock", thread_id.to_text()));
    let error = home
        .acquire(&mut secondary, thread_id)
        .expect_err("competing owner should fail");
    assert!(matches!(
        acquire_error(thread_id, error),
        ThreadStoreError::Conflict { message }
            if message == "thread 00000000-0000-0000-0000-000000000001 already has an active writer"
    ));
    let other_owner = home
        .acquire(&mut secondary, other_thread_id)
        .expect("other thread should acquire its own lock");
    home.release(&owner);
    assert!(!home.names().contains(&owner.as_str()));
    let next_owner = home
        .acquire(&mut secondary, thread_id)
        .expect("released thread should accept another owner");
    home.release(&next_owner);
    home.release(&other_owner);
    assert_eq!(home.names(), vec![THREAD_WRITER_COORDINATION_LOCK_FILE]);
}

#[test]
fn first_acquisition_removes_stale_locks_without_removing_active_locks() {
    let mut home = LockDirectory::default();
    let mut primary = coordinator();
    let active_thread_id = id(1);
    home.acquire(&mut primary, active_thread_id).expect("active");
    let stale = thread_lock_file(id(2));
    home.open(&stale);
    home.open("notes.lock");
    home.open(THREAD_WRITER_TOPOLOGY_LOCK_FILE);

    let mut secondary = coordinator();
    home.acquire(&mut secondary, id(3)).expect("after cleanup");
    assert!(!home.names().contains(&stale.as_str()));
    assert!(home.names().contains(&"notes.lock"));
    assert!(home.names().contains(&THREAD_WRITER_TOPOLOGY_LOCK_FILE));
    would_block(
        home.acquire(&mut secondary, active_thread_id)
            .expect_err("active writer should survive cleanup"),
    );
    // Each coordinator cleans up once.
    assert_eq!(home.cleanups, 2);
}

#[test]
fn lock_files_lie_in_one_directory_below_the_home() {
    let path = |lock| {
        let LockPath { directories, file_name } = lock_path(lock);
        format!("{}/{file_name}", directories.join("/"))
    };
    assert_eq!(
        path(HomeLock::Thread { thread_id: id(5) }),
        "thread-writer-locks/00000000-0000-0000-0000-000000000005.lock"
    );
    assert_eq!(path(HomeLock::Coordination), "thread-writer-locks/.coordination.lock");
    assert_eq!(path(HomeLock::Topology), "thread-writer-locks/.reference-topology.lock");
}

#[test]
fn lock_files_are_recognised_by_their_names() {
    assert_eq!(
        thread_lock_file(id(5)),
        "00000000-0000-0000-0000-000000000005.lock"
    );
    assert_eq!(thread_of_lock_file(&thread_lock_file(id(5))), Some(id(5)));
    for name in [
        THREAD_WRITER_COORDINATION_LOCK_FILE,
        THREAD_WRITER_TOPOLOGY_LOCK_FILE,
        ".lock",
        "lock",
        "00000000-0000-0000-0000-000000000005",
        "00000000-0000-0000-0000-000000000005.lock.bak",
    ] {
        assert_eq!(thread_of_lock_file(name), None, "{name}");
    }
    assert_eq!(stale_lock_entry(None), StaleLockAction::Skip);
}

#[test]
fn failures_end_an_acquisition_but_cleanups_do_not() {
    let failed = || LockEvent::Failed {
        message: "disk".to_string(),
    };
    let mut coordinator = coordinator();
    let mut acquisition = coordinator.acquire(id(1));
    acquisition.advance(&mut coordinator, LockEvent::Done);
    assert!(matches!(
        acquisition.advance(&mut coordinator, failed()),
        AcquireAction::Finish { outcome: Err(WriterLockError::Failed { message }) } if message == "disk"
    ));

    let mut acquisition = coordinator.acquire(id(1));
    acquisition.advance(&mut coordinator, LockEvent::Done);
    assert!(matches!(
        acquisition.advance(&mut coordinator, LockEvent::Done),
        AcquireAction::RemoveStaleLocks { .. }
    ));
    assert!(matches!(
        acquisition.advance(&mut coordinator, failed()),
        AcquireAction::OpenLockFile { .. }
    ));
    assert!(matches!(
        acquisition.advance(&mut coordinator, LockEvent::Done),
        AcquireAction::TryLockFile
    ));
    let AcquireAction::Finish { outcome } = acquisition.advance(&mut coordinator, failed()) else {
        panic!("finished");
    };
    assert!(matches!(
        acquire_error(id(1), outcome.expect_err("failed")),
        ThreadStoreError::Internal { message }
            if message == "failed to acquire thread writer lock for thread 00000000-0000-0000-0000-000000000001: disk"
    ));
    assert!(matches!(
        acquire_topology_error(coordinator.topology_outcome(failed()).expect_err("failed")),
        ThreadStoreError::Internal { message }
            if message == "failed to acquire rollout topology lock: disk"
    ));
    assert_eq!(coordinator.codex_home(), &PathBuf::from("/home"));
}

#[test]
fn stale_locks_are_removed_only_when_nobody_holds_them() {
    let missing = LockEvent::NotFound {
        message: "gone".to_string(),
    };
    let failed = LockEvent::Failed {
        message: "disk".to_string(),
    };
    let step = stale_lock_step;
    assert_eq!(step(StaleLockAction::Open, &missing), StaleLockAction::Skip);
    assert_eq!(step(StaleLockAction::Open, &failed), StaleLockAction::WarnInspect);
    assert_eq!(
        step(StaleLockAction::TryLock, &LockEvent::WouldBlock),
        StaleLockAction::Skip
    );
    assert_eq!(step(StaleLockAction::TryLock, &failed), StaleLockAction::WarnInspect);
    assert_eq!(
        step(StaleLockAction::TryLock, &LockEvent::Done),
        StaleLockAction::Remove
    );
    assert_eq!(step(StaleLockAction::Remove, &missing), StaleLockAction::Skip);
    assert_eq!(step(StaleLockAction::Remove, &failed), StaleLockAction::WarnRemove);
    assert_eq!(release_step(&failed), ReleaseAction::CloseFile);
}

/// Locks of one process, each shared by its owners.
#[derive(Default)]
struct Process {
    directories: Vec<LockDirectory>,
    registry: Option<SourceLockRegistry>,
    owners: Vec<usize>,
    names: Vec<(usize, String)>,
}

impl Process {
    fn new(homes: usize) -> Self {
        Self {
            directories: (0..homes).map(|_| LockDirectory::default()).collect(),
            registry: Some(SourceLockRegistry::new()),
            ..Self::default()
        }
    }

    fn registry(&mut self) -> &mut SourceLockRegistry {
        let live = self
            .registry
            .as_ref()
            .expect("registry")
            .leases()
            .iter()
            .map(|lease| self.owners[lease.lock as usize] > 0)
            .collect();
        let registry = self.registry.as_mut().expect("registry");
        registry.retain(&live);
        registry
    }

    fn acquire(&mut self, home: usize, thread_id: ThreadId) -> Result<u64, ThreadStoreError> {
        let name = self.directories[home]
            .acquire(&mut coordinator(), thread_id)
            .map_err(|error| acquire_error(thread_id, error))?;
        self.names.push((home, name));
        self.owners.push(1);
        Ok(self.owners.len() as u64 - 1)
    }

    fn acquire_source(&mut self, home: usize, thread_id: ThreadId) -> Result<u64, ThreadStoreError> {
        let key = SourceLockKey {
            home: home as u64,
            thread_id,
        };
        match self.registry().acquire_source(key) {
            SourceDecision::Share { lock } => Ok(self.clone_owner(lock)),
            SourceDecision::Acquire => {
                let lock = self.acquire(home, thread_id)?;
                self.registry().publish(key, lock);
                Ok(lock)
            }
        }
    }

    fn acquire_owner(&mut self, home: usize, thread_id: ThreadId) -> Result<u64, ThreadStoreError> {
        let key = SourceLockKey {
            home: home as u64,
            thread_id,
        };
        self.registry().acquire_registered_source_owner(key)?;
        let lock = self.acquire(home, thread_id)?;
        self.registry().publish(key, lock);
        Ok(lock)
    }

    fn clone_owner(&mut self, lock: u64) -> u64 {
        self.owners[lock as usize] += 1;
        lock
    }

    fn drop_owner(&mut self, lock: u64) {
        let owners = &mut self.owners[lock as usize];
        *owners -= 1;
        if *owners == 0 {
            let (home, name) = self.names[lock as usize].clone();
            self.directories[home].release(&name);
        }
    }
}

#[test]
fn cloned_guard_retains_the_cross_process_lock_until_last_owner_drops() {
    let mut process = Process::new(1);
    let thread_id = id(902);
    let original = process.acquire(0, thread_id).expect("first coordinator");
    let retained = process.clone_owner(original);
    process.drop_owner(original);
    let error = process.directories[0]
        .acquire(&mut coordinator(), thread_id)
        .expect_err("clone must retain the lock after the original owner drops");
    assert!(matches!(error, WriterLockError::WouldBlock { .. }));
    process.drop_owner(retained);
    assert!(process.acquire(0, thread_id).is_ok());
}

#[test]
fn cold_lineage_scan_blocks_same_store_maintenance() {
    let mut process = Process::new(1);
    let thread_id = id(902);
    let walk = LineageWalk::new(thread_id, LineageRepresentation::LockedForReference);
    let source = walk.source_lock().expect("a locked scan locks its own thread");
    assert_eq!(source, thread_id);
    let guard = process
        .acquire_source(0, source)
        .expect("resolve cold lineage while holding filesystem guard");
    for maintenance in [
        "archive must conflict with a same-store lineage scan",
        "delete must conflict with a same-store lineage scan",
        "unarchive must conflict before path mutation",
    ] {
        let error = process.acquire(0, thread_id).expect_err(maintenance);
        assert!(matches!(error, ThreadStoreError::Conflict { .. }));
    }
    process.drop_owner(guard);
    process
        .acquire(0, thread_id)
        .expect("archive succeeds after lineage guards are released");

    for representation in [
        LineageRepresentation::Existing,
        LineageRepresentation::PlainForReference,
        LineageRepresentation::LockedForAttachment,
    ] {
        assert!(LineageWalk::new(thread_id, representation).source_lock().is_none());
    }
}

#[test]
fn source_leases_are_shared_but_live_writer_owners_remain_exclusive() {
    let mut process = Process::new(1);
    let thread_id = id(3);
    let owner = process.acquire_owner(0, thread_id).expect("live writer owner");
    let reader = process
        .acquire_source(0, thread_id)
        .expect("share the active source lease");
    assert!(matches!(
        process.acquire_owner(0, thread_id),
        Err(ThreadStoreError::Conflict { message })
            if message == "thread 00000000-0000-0000-0000-000000000003 already has an active source lease"
    ));
    process.drop_owner(reader);
    process.drop_owner(owner);
    process
        .acquire_owner(0, thread_id)
        .expect("released source lease should accept a new writer owner");
}

#[test]
fn source_leases_are_scoped_to_codex_home() {
    let mut process = Process::new(2);
    let thread_id = id(4);
    process.acquire_owner(0, thread_id).expect("first home");
    process
        .acquire_owner(1, thread_id)
        .expect("same thread id in a different home is independent");
    process
        .acquire_owner(0, id(5))
        .expect("another thread is independent");
    assert_eq!(process.registry().leases().len(), 3);
}
