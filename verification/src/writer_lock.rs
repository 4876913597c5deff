//! Cross-process coordination of the writers of threads: one lock file per thread, created and
//! removed under a short-lived coordination lock, and one lock for changes of the rollout topology.
//!
//! The library decides what is to be done next with which file; the files are locked elsewhere.

use crate::text;
use crate::thread_id;
use crate::thread_id::ThreadId;
use std::path::PathBuf;
use vstd::prelude::*;

verus! {

/// Directory below the home that contains the cross-process writer locks.
pub const THREAD_WRITER_LOCK_DIR: &'static str = "thread-writer-locks";

/// Short-lived mutex used when creating or removing a per-thread lock file.
pub const THREAD_WRITER_COORDINATION_LOCK_FILE: &'static str = ".coordination.lock";

/// Global barrier for reference-index scans and topology-changing rollout moves.
pub const THREAD_WRITER_TOPOLOGY_LOCK_FILE: &'static str = ".reference-topology.lock";

/// Why a lock was not obtained.
#[derive(Debug)]
pub enum WriterLockError {
    /// Another owner holds the lock.
    WouldBlock { message: String },
    /// The lock file could not be used.
    Failed { message: String },
}

/// [`WriterLockError`] with its text as a sequence of characters.
pub enum WriterLockErrorView {
    WouldBlock { message: Seq<char> },
    Failed { message: Seq<char> },
}

impl View for WriterLockError {
    type V = WriterLockErrorView;

    open spec fn view(&self) -> WriterLockErrorView {
        match *self {
            WriterLockError::WouldBlock { message } => WriterLockErrorView::WouldBlock {
                message: message@,
            },
            WriterLockError::Failed { message } => WriterLockErrorView::Failed {
                message: message@,
            },
        }
    }
}

/// How an operation on a lock file ended.
#[derive(Debug)]
pub enum LockEvent {
    /// It succeeded.
    Done,
    /// Another owner holds the lock.
    WouldBlock,
    /// There is no such file.
    NotFound { message: String },
    /// It failed otherwise.
    Failed { message: String },
}

/// The name of a thread's lock file.
pub open spec fn lock_file_name(thread_id: ThreadId) -> Seq<char> {
    thread_id.text() + ".lock"@
}

/// The name of a thread's lock file.
pub fn thread_lock_file(thread_id: ThreadId) -> (name: String)
    ensures
        name@ == lock_file_name(thread_id),
{
    thread_id.to_text().concat(".lock")
}

/// The number of the thread whose lock file has this name, if it is the name of one.
pub open spec fn locked_thread(name: Seq<char>) -> Option<nat> {
    match text::before_suffix(name, ".lock"@) {
        Some(stem) => thread_id::uuid_number(stem),
        None => None,
    }
}

/// The thread whose lock file has this name, if it is the name of one.
pub fn thread_of_lock_file(name: &str) -> (thread_id: Option<ThreadId>)
    ensures
        match thread_id {
            Some(thread_id) => locked_thread(name@) == Some(thread_id.value as nat),
            None => locked_thread(name@) is None,
        },
{
    match text::strip_suffix(name, ".lock") {
        Some(stem) => match ThreadId::from_string(stem) {
            Ok(thread_id) => Some(thread_id),
            Err(_) => None,
        },
        None => None,
    }
}

/// A thread's lock file is recognised as that thread's.
pub proof fn law_lock_file_is_recognised(thread_id: ThreadId)
    ensures
        locked_thread(lock_file_name(thread_id)) == Some(thread_id.value as nat),
{
    let name = lock_file_name(thread_id);
    let suffix = ".lock"@;
    assert(name.skip(name.len() - suffix.len()) =~= suffix);
    assert(name.take(name.len() - suffix.len()) =~= thread_id.text());
    thread_id::law_text_spells_identifier(thread_id);
}

/// Two threads never share a lock file.
pub proof fn law_lock_files_are_distinct(left: ThreadId, right: ThreadId)
    requires
        lock_file_name(left) == lock_file_name(right),
    ensures
        left == right,
{
    law_lock_file_is_recognised(left);
    law_lock_file_is_recognised(right);
}

/// The coordination lock and the topology lock are never taken for the lock of a thread, so that
/// a cleanup leaves them alone.
pub proof fn law_shared_locks_belong_to_no_thread()
    ensures
        locked_thread(THREAD_WRITER_COORDINATION_LOCK_FILE@) is None,
        locked_thread(THREAD_WRITER_TOPOLOGY_LOCK_FILE@) is None,
{
    reveal_strlit(".lock");
    reveal_strlit(".coordination.lock");
    reveal_strlit(".reference-topology.lock");
}

/// A lock of a home.
#[derive(Clone, Copy, Debug, PartialEq, Eq, Structural)]
pub enum HomeLock {
    /// The lock of a thread.
    Thread { thread_id: ThreadId },
    /// The lock under which lock files of threads are created and removed.
    Coordination,
    /// The lock of the rollout topology.
    Topology,
}

/// Where a lock file lies, below the home.
#[derive(Debug)]
pub struct LockPath {
    /// The directories, outermost first.
    pub directories: Vec<String>,
    pub file_name: String,
}

/// The name of the file of a lock.
pub open spec fn home_lock_name(lock: HomeLock) -> Seq<char> {
    match lock {
        HomeLock::Thread { thread_id } => lock_file_name(thread_id),
        HomeLock::Coordination => THREAD_WRITER_COORDINATION_LOCK_FILE@,
        HomeLock::Topology => THREAD_WRITER_TOPOLOGY_LOCK_FILE@,
    }
}

/// Whether the file of a lock lies there: in [`THREAD_WRITER_LOCK_DIR`] below the home.
pub open spec fn is_path_of(path: LockPath, lock: HomeLock) -> bool {
    &&& path.directories@.map_values(|directory: String| directory@) == seq![
        THREAD_WRITER_LOCK_DIR@,
    ]
    &&& path.file_name@ == home_lock_name(lock)
}

/// Where the file of a lock lies.
pub fn lock_path(lock: HomeLock) -> (path: LockPath)
    ensures
        is_path_of(path, lock),
{
    let file_name: String = match lock {
        HomeLock::Thread { thread_id } => thread_lock_file(thread_id),
        HomeLock::Coordination => THREAD_WRITER_COORDINATION_LOCK_FILE.to_owned(),
        HomeLock::Topology => THREAD_WRITER_TOPOLOGY_LOCK_FILE.to_owned(),
    };
    LockPath { directories: lock_directories(), file_name }
}

/// The directories of the lock files, below the home.
fn lock_directories() -> (directories: Vec<String>)
    ensures
        directories@.map_values(|directory: String| directory@) == seq![THREAD_WRITER_LOCK_DIR@],
{
    let mut directories: Vec<String> = Vec::new();
    directories.push(THREAD_WRITER_LOCK_DIR.to_owned());
    assert(directories@.map_values(|directory: String| directory@) =~= seq![
        THREAD_WRITER_LOCK_DIR@,
    ]);
    directories
}

/// No two locks of a home share a file.
pub proof fn law_locks_have_files_of_their_own(left: HomeLock, right: HomeLock)
    requires
        home_lock_name(left) == home_lock_name(right),
    ensures
        left == right,
{
    law_shared_locks_belong_to_no_thread();
    if let HomeLock::Thread { thread_id } = left {
        law_lock_file_is_recognised(thread_id);
    }
    if let HomeLock::Thread { thread_id } = right {
        law_lock_file_is_recognised(thread_id);
    }
    reveal_strlit(".coordination.lock");
    reveal_strlit(".reference-topology.lock");
}

/// Coordinates per-thread locks and the global rollout topology barrier.
#[derive(Debug)]
pub struct ThreadWriterLockCoordinator {
    codex_home: PathBuf,
    cleanup_attempted: bool,
}

impl ThreadWriterLockCoordinator {
    /// The home whose threads are coordinated.
    pub closed spec fn home(&self) -> PathBuf {
        self.codex_home
    }

    /// Whether stale locks were looked for.
    pub closed spec fn cleaned(&self) -> bool {
        self.cleanup_attempted
    }

    /// A coordinator for the threads of a home; its locks lie in [`THREAD_WRITER_LOCK_DIR`] below
    /// it.
    pub fn new(codex_home: PathBuf) -> (coordinator: Self)
        ensures
            coordinator.home() == codex_home,
            !coordinator.cleaned(),
    {
        ThreadWriterLockCoordinator { codex_home, cleanup_attempted: false }
    }

    /// The home whose threads are coordinated.
    pub fn codex_home(&self) -> (home: &PathBuf)
        ensures
            *home == self.home(),
    {
        &self.codex_home
    }

    /// Starts to acquire the lock of a thread.
    pub fn acquire(&self, thread_id: ThreadId) -> (acquisition: ThreadLockAcquisition)
        ensures
            acquisition.thread_id() == thread_id,
            acquisition.phase() == AcquirePhase::Start,
    {
        ThreadLockAcquisition { thread_id, phase: AcquirePhase::Start }
    }

    /// Where the lock of the topology lies: create its directory, open or create it without
    /// emptying it, and try to lock it.
    pub fn acquire_topology(&self) -> (path: LockPath)
        ensures
            is_path_of(path, HomeLock::Topology),
    {
        lock_path(HomeLock::Topology)
    }

    /// What comes of an attempt to lock the topology.
    pub fn topology_outcome(&self, event: LockEvent) -> (outcome: Result<(), WriterLockError>)
        ensures
            match event {
                LockEvent::Done => outcome is Ok,
                LockEvent::WouldBlock => outcome matches Err(error) && error@ == (
                WriterLockErrorView::WouldBlock { message: "rollout topology is busy"@ }),
                LockEvent::NotFound { message } | LockEvent::Failed { message } => outcome matches Err(
                    error,
                ) && error@ == (WriterLockErrorView::Failed { message: message@ }),
            },
    {
        match event {
            LockEvent::Done => Ok(()),
            LockEvent::WouldBlock => Err(
                WriterLockError::WouldBlock { message: "rollout topology is busy".to_owned() },
            ),
            LockEvent::NotFound { message } | LockEvent::Failed { message } => Err(
                WriterLockError::Failed { message },
            ),
        }
    }
}

/// How far the acquisition of a lock has come.
#[derive(Clone, Copy, Debug, PartialEq, Eq, Structural)]
pub enum AcquirePhase {
    /// Nothing was done.
    Start,
    /// The coordination lock is being taken.
    Coordinating,
    /// Stale locks are being removed, under the coordination lock.
    Cleaning,
    /// The thread's lock file is being opened, under the coordination lock.
    Opening,
    /// The thread's lock file is being locked, under the coordination lock.
    Locking,
    /// The acquisition is over.
    Over,
}

/// What is to be done next to acquire the lock of a thread.
#[derive(Debug)]
pub enum AcquireAction {
    /// Create the directory of the coordination lock and wait for the lock.
    LockCoordination { path: LockPath },
    /// Remove the lock files in these directories below the home that nobody holds.
    RemoveStaleLocks { directories: Vec<String> },
    /// Open or create the lock file of the thread, without emptying it.
    OpenLockFile { path: LockPath },
    /// Try to lock the file that was opened.
    TryLockFile,
    /// Release the coordination lock, if it is held; the acquisition ended so.
    Finish { outcome: Result<(), WriterLockError> },
}

/// The acquisition of the lock of a thread under way.
#[derive(Debug)]
pub struct ThreadLockAcquisition {
    thread_id: ThreadId,
    phase: AcquirePhase,
}

/// The place of a phase in their order.
pub open spec fn phase_rank(phase: AcquirePhase) -> int {
    match phase {
        AcquirePhase::Start => 0,
        AcquirePhase::Coordinating => 1,
        AcquirePhase::Cleaning => 2,
        AcquirePhase::Opening => 3,
        AcquirePhase::Locking => 4,
        AcquirePhase::Over => 5,
    }
}

/// Whether the coordination lock is held in this phase.
pub open spec fn coordinated(phase: AcquirePhase) -> bool {
    phase == AcquirePhase::Cleaning || phase == AcquirePhase::Opening || phase
        == AcquirePhase::Locking
}

/// The message of an error that refuses a second writer.
pub open spec fn active_writer_message(thread_id: ThreadId) -> Seq<char> {
    "thread "@ + thread_id.text() + " already has an active writer"@
}

/// Whether an action is the one that its phase waits for.
pub open spec fn belongs_to_phase(action: AcquireAction, phase: AcquirePhase) -> bool {
    match action {
        AcquireAction::LockCoordination { .. } => phase == AcquirePhase::Coordinating,
        AcquireAction::RemoveStaleLocks { .. } => phase == AcquirePhase::Cleaning,
        AcquireAction::OpenLockFile { .. } => phase == AcquirePhase::Opening,
        AcquireAction::TryLockFile => phase == AcquirePhase::Locking,
        AcquireAction::Finish { .. } => phase == AcquirePhase::Over,
    }
}

impl ThreadLockAcquisition {
    /// The thread whose lock is acquired.
    pub closed spec fn thread_id(&self) -> ThreadId {
        self.thread_id
    }

    /// How far the acquisition has come.
    pub closed spec fn phase(&self) -> AcquirePhase {
        self.phase
    }

    /// Goes on after the last action ended as the event says; the first call ignores its event.
    ///
    /// Stale locks are looked for once per coordinator, and a failure to remove them is no reason
    /// to give up.
    pub fn advance(&mut self, coordinator: &mut ThreadWriterLockCoordinator, event: LockEvent) -> (action:
        AcquireAction)
        requires
            old(self).phase() != AcquirePhase::Over,
        ensures
            final(self).thread_id() == old(self).thread_id(),
            phase_rank(final(self).phase()) > phase_rank(old(self).phase()),
            final(coordinator).home() == old(coordinator).home(),
            belongs_to_phase(action, final(self).phase()),
            final(coordinator).cleaned() == (old(coordinator).cleaned() || final(self).phase()
                == AcquirePhase::Cleaning),
            match old(self).phase() {
                AcquirePhase::Start => action matches AcquireAction::LockCoordination { path }
                    && is_path_of(path, HomeLock::Coordination),
                AcquirePhase::Coordinating => match event {
                    LockEvent::Done => if old(coordinator).cleaned() {
                        action matches AcquireAction::OpenLockFile { path } && is_path_of(
                            path,
                            HomeLock::Thread { thread_id: old(self).thread_id() },
                        )
                    } else {
                        action matches AcquireAction::RemoveStaleLocks { directories }
                            && directories@.map_values(|directory: String| directory@) == seq![
                            THREAD_WRITER_LOCK_DIR@,
                        ]
                    },
                    _ => action matches AcquireAction::Finish { outcome: Err(error) } && error@
                        == event_error(old(self).thread_id(), event),
                },
                AcquirePhase::Cleaning => action matches AcquireAction::OpenLockFile { path }
                    && is_path_of(path, HomeLock::Thread { thread_id: old(self).thread_id() }),
                AcquirePhase::Opening => match event {
                    LockEvent::Done => action is TryLockFile,
                    _ => action matches AcquireAction::Finish { outcome: Err(error) } && error@
                        == event_error(old(self).thread_id(), event),
                },
                AcquirePhase::Locking => match event {
                    LockEvent::Done => action matches AcquireAction::Finish { outcome: Ok(()) },
                    _ => action matches AcquireAction::Finish { outcome: Err(error) } && error@
                        == event_error(old(self).thread_id(), event),
                },
                AcquirePhase::Over => true,
            },
    {
        match self.phase {
            AcquirePhase::Start => {
                self.phase = AcquirePhase::Coordinating;
                AcquireAction::LockCoordination { path: lock_path(HomeLock::Coordination) }
            },
            AcquirePhase::Coordinating => match event {
                LockEvent::Done => {
                    if coordinator.cleanup_attempted {
                        self.open()
                    } else {
                        coordinator.cleanup_attempted = true;
                        self.phase = AcquirePhase::Cleaning;
                        AcquireAction::RemoveStaleLocks { directories: lock_directories() }
                    }
                },
                _ => self.fail(event),
            },
            AcquirePhase::Cleaning => self.open(),
            AcquirePhase::Opening => match event {
                LockEvent::Done => {
                    self.phase = AcquirePhase::Locking;
                    AcquireAction::TryLockFile
                },
                _ => self.fail(event),
            },
            AcquirePhase::Locking => match event {
                LockEvent::Done => {
                    self.phase = AcquirePhase::Over;
                    AcquireAction::Finish { outcome: Ok(()) }
                },
                _ => self.fail(event),
            },
            AcquirePhase::Over => self.fail(event),
        }
    }

    fn open(&mut self) -> (action: AcquireAction)
        ensures
            final(self).thread_id() == old(self).thread_id(),
            final(self).phase() == AcquirePhase::Opening,
            action matches AcquireAction::OpenLockFile { path } && is_path_of(
                path,
                HomeLock::Thread { thread_id: old(self).thread_id() },
            ),
    {
        self.phase = AcquirePhase::Opening;
        AcquireAction::OpenLockFile {
            path: lock_path(HomeLock::Thread { thread_id: self.thread_id }),
        }
    }

    fn fail(&mut self, event: LockEvent) -> (action: AcquireAction)
        ensures
            final(self).thread_id() == old(self).thread_id(),
            final(self).phase() == AcquirePhase::Over,
            action matches AcquireAction::Finish { outcome: Err(error) } && error@ == event_error(
                old(self).thread_id(),
                event,
            ),
    {
        self.phase = AcquirePhase::Over;
        let error: WriterLockError = match event {
            LockEvent::NotFound { message } | LockEvent::Failed { message } => {
                WriterLockError::Failed { message }
            },
            LockEvent::Done | LockEvent::WouldBlock => WriterLockError::WouldBlock {
                message: text::join3(
                    "thread ",
                    self.thread_id.to_text().as_str(),
                    " already has an active writer",
                ),
            },
        };
        AcquireAction::Finish { outcome: Err(error) }
    }
}

/// Lock files of threads are removed, opened and locked under the coordination lock only.
pub proof fn law_lock_files_touched_under_coordination(action: AcquireAction, phase: AcquirePhase)
    requires
        belongs_to_phase(action, phase),
        action is RemoveStaleLocks || action is OpenLockFile || action is TryLockFile,
    ensures
        coordinated(phase),
{
}

/// The error that an event other than success ends an acquisition with.
pub open spec fn event_error(thread_id: ThreadId, event: LockEvent) -> WriterLockErrorView {
    match event {
        LockEvent::NotFound { message } | LockEvent::Failed { message } =>
            WriterLockErrorView::Failed { message: message@ },
        _ => WriterLockErrorView::WouldBlock { message: active_writer_message(thread_id) },
    }
}

/// What is to be done with an entry of the lock directory while stale locks are removed.
#[derive(Clone, Copy, Debug, PartialEq, Eq, Structural)]
pub enum StaleLockAction {
    /// Leave the entry alone.
    Skip,
    /// Open it as it is.
    Open,
    /// Try to lock the file that was opened.
    TryLock,
    /// Close the file and remove it.
    Remove,
    /// Leave the entry alone, and report that it could not be inspected.
    WarnInspect,
    /// Report that it could not be removed.
    WarnRemove,
}

/// What is to be done first with an entry; `name` is its name if that is a text.
pub fn stale_lock_entry(name: Option<&str>) -> (action: StaleLockAction)
    ensures
        action == (match name {
            Some(name) => if locked_thread(name@) is Some {
                StaleLockAction::Open
            } else {
                StaleLockAction::Skip
            },
            None => StaleLockAction::Skip,
        }),
{
    match name {
        Some(name) => match thread_of_lock_file(name) {
            Some(_) => StaleLockAction::Open,
            None => StaleLockAction::Skip,
        },
        None => StaleLockAction::Skip,
    }
}

/// What is to be done with an entry after the last action ended as the event says.
pub open spec fn next_stale_action(last: StaleLockAction, event: LockEvent) -> StaleLockAction {
    match last {
        StaleLockAction::Open => match event {
            LockEvent::Done => StaleLockAction::TryLock,
            LockEvent::NotFound { .. } => StaleLockAction::Skip,
            LockEvent::WouldBlock | LockEvent::Failed { .. } => StaleLockAction::WarnInspect,
        },
        StaleLockAction::TryLock => match event {
            LockEvent::Done => StaleLockAction::Remove,
            LockEvent::WouldBlock => StaleLockAction::Skip,
            LockEvent::NotFound { .. } | LockEvent::Failed { .. } => StaleLockAction::WarnInspect,
        },
        StaleLockAction::Remove => match event {
            LockEvent::Done | LockEvent::NotFound { .. } => StaleLockAction::Skip,
            LockEvent::WouldBlock | LockEvent::Failed { .. } => StaleLockAction::WarnRemove,
        },
        _ => StaleLockAction::Skip,
    }
}

/// A cleanup removes a file only once it has obtained the lock of the file itself: the locks of
/// active writers survive.
pub proof fn law_only_free_locks_are_removed(last: StaleLockAction, event: LockEvent)
    requires
        next_stale_action(last, event) == StaleLockAction::Remove,
    ensures
        last == StaleLockAction::TryLock,
        event is Done,
{
}

/// What is to be done with an entry after the last action ended as the event says. Only a file
/// that could be locked, and that nobody holds, is removed.
pub fn stale_lock_step(last: StaleLockAction, event: &LockEvent) -> (action: StaleLockAction)
    ensures
        action == next_stale_action(last, *event),
{
    match last {
        StaleLockAction::Open => match event {
            LockEvent::Done => StaleLockAction::TryLock,
            LockEvent::NotFound { .. } => StaleLockAction::Skip,
            LockEvent::WouldBlock | LockEvent::Failed { .. } => StaleLockAction::WarnInspect,
        },
        StaleLockAction::TryLock => match event {
            LockEvent::Done => StaleLockAction::Remove,
            LockEvent::WouldBlock => StaleLockAction::Skip,
            LockEvent::NotFound { .. } | LockEvent::Failed { .. } => StaleLockAction::WarnInspect,
        },
        StaleLockAction::Remove => match event {
            LockEvent::Done | LockEvent::NotFound { .. } => StaleLockAction::Skip,
            LockEvent::WouldBlock | LockEvent::Failed { .. } => StaleLockAction::WarnRemove,
        },
        _ => StaleLockAction::Skip,
    }
}

/// What is to be done when the last owner of a thread's lock lets go of it.
#[derive(Clone, Copy, Debug, PartialEq, Eq, Structural)]
pub enum ReleaseAction {
    /// Close the thread's lock file and leave it where it is.
    CloseFile,
    /// Close the thread's lock file and remove it, then release the coordination lock.
    CloseAndRemoveFile,
}

/// What comes after a release asked for the coordination lock: without it the file is not removed.
pub fn release_step(coordination: &LockEvent) -> (action: ReleaseAction)
    ensures
        action == (if *coordination is Done {
            ReleaseAction::CloseAndRemoveFile
        } else {
            ReleaseAction::CloseFile
        }),
{
    match coordination {
        LockEvent::Done => ReleaseAction::CloseAndRemoveFile,
        _ => ReleaseAction::CloseFile,
    }
}

/// Every lock lies in one directory below the home; a thread's file is named after the thread, and
/// the two shared locks have names of their own.
pub proof fn law_locks_lie_in_one_directory(lock: HomeLock, path: LockPath, name: String)
    requires
        call_ensures(lock_path, (lock,), path),
        lock matches HomeLock::Thread { thread_id } ==> call_ensures(
            thread_lock_file,
            (thread_id,),
            name,
        ),
    ensures
        path.directories@.len() == 1,
        path.directories@[0]@ == "thread-writer-locks"@,
        lock matches HomeLock::Thread { thread_id } ==> path.file_name@ == thread_id.text()
            + ".lock"@ && path.file_name@ == name@,
        lock is Coordination ==> path.file_name@ == ".coordination.lock"@,
        lock is Topology ==> path.file_name@ == ".reference-topology.lock"@,
{
    lemma_lock_directory(path.directories@);
}

proof fn lemma_lock_directory(directories: Seq<String>)
    requires
        directories.map_values(|directory: String| directory@) == seq![THREAD_WRITER_LOCK_DIR@],
    ensures
        directories.len() == 1,
        directories[0]@ == "thread-writer-locks"@,
{
    let views = directories.map_values(|directory: String| directory@);
    assert(views.len() == directories.len());
    assert(views[0] == directories[0]@);
}

/// The file of a thread's lock is taken for that thread's; a name is taken for the lock file of a
/// thread exactly if it is the spelling of a thread's identifier with `.lock` behind it.
pub proof fn law_lock_files_name_their_thread(
    thread_id: ThreadId,
    written: String,
    name: &str,
    found: Option<ThreadId>,
    stem: &str,
    id: Result<ThreadId, thread_id::InvalidThreadId>,
)
    requires
        call_ensures(thread_lock_file, (thread_id,), written),
        call_ensures(thread_of_lock_file, (name,), found),
        call_ensures(ThreadId::from_string, (stem,), id),
    ensures
        name@ == written@ ==> found == Some(thread_id),
        name@ == stem@ + ".lock"@ ==> (found is Some <==> id is Ok) && (found matches Some(found)
            ==> id->Ok_0 == found),
        found is Some ==> exists|prefix: Seq<char>| name@ == #[trigger] (prefix + ".lock"@),
{
    let suffix = ".lock"@;
    if name@ == written@ {
        law_lock_file_is_recognised(thread_id);
    }
    if name@ == stem@ + suffix {
        assert(name@.skip(name@.len() - suffix.len()) =~= suffix);
        assert(name@.take(name@.len() - suffix.len()) =~= stem@);
    }
    if found is Some {
        let prefix = name@.take(name@.len() - suffix.len());
        assert(name@ =~= prefix + name@.skip(name@.len() - suffix.len()));
        assert(name@ == prefix + suffix);
    }
}

/// The topology is locked exactly if the attempt succeeded; a lock that is held elsewhere says
/// that the topology is busy, and a failure says why.
pub proof fn law_topology_locks_follow_their_attempt(
    coordinator: &ThreadWriterLockCoordinator,
    path: LockPath,
    event: LockEvent,
    outcome: Result<(), WriterLockError>,
)
    requires
        call_ensures(ThreadWriterLockCoordinator::acquire_topology, (coordinator,), path),
        call_ensures(ThreadWriterLockCoordinator::topology_outcome, (coordinator, event), outcome),
    ensures
        path.directories@.len() == 1,
        path.directories@[0]@ == "thread-writer-locks"@,
        path.file_name@ == ".reference-topology.lock"@,
        outcome is Ok <==> event is Done,
        event is WouldBlock <==> (outcome matches Err(error) && error is WouldBlock),
        outcome matches Err(WriterLockError::WouldBlock { message }) ==> message@
            == "rollout topology is busy"@,
        event matches LockEvent::NotFound { message } ==> outcome->Err_0@ == (
        WriterLockErrorView::Failed { message: message@ }),
        event matches LockEvent::Failed { message } ==> outcome->Err_0@ == (
        WriterLockErrorView::Failed { message: message@ }),
{
    lemma_lock_directory(path.directories@);
}

/// An acquisition first waits for the coordination lock, whatever happened before it.
pub proof fn law_acquisitions_start_with_coordination(
    starting: &ThreadWriterLockCoordinator,
    thread_id: ThreadId,
    acquisition: &mut ThreadLockAcquisition,
    coordinator: &mut ThreadWriterLockCoordinator,
    event: LockEvent,
    action: AcquireAction,
)
    requires
        call_ensures(
            ThreadWriterLockCoordinator::acquire,
            (starting, thread_id),
            *old(acquisition),
        ),
        call_ensures(ThreadLockAcquisition::advance, (acquisition, coordinator, event), action),
    ensures
        action matches AcquireAction::LockCoordination { path } && path.file_name@
            == ".coordination.lock"@ && path.directories@.len() == 1 && path.directories@[0]@
            == "thread-writer-locks"@,
        final(acquisition).thread_id() == thread_id,
        final(acquisition).phase() is Coordinating,
        final(coordinator).cleaned() == old(coordinator).cleaned(),
        final(coordinator).home() == old(coordinator).home(),
{
    if let AcquireAction::LockCoordination { path } = action {
        lemma_lock_directory(path.directories@);
    }
}

/// With the coordination lock, stale locks are removed if that was not tried before, and else the
/// lock file of the thread is opened; it is opened behind the removal whatever came of that. The
/// file that was opened is locked, and the lock is obtained exactly if that succeeds.
pub proof fn law_acquisitions_go_on_in_order(
    acquisition: &mut ThreadLockAcquisition,
    coordinator: &mut ThreadWriterLockCoordinator,
    event: LockEvent,
    action: AcquireAction,
)
    requires
        !(old(acquisition).phase() is Start),
        !(old(acquisition).phase() is Over),
        call_ensures(ThreadLockAcquisition::advance, (acquisition, coordinator, event), action),
    ensures
        final(acquisition).thread_id() == old(acquisition).thread_id(),
        final(coordinator).home() == old(coordinator).home(),
        action matches AcquireAction::RemoveStaleLocks { directories } ==> directories@.len() == 1
            && directories@[0]@ == "thread-writer-locks"@,
        action is RemoveStaleLocks <==> old(acquisition).phase() is Coordinating && event is Done
            && !old(coordinator).cleaned(),
        final(coordinator).cleaned() <==> old(coordinator).cleaned() || action is RemoveStaleLocks,
        action is OpenLockFile <==> {
            ||| old(acquisition).phase() is Cleaning
            ||| old(acquisition).phase() is Coordinating && event is Done
                && old(coordinator).cleaned()
        },
        action matches AcquireAction::OpenLockFile { path } ==> path.file_name@
            == old(acquisition).thread_id().text() + ".lock"@ && path.directories@.len() == 1
            && path.directories@[0]@ == "thread-writer-locks"@,
        action is TryLockFile <==> old(acquisition).phase() is Opening && event is Done,
        action matches AcquireAction::Finish { outcome: Ok(_) } <==> event is Done
            && old(acquisition).phase() is Locking,
        action matches AcquireAction::Finish { outcome: Err(_) } <==> !(event is Done)
            && !(old(acquisition).phase() is Cleaning),
        action is RemoveStaleLocks <==> final(acquisition).phase() is Cleaning,
        action is OpenLockFile <==> final(acquisition).phase() is Opening,
        action is TryLockFile <==> final(acquisition).phase() is Locking,
        action is Finish <==> final(acquisition).phase() is Over,
{
    if let AcquireAction::RemoveStaleLocks { directories } = action {
        lemma_lock_directory(directories@);
    }
    if let AcquireAction::OpenLockFile { path } = action {
        lemma_lock_directory(path.directories@);
    }
}

/// A thread whose lock is held elsewhere has an active writer, and the refusal says so; every
/// other failure is passed on as it is.
pub proof fn law_refused_acquisitions_say_why(
    acquisition: &mut ThreadLockAcquisition,
    coordinator: &mut ThreadWriterLockCoordinator,
    event: LockEvent,
    error: WriterLockError,
)
    requires
        old(acquisition).phase() is Coordinating || old(acquisition).phase() is Opening
            || old(acquisition).phase() is Locking,
        call_ensures(
            ThreadLockAcquisition::advance,
            (acquisition, coordinator, event),
            AcquireAction::Finish { outcome: Err::<(), WriterLockError>(error) },
        ),
    ensures
        event is WouldBlock <==> error is WouldBlock,
        error matches WriterLockError::WouldBlock { message } ==> message@ == "thread "@
            + old(acquisition).thread_id().text() + " already has an active writer"@,
        event matches LockEvent::NotFound { message } ==> error@ == (WriterLockErrorView::Failed {
            message: message@,
        }),
        event matches LockEvent::Failed { message } ==> error@ == (WriterLockErrorView::Failed {
            message: message@,
        }),
{
}

/// A coordinator is for the home that it was made for, and has not looked for stale locks.
pub proof fn law_coordinators_are_for_their_home(
    codex_home: PathBuf,
    coordinator: ThreadWriterLockCoordinator,
    home: &PathBuf,
)
    requires
        call_ensures(ThreadWriterLockCoordinator::new, (codex_home,), coordinator),
        call_ensures(ThreadWriterLockCoordinator::codex_home, (&coordinator,), home),
    ensures
        *home == codex_home,
        !coordinator.cleaned(),
{
}

/// A cleanup looks at the lock files of threads and at nothing else.
pub proof fn law_cleanups_look_at_locks_of_threads(
    name: &str,
    action: StaleLockAction,
    found: Option<ThreadId>,
    unreadable: StaleLockAction,
)
    requires
        call_ensures(stale_lock_entry, (Some(name),), action),
        call_ensures(thread_of_lock_file, (name,), found),
        call_ensures(stale_lock_entry, (None::<&str>,), unreadable),
    ensures
        action is Open <==> found is Some,
        action is Skip <==> found is None,
        unreadable is Skip,
{
}

/// A lock file that can be opened and locked is removed; one that is held, or is gone, is left
/// alone in silence; whatever else fails is reported, and nothing follows a report.
pub proof fn law_cleanups_remove_what_nobody_holds(
    last: StaleLockAction,
    event: &LockEvent,
    action: StaleLockAction,
)
    requires
        call_ensures(stale_lock_step, (last, event), action),
    ensures
        action is TryLock <==> last is Open && *event is Done,
        action is Remove <==> last is TryLock && *event is Done,
        action is WarnInspect <==> (last is Open && (*event is WouldBlock || *event is Failed)) || (
        last is TryLock && (*event is NotFound || *event is Failed)),
        action is WarnRemove <==> last is Remove && (*event is WouldBlock || *event is Failed),
        !(action is Open),
{
}

/// A lock file is removed at its release exactly if the coordination lock was obtained.
pub proof fn law_releases_remove_under_coordination(
    coordination: &LockEvent,
    action: ReleaseAction,
)
    requires
        call_ensures(release_step, (coordination,), action),
    ensures
        action is CloseAndRemoveFile <==> *coordination is Done,
        action is CloseFile <==> !(*coordination is Done),
{
}

/// What a lock error says is what it is: whether the lock is held, and its text.
pub proof fn law_lock_errors_say_what_they_are(error: WriterLockError)
    ensures
        error matches WriterLockError::WouldBlock { message } ==> error@ == (
        WriterLockErrorView::WouldBlock { message: message@ }),
        error matches WriterLockError::Failed { message } ==> error@ == (
        WriterLockErrorView::Failed { message: message@ }),
{
}

} // verus!
