//! Moving the archived rollouts of a thread back among the current ones.

use crate::error::ThreadStoreError;
use crate::error::ThreadStoreResult;
use crate::lineage_walk::RolloutFileIds;
use crate::store::LiveRecorders;
use crate::text;
use crate::thread_id::ThreadId;
use vstd::prelude::*;

verus! {

/// Directory below the home that contains the current rollouts, by year, month and day.
pub const SESSIONS_SUBDIR: &'static str = "sessions";

/// Directory below the home that contains the archived rollouts.
pub const ARCHIVED_SESSIONS_SUBDIR: &'static str = "archived_sessions";

/// The year, month and day in the file name of a rollout.
#[derive(Debug)]
pub struct RolloutDate {
    pub year: String,
    pub month: String,
    pub day: String,
}

/// Where an unarchived rollout goes, below the home.
#[derive(Debug)]
pub struct RestoredRollout {
    /// The directories, outermost first.
    pub directories: Vec<String>,
    pub file_name: String,
}

/// An archived rollout of a thread: where it is, its file name, and the date in that name.
#[derive(Debug)]
pub struct ArchivedRollout {
    pub path: String,
    pub file_name: String,
    pub date: Option<RolloutDate>,
}

/// Whether a rollout goes there: into the directory of its date.
pub open spec fn goes_to(rollout: ArchivedRollout, restored: RestoredRollout) -> bool {
    rollout.date matches Some(date) && restored.file_name@ == rollout.file_name@
        && restored.directories@.map_values(|directory: String| directory@) == seq![
        SESSIONS_SUBDIR@,
        date.year@,
        date.month@,
        date.day@,
    ]
}

/// The error for a rollout whose file name has no date.
pub open spec fn undated_error(path: Seq<char>) -> crate::error::ErrorView {
    crate::error::ErrorView::InvalidRequest {
        message: "rollout path `"@ + path + "` missing filename timestamp"@,
    }
}

/// Where a rollout goes.
fn restored_rollout(rollout: &ArchivedRollout) -> (restored: ThreadStoreResult<RestoredRollout>)
    ensures
        match restored {
            Ok(restored) => goes_to(*rollout, restored),
            Err(error) => rollout.date is None && error@ == undated_error(rollout.path@),
        },
{
    match &rollout.date {
        Some(date) => {
            let mut directories: Vec<String> = Vec::new();
            directories.push(SESSIONS_SUBDIR.to_owned());
            directories.push(date.year.clone());
            directories.push(date.month.clone());
            directories.push(date.day.clone());
            assert(directories@.map_values(|directory: String| directory@) =~= seq![
                SESSIONS_SUBDIR@,
                date.year@,
                date.month@,
                date.day@,
            ]);
            Ok(RestoredRollout { directories, file_name: rollout.file_name.clone() })
        },
        None => Err(
            ThreadStoreError::InvalidRequest {
                message: text::join3(
                    "rollout path `",
                    rollout.path.as_str(),
                    "` missing filename timestamp",
                ),
            },
        ),
    }
}

/// The error for a step of the move that failed for this reason.
fn move_error(step: MoveStep, reason: &str) -> (error: ThreadStoreError)
    ensures
        error@ == (crate::error::ErrorView::Internal { message: move_message(step) + reason@ }),
{
    let message: String = match step {
        MoveStep::CreateDirectory | MoveStep::Rename => text::join(
            "failed to unarchive thread: ",
            reason,
        ),
        MoveStep::Touch => text::join("failed to update unarchived thread timestamp: ", reason),
    };
    ThreadStoreError::Internal { message }
}

/// A step of moving a rollout.
#[derive(Clone, Copy, Debug, PartialEq, Eq, Structural)]
pub enum MoveStep {
    /// Create the directory of the rollout's date.
    CreateDirectory,
    /// Move the rollout.
    Rename,
    /// Set the time of its last change.
    Touch,
}

/// What the error of a failed step starts with.
pub open spec fn move_message(step: MoveStep) -> Seq<char> {
    match step {
        MoveStep::CreateDirectory | MoveStep::Rename => "failed to unarchive thread: "@,
        MoveStep::Touch => "failed to update unarchived thread timestamp: "@,
    }
}

/// An unarchive that keeps others from changing the life of the thread and from writing to it.
///
/// The guards are taken in the order of the fields, and stay with the unarchive to its end.
#[derive(Debug)]
pub struct UnarchiveRequest<A, B> {
    pub thread_id: ThreadId,
    /// Keeps forks, deletions and other moves of the thread away.
    pub lifecycle: A,
    /// Keeps writes of this process to the thread away.
    pub live_writer: B,
}

/// An unarchive of a thread that nobody writes to.
#[derive(Debug)]
pub struct IdleUnarchive<A, B> {
    thread_id: ThreadId,
    lifecycle: A,
    live_writer: B,
}

/// An unarchive that holds the cross-process locks of the thread and of the topology.
#[derive(Debug)]
pub struct LockedUnarchive<A, B, L, T> {
    thread_id: ThreadId,
    lifecycle: A,
    live_writer: B,
    writer_locks: Vec<L>,
    topology: T,
}

/// What an unarchive holds.
#[derive(Debug)]
pub struct UnarchiveGuards<A, B, L, T> {
    pub lifecycle: A,
    pub live_writer: B,
    pub writer_lock: L,
    pub topology: T,
}

/// An unarchive that knows where the rollouts go, and moves one after the other step by step.
#[derive(Debug)]
pub struct UnarchiveMove<A, B, L, T> {
    thread_id: ThreadId,
    lifecycle: A,
    live_writer: B,
    writer_locks: Vec<L>,
    topology: T,
    restored: Vec<RestoredRollout>,
    at: usize,
    step: MoveStep,
}

/// The step that follows a step of moving `count` rollouts, each given with the rollout that it is
/// about.
pub open spec fn step_after(count: int, at: int, step: MoveStep) -> Option<(int, MoveStep)> {
    match step {
        MoveStep::CreateDirectory => Some((at, MoveStep::Rename)),
        MoveStep::Rename => Some((at, MoveStep::Touch)),
        MoveStep::Touch => if at + 1 < count {
            Some((at + 1, MoveStep::CreateDirectory))
        } else {
            None
        },
    }
}

/// How many steps of moving a rollout come before this one.
pub open spec fn steps_before(step: MoveStep) -> int {
    match step {
        MoveStep::CreateDirectory => 0,
        MoveStep::Rename => 1,
        MoveStep::Touch => 2,
    }
}

/// The steps of moving `count` rollouts from this one on.
pub open spec fn steps_from(count: int, next: Option<(int, MoveStep)>) -> Seq<(int, MoveStep)>
    decreases
        match next {
            Some((at, step)) => 3 * (count - at) - steps_before(step),
            None => 0,
        },
{
    match next {
        Some((at, step)) => if at < count {
            seq![(at, step)] + steps_from(count, step_after(count, at, step))
        } else {
            Seq::empty()
        },
        None => Seq::empty(),
    }
}

/// A move that goes from step to step until no step is left moves every rollout: each one gets its
/// directory, then is renamed, then is touched, and no step is done twice.
pub proof fn law_every_rollout_is_restored(count: int, i: int)
    requires
        0 <= i < count,
    ensures
        steps_from(count, Some((0, MoveStep::CreateDirectory))).len() == 3 * count,
        steps_from(count, Some((0, MoveStep::CreateDirectory)))[3 * i] == (
            i,
            MoveStep::CreateDirectory,
        ),
        steps_from(count, Some((0, MoveStep::CreateDirectory)))[3 * i + 1] == (
            i,
            MoveStep::Rename,
        ),
        steps_from(count, Some((0, MoveStep::CreateDirectory)))[3 * i + 2] == (i, MoveStep::Touch),
{
    lemma_steps_from(count, 0, i);
}

proof fn lemma_steps_from(count: int, at: int, i: int)
    requires
        0 <= at < count,
    ensures
        ({
            let steps = steps_from(count, Some((at, MoveStep::CreateDirectory)));
            &&& steps.len() == 3 * (count - at)
            &&& at <= i < count ==> {
                &&& steps[3 * (i - at)] == (i, MoveStep::CreateDirectory)
                &&& steps[3 * (i - at) + 1] == (i, MoveStep::Rename)
                &&& steps[3 * (i - at) + 2] == (i, MoveStep::Touch)
            }
        }),
    decreases count - at,
{
    let steps = steps_from(count, Some((at, MoveStep::CreateDirectory)));
    let behind = steps_from(count, step_after(count, at, MoveStep::Touch));
    let renamed = steps_from(count, Some((at, MoveStep::Rename)));
    let touched = steps_from(count, Some((at, MoveStep::Touch)));
    assert(touched == seq![(at, MoveStep::Touch)] + behind);
    assert(renamed == seq![(at, MoveStep::Rename)] + touched);
    assert(steps == seq![(at, MoveStep::CreateDirectory)] + renamed);
    if at + 1 < count {
        lemma_steps_from(count, at + 1, i);
        if at < i < count {
            let k = 3 * (i - at);
            assert(steps[k] == behind[k - 3]);
            assert(steps[k + 1] == behind[k - 2]);
            assert(steps[k + 2] == behind[k - 1]);
        }
    } else {
        assert(behind.len() == 0);
    }
}

impl<A, B> UnarchiveRequest<A, B> {
    /// Goes on if no live writer of this process holds the thread's lock.
    pub fn without_active_writer<R, W>(self, recorders: &LiveRecorders<R, W>) -> (idle:
        ThreadStoreResult<IdleUnarchive<A, B>>)
        ensures
            match idle {
                Ok(idle) => {
                    &&& !recorders.holds_lock(self.thread_id)
                    &&& idle.thread_id() == self.thread_id
                    &&& idle.lifecycle() == self.lifecycle
                    &&& idle.live_writer() == self.live_writer
                },
                Err(error) => recorders.holds_lock(self.thread_id) && error@ == (
                crate::error::ErrorView::Conflict {
                    message: crate::writer_lock::active_writer_message(self.thread_id),
                }),
            },
    {
        if let Err(error) = recorders.ensure_no_active_writer(self.thread_id) {
            return Err(error);
        }
        Ok(
            IdleUnarchive {
                thread_id: self.thread_id,
                lifecycle: self.lifecycle,
                live_writer: self.live_writer,
            },
        )
    }
}

impl<A, B> IdleUnarchive<A, B> {
    /// The thread.
    pub closed spec fn thread_id(&self) -> ThreadId {
        self.thread_id
    }

    /// The guard on the life of the thread.
    pub closed spec fn lifecycle(&self) -> A {
        self.lifecycle
    }

    /// The guard on writes to the thread.
    pub closed spec fn live_writer(&self) -> B {
        self.live_writer
    }

    /// Goes on with the cross-process locks of the thread and of the topology, taken in this
    /// order.
    pub fn with_locks<L, T>(self, writer_locks: Vec<L>, topology: T) -> (locked: LockedUnarchive<
        A,
        B,
        L,
        T,
    >)
        ensures
            locked.thread_id() == self.thread_id(),
            locked.lifecycle() == self.lifecycle(),
            locked.live_writer() == self.live_writer(),
            locked.writer_locks() == writer_locks@,
            locked.topology() == topology,
    {
        LockedUnarchive {
            thread_id: self.thread_id,
            lifecycle: self.lifecycle,
            live_writer: self.live_writer,
            writer_locks,
            topology,
        }
    }
}

impl<A, B, L, T> LockedUnarchive<A, B, L, T> {
    /// The thread.
    pub closed spec fn thread_id(&self) -> ThreadId {
        self.thread_id
    }

    /// The guard on the life of the thread.
    pub closed spec fn lifecycle(&self) -> A {
        self.lifecycle
    }

    /// The guard on writes to the thread.
    pub closed spec fn live_writer(&self) -> B {
        self.live_writer
    }

    /// The cross-process locks of the thread.
    pub closed spec fn writer_locks(&self) -> Seq<L> {
        self.writer_locks@
    }

    /// The cross-process lock of the topology.
    pub closed spec fn topology(&self) -> T {
        self.topology
    }

    /// The archived rollout that was found for the thread; a search that failed says why.
    pub fn archived_rollout<P>(&self, found: Result<Option<P>, String>) -> (rollout:
        ThreadStoreResult<P>)
        ensures
            match found {
                Ok(Some(path)) => rollout matches Ok(archived) && archived == path,
                Ok(None) => rollout matches Err(error) && error@ == (
                crate::error::ErrorView::InvalidRequest {
                    message: "no archived rollout found for thread id "@ + self.thread_id().text(),
                }),
                Err(reason) => rollout matches Err(error) && error@ == (
                crate::error::ErrorView::InvalidRequest {
                    message: "failed to locate archived thread id "@ + self.thread_id().text()
                        + ": "@ + reason@,
                }),
            },
    {
        match found {
            Ok(Some(path)) => Ok(path),
            Ok(None) => Err(
                ThreadStoreError::InvalidRequest {
                    message: text::join(
                        "no archived rollout found for thread id ",
                        self.thread_id.to_text().as_str(),
                    ),
                },
            ),
            Err(reason) => Err(
                ThreadStoreError::InvalidRequest {
                    message: text::join3(
                        "failed to locate archived thread id ",
                        self.thread_id.to_text().as_str(),
                        ": ",
                    ).concat(reason.as_str()),
                },
            ),
        }
    }

    /// The identifier that the file name of an archived rollout of the thread has to end with: that
    /// of a rollout which replaced an earlier one of the thread, or else that of the thread.
    pub fn expected_rollout_id(&self, file: RolloutFileIds) -> (expected: ThreadId)
        ensures
            expected == (if file.thread_id == Some(self.thread_id()) && file.rollout_id is Some {
                file.rollout_id->Some_0
            } else {
                self.thread_id()
            }),
    {
        match (file.thread_id, file.rollout_id) {
            (Some(thread_id), Some(rollout_id)) => if thread_id == self.thread_id {
                rollout_id
            } else {
                self.thread_id
            },
            _ => self.thread_id,
        }
    }

    /// Goes on to move the archived rollouts of the thread, the current one first, each into the
    /// directory of the date in its file name.
    pub fn destination(self, rollouts: &Vec<ArchivedRollout>) -> (moving: ThreadStoreResult<
        UnarchiveMove<A, B, L, T>,
    >)
        requires
            rollouts@.len() > 0,
        ensures
            match moving {
                Ok(moving) => {
                    &&& moving.wf()
                    &&& moving.thread_id() == self.thread_id()
                    &&& moving.lifecycle() == self.lifecycle()
                    &&& moving.live_writer() == self.live_writer()
                    &&& moving.writer_locks() == self.writer_locks()
                    &&& moving.topology() == self.topology()
                    &&& moving.next() == Some((0int, MoveStep::CreateDirectory))
                    &&& moving.destinations().len() == rollouts@.len()
                    &&& forall|i: int|
                        0 <= i < rollouts@.len() ==> goes_to(
                            rollouts@[i],
                            #[trigger] moving.destinations()[i],
                        )
                },
                Err(error) => exists|i: int|
                    {
                        &&& 0 <= i < rollouts@.len()
                        &&& (#[trigger] rollouts@[i]).date is None
                        &&& forall|j: int|
                            0 <= j < i ==> (#[trigger] rollouts@[j]).date is Some
                        &&& error@ == undated_error(rollouts@[i].path@)
                    },
            },
    {
        let mut restored: Vec<RestoredRollout> = Vec::new();
        let mut i: usize = 0;
        while i < rollouts.len()
            invariant
                i <= rollouts@.len(),
                restored@.len() == i,
                forall|j: int| 0 <= j < i ==> goes_to(rollouts@[j], #[trigger] restored@[j]),
                forall|j: int| 0 <= j < i ==> (#[trigger] rollouts@[j]).date is Some,
            decreases rollouts@.len() - i,
        {
            match restored_rollout(&rollouts[i]) {
                Ok(destination) => {
                    restored.push(destination);
                },
                Err(error) => {
                    assert(rollouts@[i as int].date is None);
                    return Err(error);
                },
            }
            i = i + 1;
        }
        Ok(
            UnarchiveMove {
                thread_id: self.thread_id,
                lifecycle: self.lifecycle,
                live_writer: self.live_writer,
                writer_locks: self.writer_locks,
                topology: self.topology,
                restored,
                at: 0,
                step: MoveStep::CreateDirectory,
            },
        )
    }
}

impl<A, B, L, T> UnarchiveMove<A, B, L, T> {
    /// The thread.
    pub closed spec fn thread_id(&self) -> ThreadId {
        self.thread_id
    }

    /// The guard on the life of the thread.
    pub closed spec fn lifecycle(&self) -> A {
        self.lifecycle
    }

    /// The guard on writes to the thread.
    pub closed spec fn live_writer(&self) -> B {
        self.live_writer
    }

    /// The cross-process locks of the thread.
    pub closed spec fn writer_locks(&self) -> Seq<L> {
        self.writer_locks@
    }

    /// The cross-process lock of the topology.
    pub closed spec fn topology(&self) -> T {
        self.topology
    }

    /// What every move keeps.
    pub closed spec fn wf(&self) -> bool {
        self.at <= self.restored@.len()
    }

    /// Where the rollouts go.
    pub closed spec fn destinations(&self) -> Seq<RestoredRollout> {
        self.restored@
    }

    /// The step to do next and the rollout that it is about, unless all have been moved.
    pub closed spec fn next(&self) -> Option<(int, MoveStep)> {
        if self.at < self.restored@.len() {
            Some((self.at as int, self.step))
        } else {
            None
        }
    }

    /// Where the rollout at this index goes.
    pub fn restored(&self, index: usize) -> (restored: &RestoredRollout)
        requires
            index < self.destinations().len(),
        ensures
            *restored == self.destinations()[index as int],
    {
        &self.restored[index]
    }

    /// The step to do next and the index of the rollout that it is about, unless all have been
    /// moved.
    pub fn next_step(&self) -> (next: Option<(usize, MoveStep)>)
        ensures
            match next {
                Some((index, step)) => self.next() == Some((index as int, step)) && index
                    < self.destinations().len(),
                None => self.next() is None,
            },
    {
        if self.at < self.restored.len() {
            Some((self.at, self.step))
        } else {
            None
        }
    }

    /// Goes on after the step ended; one that failed says why and ends the unarchive.
    pub fn step_done(self, outcome: Result<(), String>) -> (moving: ThreadStoreResult<Self>)
        requires
            self.wf(),
            self.next() is Some,
        ensures
            match moving {
                Ok(moving) => {
                    &&& outcome is Ok
                    &&& moving.wf()
                    &&& moving.thread_id() == self.thread_id()
                    &&& moving.lifecycle() == self.lifecycle()
                    &&& moving.live_writer() == self.live_writer()
                    &&& moving.writer_locks() == self.writer_locks()
                    &&& moving.topology() == self.topology()
                    &&& moving.destinations() == self.destinations()
                    &&& moving.next() == step_after(
                        self.destinations().len() as int,
                        self.next()->Some_0.0,
                        self.next()->Some_0.1,
                    )
                },
                Err(error) => outcome matches Err(reason) && error@ == (
                crate::error::ErrorView::Internal {
                    message: move_message(self.next()->Some_0.1) + reason@,
                }),
            },
    {
        if let Err(reason) = outcome {
            return Err(move_error(self.step, reason.as_str()));
        }
        let mut moving = self;
        match moving.step {
            MoveStep::CreateDirectory => {
                moving.step = MoveStep::Rename;
            },
            MoveStep::Rename => {
                moving.step = MoveStep::Touch;
            },
            MoveStep::Touch => {
                assert(moving.at < moving.restored.len());
                moving.at = moving.at + 1;
                moving.step = MoveStep::CreateDirectory;
            },
        }
        Ok(moving)
    }

    /// Hands back what the unarchive holds once every rollout has been moved, so that the thread is
    /// read back under it.
    pub fn finish(self) -> (guards: ThreadStoreResult<UnarchiveGuards<A, B, L, T>>)
        requires
            self.next() is None,
        ensures
            match guards {
                Ok(guards) => {
                    &&& self.writer_locks().len() > 0
                    &&& guards.lifecycle == self.lifecycle()
                    &&& guards.live_writer == self.live_writer()
                    &&& guards.writer_lock == self.writer_locks().last()
                    &&& guards.topology == self.topology()
                },
                Err(error) => self.writer_locks().len() == 0 && error@ == (
                crate::error::ErrorView::Internal {
                    message: "missing writer lock for unarchiving thread "@
                        + self.thread_id().text(),
                }),
            },
    {
        let mut writer_locks: Vec<L> = self.writer_locks;
        match writer_locks.pop() {
            Some(writer_lock) => Ok(
                UnarchiveGuards {
                    lifecycle: self.lifecycle,
                    live_writer: self.live_writer,
                    writer_lock,
                    topology: self.topology,
                },
            ),
            None => Err(
                ThreadStoreError::Internal {
                    message: text::join(
                        "missing writer lock for unarchiving thread ",
                        self.thread_id.to_text().as_str(),
                    ),
                },
            ),
        }
    }
}

/// A rollout goes into four directories: the one of the current rollouts, and in it those of the
/// year, the month and the day in its file name; the name itself stays.
pub proof fn law_rollouts_go_to_the_day_of_their_name<A, B, L, T>(
    locked: LockedUnarchive<A, B, L, T>,
    rollouts: &Vec<ArchivedRollout>,
    moving: UnarchiveMove<A, B, L, T>,
    index: usize,
    restored: &RestoredRollout,
    date: RolloutDate,
)
    requires
        call_ensures(
            LockedUnarchive::<A, B, L, T>::destination,
            (locked, rollouts),
            Ok::<UnarchiveMove<A, B, L, T>, ThreadStoreError>(moving),
        ),
        index < rollouts@.len(),
        rollouts@[index as int].date == Some(date),
        call_ensures(UnarchiveMove::<A, B, L, T>::restored, (&moving, index), restored),
    ensures
        restored.directories@.len() == 4,
        restored.directories@[0]@ == "sessions"@,
        restored.directories@[1]@ == date.year@,
        restored.directories@[2]@ == date.month@,
        restored.directories@[3]@ == date.day@,
        restored.file_name@ == rollouts@[index as int].file_name@,
{
    assert(goes_to(rollouts@[index as int], moving.destinations()[index as int]));
    let views = restored.directories@.map_values(|directory: String| directory@);
    assert(views.len() == restored.directories@.len());
    assert(views[0] == restored.directories@[0]@);
    assert(views[1] == restored.directories@[1]@);
    assert(views[2] == restored.directories@[2]@);
    assert(views[3] == restored.directories@[3]@);
}

/// Two rollouts share their directories exactly if the years, the months and the days in their
/// file names are the same.
pub proof fn law_days_have_directories_of_their_own<A, B, L, T>(
    locked: LockedUnarchive<A, B, L, T>,
    rollouts: &Vec<ArchivedRollout>,
    moving: UnarchiveMove<A, B, L, T>,
    left: usize,
    left_restored: &RestoredRollout,
    left_date: RolloutDate,
    right: usize,
    right_restored: &RestoredRollout,
    right_date: RolloutDate,
)
    requires
        call_ensures(
            LockedUnarchive::<A, B, L, T>::destination,
            (locked, rollouts),
            Ok::<UnarchiveMove<A, B, L, T>, ThreadStoreError>(moving),
        ),
        left < rollouts@.len(),
        right < rollouts@.len(),
        rollouts@[left as int].date == Some(left_date),
        rollouts@[right as int].date == Some(right_date),
        call_ensures(UnarchiveMove::<A, B, L, T>::restored, (&moving, left), left_restored),
        call_ensures(UnarchiveMove::<A, B, L, T>::restored, (&moving, right), right_restored),
    ensures
        (forall|i: int|
            0 <= i < 4 ==> (#[trigger] left_restored.directories@[i])@
                == right_restored.directories@[i]@) <==> left_date.year@ == right_date.year@
            && left_date.month@ == right_date.month@ && left_date.day@ == right_date.day@,
{
    law_rollouts_go_to_the_day_of_their_name(
        locked,
        rollouts,
        moving,
        left,
        left_restored,
        left_date,
    );
    law_rollouts_go_to_the_day_of_their_name(
        locked,
        rollouts,
        moving,
        right,
        right_restored,
        right_date,
    );
    if forall|i: int|
        0 <= i < 4 ==> (#[trigger] left_restored.directories@[i])@
            == right_restored.directories@[i]@ {
        assert(left_restored.directories@[1]@ == right_restored.directories@[1]@);
        assert(left_restored.directories@[2]@ == right_restored.directories@[2]@);
        assert(left_restored.directories@[3]@ == right_restored.directories@[3]@);
    }
}

/// Rollouts are moved exactly if each of their file names has a date; else the first one without
/// is named. A move has a place for each rollout, and starts with the directory of the first.
pub proof fn law_only_dated_rollouts_are_moved<A, B, L, T>(
    locked: LockedUnarchive<A, B, L, T>,
    rollouts: &Vec<ArchivedRollout>,
    moving: ThreadStoreResult<UnarchiveMove<A, B, L, T>>,
    first: int,
)
    requires
        rollouts@.len() > 0,
        call_ensures(LockedUnarchive::<A, B, L, T>::destination, (locked, rollouts), moving),
        0 <= first <= rollouts@.len(),
        forall|j: int| 0 <= j < first ==> (#[trigger] rollouts@[j]).date is Some,
        first < rollouts@.len() ==> rollouts@[first].date is None,
    ensures
        moving is Ok <==> first == rollouts@.len(),
        moving matches Err(error) ==> error@ == (crate::error::ErrorView::InvalidRequest {
            message: "rollout path `"@ + rollouts@[first].path@
                + "` missing filename timestamp"@,
        }),
        moving matches Ok(moving) ==> moving.destinations().len() == rollouts@.len() && (forall|
            next: Option<(usize, MoveStep)>,
        |
            #![trigger call_ensures(UnarchiveMove::<A, B, L, T>::next_step, (&moving,), next)]
            call_ensures(UnarchiveMove::<A, B, L, T>::next_step, (&moving,), next) ==> next
                == Some((0usize, MoveStep::CreateDirectory))),
{
    if let Ok(moving) = moving {
        if first < rollouts@.len() {
            assert(goes_to(rollouts@[first], moving.destinations()[first]));
        }
    }
}

/// Each rollout gets its directory, is then renamed and then touched, before the next one gets its
/// directory; behind the last one nothing is left to do. Where the rollouts go, and what is held,
/// stays as it is.
pub proof fn law_moves_go_on_step_by_step<A, B, L, T>(
    moving: UnarchiveMove<A, B, L, T>,
    index: usize,
    step: MoveStep,
    outcome: Result<(), String>,
    after: ThreadStoreResult<UnarchiveMove<A, B, L, T>>,
    next: Option<(usize, MoveStep)>,
)
    requires
        moving.wf(),
        call_ensures(UnarchiveMove::<A, B, L, T>::next_step, (&moving,), Some((index, step))),
        call_ensures(UnarchiveMove::<A, B, L, T>::step_done, (moving, outcome), after),
        after matches Ok(later) ==> call_ensures(
            UnarchiveMove::<A, B, L, T>::next_step,
            (&later,),
            next,
        ),
    ensures
        after is Ok <==> outcome is Ok,
        after matches Ok(later) ==> {
            &&& later.wf()
            &&& step == MoveStep::CreateDirectory <==> next == Some((index, MoveStep::Rename))
            &&& step == MoveStep::Rename <==> next == Some((index, MoveStep::Touch))
            &&& step == MoveStep::Touch ==> (match next {
                Some((later_index, later_step)) => later_index == index + 1 && later_step
                    == MoveStep::CreateDirectory,
                None => index + 1 == moving.destinations().len(),
            })
            &&& later.destinations() == moving.destinations()
            &&& later.thread_id() == moving.thread_id()
            &&& later.lifecycle() == moving.lifecycle()
            &&& later.live_writer() == moving.live_writer()
            &&& later.writer_locks() == moving.writer_locks()
            &&& later.topology() == moving.topology()
        },
{
}

/// A step that fails ends the move with an internal error that says what was tried and why it
/// failed.
pub proof fn law_failed_steps_are_reported<A, B, L, T>(
    moving: UnarchiveMove<A, B, L, T>,
    index: usize,
    step: MoveStep,
    reason: String,
    after: ThreadStoreResult<UnarchiveMove<A, B, L, T>>,
)
    requires
        call_ensures(UnarchiveMove::<A, B, L, T>::next_step, (&moving,), Some((index, step))),
        call_ensures(
            UnarchiveMove::<A, B, L, T>::step_done,
            (moving, Err::<(), String>(reason)),
            after,
        ),
    ensures
        after matches Err(error) && (error@ matches crate::error::ErrorView::Internal { message }
            && message == (if step == MoveStep::Touch {
            "failed to update unarchived thread timestamp: "@
        } else {
            "failed to unarchive thread: "@
        }) + reason@),
{
}

/// An unarchive goes on exactly if no live writer of this process holds the lock of the thread;
/// the locks that it takes then are the ones that the move holds, and it is about the thread that
/// was asked for.
pub proof fn law_unarchives_keep_their_guards<A, B, L, T, R, W>(
    request: UnarchiveRequest<A, B>,
    recorders: &LiveRecorders<R, W>,
    idle: ThreadStoreResult<IdleUnarchive<A, B>>,
    writer_locks: Vec<L>,
    topology: T,
    locked: LockedUnarchive<A, B, L, T>,
    rollouts: &Vec<ArchivedRollout>,
    moving: ThreadStoreResult<UnarchiveMove<A, B, L, T>>,
)
    requires
        rollouts@.len() > 0,
        call_ensures(
            UnarchiveRequest::<A, B>::without_active_writer::<R, W>,
            (request, recorders),
            idle,
        ),
        idle matches Ok(idle) ==> call_ensures(
            IdleUnarchive::<A, B>::with_locks::<L, T>,
            (idle, writer_locks, topology),
            locked,
        ),
        call_ensures(LockedUnarchive::<A, B, L, T>::destination, (locked, rollouts), moving),
    ensures
        idle is Err <==> recorders@.contains_key(request.thread_id.value)
            && recorders@[request.thread_id.value].writer_lock is Some,
        idle matches Err(error) ==> error@ == (crate::error::ErrorView::Conflict {
            message: "thread "@ + request.thread_id.text() + " already has an active writer"@,
        }),
        idle is Ok && moving is Ok ==> {
            &&& moving->Ok_0.thread_id() == request.thread_id
            &&& moving->Ok_0.lifecycle() == request.lifecycle
            &&& moving->Ok_0.live_writer() == request.live_writer
            &&& moving->Ok_0.writer_locks() == writer_locks@
            &&& moving->Ok_0.topology() == topology
        },
{
}

/// A move that is over hands back the last of its locks with what else it holds; without a lock it
/// fails, naming the thread.
pub proof fn law_finished_moves_hand_back_their_guards<A, B, L, T>(
    moving: UnarchiveMove<A, B, L, T>,
    earlier: Seq<L>,
    lock: L,
    guards: ThreadStoreResult<UnarchiveGuards<A, B, L, T>>,
)
    requires
        moving.next() is None,
        call_ensures(UnarchiveMove::<A, B, L, T>::finish, (moving,), guards),
    ensures
        moving.writer_locks() == earlier.push(lock) ==> (guards matches Ok(guards)
            && guards.writer_lock == lock && guards.lifecycle == moving.lifecycle()
            && guards.live_writer == moving.live_writer() && guards.topology == moving.topology()),
        moving.writer_locks().len() == 0 ==> (guards matches Err(error) && error@ == (
        crate::error::ErrorView::Internal {
            message: "missing writer lock for unarchiving thread "@ + moving.thread_id().text(),
        })),
{
}

/// A search for an archived rollout gives what was found; one that found nothing, or failed, is
/// refused with the thread that was looked for.
pub proof fn law_found_rollouts_are_unarchived<A, B, L, T, P>(
    idle: IdleUnarchive<A, B>,
    writer_locks: Vec<L>,
    topology: T,
    locked: LockedUnarchive<A, B, L, T>,
    found: Result<Option<P>, String>,
    rollout: ThreadStoreResult<P>,
)
    requires
        call_ensures(
            IdleUnarchive::<A, B>::with_locks::<L, T>,
            (idle, writer_locks, topology),
            locked,
        ),
        call_ensures(
            LockedUnarchive::<A, B, L, T>::archived_rollout::<P>,
            (&locked, found),
            rollout,
        ),
    ensures
        rollout is Ok <==> (found matches Ok(path) && path is Some),
        rollout matches Ok(path) ==> found == Ok::<Option<P>, String>(Some(path)),
        found matches Ok(None) ==> rollout->Err_0@ == (crate::error::ErrorView::InvalidRequest {
            message: "no archived rollout found for thread id "@ + idle.thread_id().text(),
        }),
        found matches Err(reason) ==> rollout->Err_0@ == (crate::error::ErrorView::InvalidRequest {
            message: "failed to locate archived thread id "@ + idle.thread_id().text() + ": "@
                + reason@,
        }),
{
}

/// A file name that names the thread and a rollout has to end with the rollout; every other one
/// has to end with the thread.
pub proof fn law_replaced_rollouts_are_expected<A, B, L, T>(
    locked: LockedUnarchive<A, B, L, T>,
    file: RolloutFileIds,
    expected: ThreadId,
)
    requires
        call_ensures(LockedUnarchive::<A, B, L, T>::expected_rollout_id, (&locked, file), expected),
    ensures
        file.thread_id == Some(locked.thread_id()) && file.rollout_id is Some ==> file.rollout_id
            == Some(expected),
        file.thread_id is None || file.thread_id->Some_0 != locked.thread_id()
            || file.rollout_id is None ==> expected == locked.thread_id(),
{
}

} // verus!
