//! Decisions of the store itself: its live writers, where a history is read from, and which kind
//! of fork a source gets.

use crate::error::ThreadStoreError;
use crate::error::ThreadStoreResult;
use crate::history::ThreadHistoryMode;
use crate::legacy_fork;
use crate::legacy_fork::ForkBoundary;
use crate::text;
use crate::thread_id::ThreadId;
use std::collections::HashMap;
use vstd::prelude::*;

verus! {

broadcast use vstd::std_specs::hash::group_hash_axioms;

/// The error for a thread that has a live writer already.
pub open spec fn live_writer_error(thread_id: ThreadId) -> crate::error::ErrorView {
    crate::error::ErrorView::InvalidRequest {
        message: "thread "@ + thread_id.text() + " already has a live local writer"@,
    }
}

fn live_writer(thread_id: ThreadId) -> (error: ThreadStoreError)
    ensures
        error@ == live_writer_error(thread_id),
{
    ThreadStoreError::InvalidRequest {
        message: text::join3(
            "thread ",
            thread_id.to_text().as_str(),
            " already has a live local writer",
        ),
    }
}

/// The live writer of a thread: its recorder, and the cross-process lock that it may hold.
#[derive(Debug)]
pub struct LiveRecorderEntry<R, L> {
    pub recorder: R,
    /// How the history was stored when the writer was opened.
    pub history_mode: ThreadHistoryMode,
    pub writer_lock: Option<L>,
}

/// The live writers of a store, at most one per thread.
pub struct LiveRecorders<R, L> {
    entries: HashMap<u128, LiveRecorderEntry<R, L>>,
}

impl<R, L> View for LiveRecorders<R, L> {
    type V = Map<u128, LiveRecorderEntry<R, L>>;

    closed spec fn view(&self) -> Map<u128, LiveRecorderEntry<R, L>> {
        self.entries@
    }
}

impl<R, L> LiveRecorders<R, L> {
    /// Whether the live writer of a thread holds a cross-process lock.
    pub open spec fn holds_lock(&self, thread_id: ThreadId) -> bool {
        self@.contains_key(thread_id.value) && self@[thread_id.value].writer_lock is Some
    }

    /// A store without live writers.
    pub fn new() -> (recorders: Self)
        ensures
            recorders@ == Map::<u128, LiveRecorderEntry<R, L>>::empty(),
    {
        LiveRecorders { entries: HashMap::new() }
    }

    /// Refuses a thread that has a live writer.
    pub fn ensure_live_recorder_absent(&self, thread_id: ThreadId) -> (absent: ThreadStoreResult<
        (),
    >)
        ensures
            match absent {
                Ok(()) => !self@.contains_key(thread_id.value),
                Err(error) => self@.contains_key(thread_id.value) && error@ == live_writer_error(
                    thread_id,
                ),
            },
    {
        if self.entries.contains_key(&thread_id.value) {
            return Err(live_writer(thread_id));
        }
        Ok(())
    }

    /// Adds the live writer of a thread that has none.
    pub fn insert_live_recorder(
        &mut self,
        thread_id: ThreadId,
        recorder: R,
        history_mode: ThreadHistoryMode,
        writer_lock: Option<L>,
    ) -> (inserted: ThreadStoreResult<()>)
        ensures
            match inserted {
                Ok(()) => !old(self)@.contains_key(thread_id.value) && final(self)@
                    == old(self)@.insert(
                    thread_id.value,
                    LiveRecorderEntry { recorder, history_mode, writer_lock },
                ),
                Err(error) => old(self)@.contains_key(thread_id.value) && final(self)@
                    == old(self)@ && error@ == live_writer_error(thread_id),
            },
    {
        if self.entries.contains_key(&thread_id.value) {
            return Err(live_writer(thread_id));
        }
        self.entries.insert(
            thread_id.value,
            LiveRecorderEntry { recorder, history_mode, writer_lock },
        );
        Ok(())
    }

    /// Removes the live writer of a thread.
    pub fn remove(&mut self, thread_id: ThreadId) -> (removed: Option<LiveRecorderEntry<R, L>>)
        ensures
            final(self)@ == old(self)@.remove(thread_id.value),
            match removed {
                Some(entry) => old(self)@.contains_pair(thread_id.value, entry),
                None => !old(self)@.contains_key(thread_id.value),
            },
    {
        self.entries.remove(&thread_id.value)
    }

    /// The cross-process lock that the live writer of a thread holds.
    pub fn existing_writer_lock(&self, thread_id: ThreadId) -> (lock: Option<&L>)
        ensures
            match lock {
                Some(lock) => self.holds_lock(thread_id) && self@[thread_id.value].writer_lock
                    == Some(*lock),
                None => !self.holds_lock(thread_id),
            },
    {
        match self.entries.get(&thread_id.value) {
            Some(entry) => match &entry.writer_lock {
                Some(lock) => Some(lock),
                None => None,
            },
            None => None,
        }
    }

    /// The threads whose cross-process locks have to be acquired before all of the given threads
    /// are protected, in order: those whose live writers do not hold them.
    pub fn missing_writer_locks(&self, thread_ids: &[ThreadId]) -> (missing: Vec<ThreadId>)
        ensures
            missing@ == thread_ids@.filter(|thread_id: ThreadId| !self.holds_lock(thread_id)),
    {
        let mut missing: Vec<ThreadId> = Vec::new();
        let ghost unheld = |thread_id: ThreadId| !self.holds_lock(thread_id);
        let mut i: usize = 0;
        assert(thread_ids@.take(0).filter(unheld) =~= Seq::<ThreadId>::empty()) by {
            reveal(Seq::filter);
        }
        while i < thread_ids.len()
            invariant
                i <= thread_ids@.len(),
                unheld == (|thread_id: ThreadId| !self.holds_lock(thread_id)),
                missing@ == thread_ids@.take(i as int).filter(unheld),
            decreases thread_ids@.len() - i,
        {
            let thread_id: ThreadId = thread_ids[i];
            proof {
                reveal(Seq::filter);
                assert(thread_ids@.take(i + 1).drop_last() =~= thread_ids@.take(i as int));
                assert(thread_ids@.take(i + 1).last() == thread_id);
            }
            if self.existing_writer_lock(thread_id).is_none() {
                missing.push(thread_id);
            }
            i = i + 1;
        }
        assert(thread_ids@.take(i as int) =~= thread_ids@);
        missing
    }

    /// Refuses to move the rollout of a thread whose live writer holds its cross-process lock.
    pub fn ensure_no_active_writer(&self, thread_id: ThreadId) -> (free: ThreadStoreResult<()>)
        ensures
            match free {
                Ok(()) => !self.holds_lock(thread_id),
                Err(error) => self.holds_lock(thread_id) && error@ == (
                crate::error::ErrorView::Conflict {
                    message: crate::writer_lock::active_writer_message(thread_id),
                }),
            },
    {
        if self.existing_writer_lock(thread_id).is_some() {
            return Err(
                ThreadStoreError::Conflict {
                    message: text::join3(
                        "thread ",
                        thread_id.to_text().as_str(),
                        " already has an active writer",
                    ),
                },
            );
        }
        Ok(())
    }
}

/// Where the history of a thread is read from.
#[derive(Clone, Copy, Debug, PartialEq, Eq, Structural)]
pub enum HistoryRoute {
    /// The rollout of the live writer, archived or not.
    LiveRollout,
    /// The stored thread.
    StoredThread,
}

/// Where the history of a thread is read from; `live_rollout_archived` is known if the thread has
/// a live writer, and says whether the writer's rollout is archived.
pub fn history_route(
    thread_id: ThreadId,
    live_rollout_archived: Option<bool>,
    include_archived: bool,
) -> (route: ThreadStoreResult<HistoryRoute>)
    ensures
        match route {
            Ok(HistoryRoute::StoredThread) => live_rollout_archived is None,
            Ok(HistoryRoute::LiveRollout) => live_rollout_archived matches Some(archived) && (
            !archived || include_archived),
            Err(error) => {
                &&& live_rollout_archived == Some(true)
                &&& !include_archived
                &&& error@ == (crate::error::ErrorView::InvalidRequest {
                    message: "thread "@ + thread_id.text() + " is archived"@,
                })
            },
        },
{
    match live_rollout_archived {
        None => Ok(HistoryRoute::StoredThread),
        Some(archived) => if archived && !include_archived {
            Err(
                ThreadStoreError::InvalidRequest {
                    message: text::join3("thread ", thread_id.to_text().as_str(), " is archived"),
                },
            )
        } else {
            Ok(HistoryRoute::LiveRollout)
        },
    }
}

/// The history that was read along with a thread.
pub fn loaded_history<H>(thread_id: ThreadId, history: Option<H>) -> (loaded: ThreadStoreResult<H>)
    ensures
        match history {
            Some(history) => loaded matches Ok(found) && found == history,
            None => loaded matches Err(error) && error@ == (crate::error::ErrorView::Internal {
                message: "failed to load history for thread "@ + thread_id.text(),
            }),
        },
{
    match history {
        Some(history) => Ok(history),
        None => Err(
            ThreadStoreError::Internal {
                message: text::join(
                    "failed to load history for thread ",
                    thread_id.to_text().as_str(),
                ),
            },
        ),
    }
}

/// Which kind of fork a source gets.
#[derive(Clone, Copy, Debug, PartialEq, Eq, Structural)]
pub enum ForkRoute {
    /// A reference to a legacy history.
    Legacy,
    /// A reference to a paginated history.
    Paginated,
}

/// Whether a fork has to know that the rollout of its source lies in the home.
pub open spec fn is_latest_legacy(boundary: ForkBoundary, mode: ThreadHistoryMode) -> bool {
    boundary == ForkBoundary::Latest && mode == ThreadHistoryMode::Legacy
}

/// Whether a fork has to know that the rollout of its source lies in the home.
pub fn needs_managed_source(boundary: ForkBoundary, mode: ThreadHistoryMode) -> (needs: bool)
    ensures
        needs == is_latest_legacy(boundary, mode),
{
    boundary == ForkBoundary::Latest && mode == ThreadHistoryMode::Legacy
}

/// The source of a fork, under the guards that its kind of fork keeps until the child is stored:
/// metadata are read under them, so that no move can make a fork of another kind of it.
#[derive(Debug)]
pub struct ForkSource<A, F> {
    pub thread_id: ThreadId,
    pub boundary: ForkBoundary,
    /// Keeps deletions and moves of the thread away.
    pub lifecycle: A,
    /// The cross-process lock of the thread.
    pub filesystem: F,
}

impl<A, F> ForkSource<A, F> {
    /// Goes on after the writer of the thread was told to persist it.
    pub fn persisted(self, outcome: ThreadStoreResult<()>) -> (source: ThreadStoreResult<Self>)
        ensures
            match source {
                Ok(source) => crate::legacy_fork::tolerable(outcome) && source == self,
                Err(error) => !crate::legacy_fork::tolerable(outcome) && (outcome matches Err(kept)
                    && error == kept),
            },
    {
        match legacy_fork::tolerate_missing_writer(outcome) {
            Ok(()) => Ok(self),
            Err(error) => Err(error),
        }
    }

    /// The rollout that was found for the thread.
    pub fn located<P>(&self, rollout: Option<P>) -> (found: ThreadStoreResult<P>)
        ensures
            match rollout {
                Some(rollout) => found matches Ok(path) && path == rollout,
                None => found matches Err(error) && error@ == (
                crate::error::ErrorView::ThreadNotFound { thread_id: self.thread_id }),
            },
    {
        match rollout {
            Some(rollout) => Ok(rollout),
            None => Err(ThreadStoreError::ThreadNotFound { thread_id: self.thread_id }),
        }
    }
}

/// Which kind of fork a source gets. `managed` says whether its rollout lies in the home, and
/// matters to the latest fork of a legacy history only: a rollout from elsewhere is copied
/// instead, which takes one that refers to no other.
pub fn fork_route(
    thread_id: ThreadId,
    boundary: ForkBoundary,
    mode: ThreadHistoryMode,
    managed: bool,
    has_history_base: bool,
) -> (route: ThreadStoreResult<ForkRoute>)
    ensures
        match route {
            Ok(ForkRoute::Legacy) => is_latest_legacy(boundary, mode) && managed,
            Ok(ForkRoute::Paginated) => mode == ThreadHistoryMode::Paginated,
            Err(error) => {
                &&& mode == ThreadHistoryMode::Legacy
                &&& error@ == (if is_latest_legacy(boundary, mode) {
                    if has_history_base {
                        crate::error::ErrorView::InvalidRequest {
                            message: "reference rollout for thread "@ + thread_id.text()
                                + " must resolve to its managed Codex home path"@,
                        }
                    } else {
                        crate::error::ErrorView::Unsupported {
                            operation: "external legacy latest fork"@,
                        }
                    }
                } else {
                    crate::error::ErrorView::InvalidRequest {
                        message: "fork source "@ + thread_id.text()
                            + " does not use paginated history"@,
                    }
                })
                &&& is_latest_legacy(boundary, mode) ==> !managed
            },
        },
{
    if needs_managed_source(boundary, mode) {
        if managed {
            return Ok(ForkRoute::Legacy);
        }
        if has_history_base {
            return Err(
                ThreadStoreError::InvalidRequest {
                    message: text::join3(
                        "reference rollout for thread ",
                        thread_id.to_text().as_str(),
                        " must resolve to its managed Codex home path",
                    ),
                },
            );
        }
        return Err(ThreadStoreError::Unsupported { operation: "external legacy latest fork" });
    }
    match mode {
        ThreadHistoryMode::Paginated => Ok(ForkRoute::Paginated),
        ThreadHistoryMode::Legacy => Err(
            ThreadStoreError::InvalidRequest {
                message: text::join3(
                    "fork source ",
                    thread_id.to_text().as_str(),
                    " does not use paginated history",
                ),
            },
        ),
    }
}

/// A thread without a live writer can be given one, and then has that one: its lock is found if it
/// has one, and no second writer is added.
pub proof fn law_threads_have_one_live_writer<R, L>(
    recorders: &mut LiveRecorders<R, L>,
    thread_id: ThreadId,
    recorder: R,
    history_mode: ThreadHistoryMode,
    writer_lock: Option<L>,
    before: ThreadStoreResult<()>,
    inserted: ThreadStoreResult<()>,
    lock: Option<&L>,
    after: ThreadStoreResult<()>,
)
    requires
        call_ensures(
            LiveRecorders::<R, L>::ensure_live_recorder_absent,
            (&*old(recorders), thread_id),
            before,
        ),
        call_ensures(
            LiveRecorders::<R, L>::insert_live_recorder,
            (recorders, thread_id, recorder, history_mode, writer_lock),
            inserted,
        ),
        call_ensures(
            LiveRecorders::<R, L>::existing_writer_lock,
            (&*final(recorders), thread_id),
            lock,
        ),
        call_ensures(
            LiveRecorders::<R, L>::ensure_live_recorder_absent,
            (&*final(recorders), thread_id),
            after,
        ),
    ensures
        inserted is Ok <==> before is Ok,
        inserted is Err ==> final(recorders)@ == old(recorders)@,
        after matches Err(error) && error@ == (crate::error::ErrorView::InvalidRequest {
            message: "thread "@ + thread_id.text() + " already has a live local writer"@,
        }),
        inserted is Ok ==> lock is Some == writer_lock is Some && (lock matches Some(found)
            ==> writer_lock == Some(*found)) && final(recorders)@[thread_id.value].recorder
            == recorder && final(recorders)@[thread_id.value].history_mode == history_mode,
        inserted matches Err(error) ==> error@ == (crate::error::ErrorView::InvalidRequest {
            message: "thread "@ + thread_id.text() + " already has a live local writer"@,
        }),
{
}

/// Adding or removing the live writer of a thread leaves the writers of the others alone.
pub proof fn law_other_writers_stay<R, L>(
    inserting: &mut LiveRecorders<R, L>,
    removing: &mut LiveRecorders<R, L>,
    thread_id: ThreadId,
    recorder: R,
    history_mode: ThreadHistoryMode,
    writer_lock: Option<L>,
    inserted: ThreadStoreResult<()>,
    removed: Option<LiveRecorderEntry<R, L>>,
    other: ThreadId,
)
    requires
        other.value != thread_id.value,
        call_ensures(
            LiveRecorders::<R, L>::insert_live_recorder,
            (inserting, thread_id, recorder, history_mode, writer_lock),
            inserted,
        ),
        call_ensures(LiveRecorders::<R, L>::remove, (removing, thread_id), removed),
    ensures
        final(inserting)@.contains_key(other.value) == old(inserting)@.contains_key(other.value),
        final(inserting)@.contains_key(other.value) ==> final(inserting)@[other.value]
            == old(inserting)@[other.value],
        final(removing)@.contains_key(other.value) == old(removing)@.contains_key(other.value),
        final(removing)@.contains_key(other.value) ==> final(removing)@[other.value]
            == old(removing)@[other.value],
{
}

/// Removing the live writer of a thread gives back the writer that was added, and the thread has
/// none after it.
pub proof fn law_removed_writers_are_the_ones_that_were_added<R, L>(
    recorders: &mut LiveRecorders<R, L>,
    removing: &mut LiveRecorders<R, L>,
    thread_id: ThreadId,
    recorder: R,
    history_mode: ThreadHistoryMode,
    writer_lock: Option<L>,
    removed: Option<LiveRecorderEntry<R, L>>,
    absent: ThreadStoreResult<()>,
)
    requires
        call_ensures(
            LiveRecorders::<R, L>::insert_live_recorder,
            (recorders, thread_id, recorder, history_mode, writer_lock),
            Ok::<(), ThreadStoreError>(()),
        ),
        *old(removing) == *final(recorders),
        call_ensures(LiveRecorders::<R, L>::remove, (removing, thread_id), removed),
        call_ensures(
            LiveRecorders::<R, L>::ensure_live_recorder_absent,
            (&*final(removing), thread_id),
            absent,
        ),
    ensures
        removed matches Some(entry) && entry.recorder == recorder && entry.history_mode
            == history_mode && entry.writer_lock == writer_lock,
        absent is Ok,
        final(removing)@ == old(recorders)@,
{
    assert(final(removing)@ =~= old(recorders)@);
}

/// A store starts without live writers: none holds a lock, and every thread can be given one.
pub proof fn law_stores_start_without_writers<R, L>(
    recorders: LiveRecorders<R, L>,
    thread_id: ThreadId,
    absent: ThreadStoreResult<()>,
    lock: Option<&L>,
    free: ThreadStoreResult<()>,
)
    requires
        call_ensures(LiveRecorders::<R, L>::new, (), recorders),
        call_ensures(
            LiveRecorders::<R, L>::ensure_live_recorder_absent,
            (&recorders, thread_id),
            absent,
        ),
        call_ensures(
            LiveRecorders::<R, L>::existing_writer_lock,
            (&recorders, thread_id),
            lock,
        ),
        call_ensures(
            LiveRecorders::<R, L>::ensure_no_active_writer,
            (&recorders, thread_id),
            free,
        ),
    ensures
        absent is Ok,
        lock is None,
        free is Ok,
{
}

/// A thread has an active writer exactly if its live writer holds a lock.
pub proof fn law_active_writers_hold_their_lock<R, L>(
    recorders: &LiveRecorders<R, L>,
    thread_id: ThreadId,
    lock: Option<&L>,
    free: ThreadStoreResult<()>,
)
    requires
        call_ensures(LiveRecorders::<R, L>::existing_writer_lock, (recorders, thread_id), lock),
        call_ensures(LiveRecorders::<R, L>::ensure_no_active_writer, (recorders, thread_id), free),
    ensures
        free is Err <==> lock is Some,
        lock is Some <==> recorders@.contains_key(thread_id.value)
            && recorders@[thread_id.value].writer_lock is Some,
        lock matches Some(lock) ==> recorders@[thread_id.value].writer_lock == Some(*lock),
        free matches Err(error) ==> error@ == (crate::error::ErrorView::Conflict {
            message: "thread "@ + thread_id.text() + " already has an active writer"@,
        }),
{
}

/// The locks that are missing for two lists of threads one after the other are those that are
/// missing for the first and then those that are missing for the second; the lock of a single
/// thread is missing exactly if its live writer does not hold it.
pub proof fn law_missing_locks_come_in_order<R, L>(
    recorders: &LiveRecorders<R, L>,
    first: &[ThreadId],
    second: &[ThreadId],
    all: &[ThreadId],
    first_missing: Vec<ThreadId>,
    second_missing: Vec<ThreadId>,
    all_missing: Vec<ThreadId>,
    lock: Option<&L>,
)
    requires
        all@ == first@ + second@,
        call_ensures(
            LiveRecorders::<R, L>::missing_writer_locks,
            (recorders, first),
            first_missing,
        ),
        call_ensures(
            LiveRecorders::<R, L>::missing_writer_locks,
            (recorders, second),
            second_missing,
        ),
        call_ensures(LiveRecorders::<R, L>::missing_writer_locks, (recorders, all), all_missing),
        first@.len() == 1 ==> call_ensures(
            LiveRecorders::<R, L>::existing_writer_lock,
            (recorders, first@[0]),
            lock,
        ),
    ensures
        all_missing@ == first_missing@ + second_missing@,
        first@.len() == 1 ==> first_missing@ == (if lock is Some {
            Seq::empty()
        } else {
            first@
        }),
        first@.len() == 0 ==> first_missing@.len() == 0,
{
    let unheld = |thread_id: ThreadId| !recorders.holds_lock(thread_id);
    Seq::filter_distributes_over_add(first@, second@, unheld);
    reveal(Seq::filter);
    reveal_with_fuel(Seq::filter, 2);
    if first@.len() == 1 {
        let none = Seq::<ThreadId>::empty();
        assert(first@.drop_last() =~= none);
        assert(none.filter(unheld) =~= none);
        assert(first@.filter(unheld) =~= (if unheld(first@[0]) {
            seq![first@[0]]
        } else {
            none
        }));
        assert(first@ =~= seq![first@[0]]);
    }
}

/// The history of a thread with a live writer is read from the writer's rollout, unless that is
/// archived and archived ones are not wanted; the history of another thread is read from where it
/// is stored.
pub proof fn law_live_histories_are_read_from_their_writer(
    thread_id: ThreadId,
    live_rollout_archived: Option<bool>,
    include_archived: bool,
    route: ThreadStoreResult<HistoryRoute>,
)
    requires
        call_ensures(history_route, (thread_id, live_rollout_archived, include_archived), route),
    ensures
        route matches Ok(HistoryRoute::StoredThread) <==> live_rollout_archived is None,
        route is Err <==> live_rollout_archived == Some(true) && !include_archived,
        live_rollout_archived == Some(false) || (live_rollout_archived is Some && include_archived)
            <==> route matches Ok(HistoryRoute::LiveRollout),
        route matches Err(error) ==> error@ == (crate::error::ErrorView::InvalidRequest {
            message: "thread "@ + thread_id.text() + " is archived"@,
        }),
{
}

/// A history that was read is what is handed on; one that was not is an error that names the
/// thread.
pub proof fn law_read_histories_are_handed_on<H>(
    thread_id: ThreadId,
    history: Option<H>,
    loaded: ThreadStoreResult<H>,
)
    requires
        call_ensures(loaded_history::<H>, (thread_id, history), loaded),
    ensures
        loaded is Ok <==> history is Some,
        loaded matches Ok(found) ==> history == Some(found),
        loaded matches Err(error) ==> error@ == (crate::error::ErrorView::Internal {
            message: "failed to load history for thread "@ + thread_id.text(),
        }),
{
}

/// A paginated source is forked as such, whatever its boundary; a legacy source is forked only as
/// a whole, and only from the home. Where a rollout lies is asked for in that last case only.
pub proof fn law_sources_are_forked_by_their_kind(
    thread_id: ThreadId,
    boundary: ForkBoundary,
    mode: ThreadHistoryMode,
    managed: bool,
    has_history_base: bool,
    route: ThreadStoreResult<ForkRoute>,
    needs: bool,
    unneeded: ThreadStoreResult<ForkRoute>,
)
    requires
        call_ensures(fork_route, (thread_id, boundary, mode, managed, has_history_base), route),
        call_ensures(needs_managed_source, (boundary, mode), needs),
        call_ensures(fork_route, (thread_id, boundary, mode, !managed, has_history_base), unneeded),
    ensures
        route matches Ok(ForkRoute::Paginated) <==> mode is Paginated,
        route matches Ok(ForkRoute::Legacy) <==> mode is Legacy && boundary is Latest && managed,
        !needs ==> (route is Ok <==> unneeded is Ok),
        needs ==> (route is Ok <==> unneeded is Err),
        route is Err && boundary is Earlier ==> route->Err_0@ == (
        crate::error::ErrorView::InvalidRequest {
            message: "fork source "@ + thread_id.text() + " does not use paginated history"@,
        }),
        route is Err && boundary is Latest && has_history_base ==> route->Err_0@ == (
        crate::error::ErrorView::InvalidRequest {
            message: "reference rollout for thread "@ + thread_id.text()
                + " must resolve to its managed Codex home path"@,
        }),
        route is Err && boundary is Latest && !has_history_base ==> route->Err_0@ == (
        crate::error::ErrorView::Unsupported { operation: "external legacy latest fork"@ }),
{
}

/// A fork goes on unchanged once its source was persisted, or if the source has no writer; a
/// writer that fails ends it with the writer's error. A source without a rollout is not found.
pub proof fn law_forks_go_on_with_their_source<A, F, P>(
    source: ForkSource<A, F>,
    outcome: ThreadStoreResult<()>,
    persisted: ThreadStoreResult<ForkSource<A, F>>,
    rollout: Option<P>,
    found: ThreadStoreResult<P>,
)
    requires
        call_ensures(ForkSource::<A, F>::persisted, (source, outcome), persisted),
        call_ensures(ForkSource::<A, F>::located::<P>, (&source, rollout), found),
    ensures
        persisted is Err <==> (outcome matches Err(error) && !(error is ThreadNotFound)),
        persisted matches Ok(kept) ==> kept == source,
        persisted matches Err(error) ==> outcome == Err::<(), ThreadStoreError>(error),
        found is Ok <==> rollout is Some,
        found matches Ok(path) ==> rollout == Some(path),
        found matches Err(error) ==> (error matches ThreadStoreError::ThreadNotFound { thread_id }
            && thread_id == source.thread_id),
{
}

} // verus!
