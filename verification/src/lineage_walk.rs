//! Resolving a lineage, from the rollout of a thread upwards to the rollout that refers to no
//! other.

use crate::error::ThreadStoreResult;
use crate::history::HistoryPosition;
use crate::history::ThreadHistoryMode;
use crate::lineage;
use crate::lineage::CutoffCheck;
use crate::lineage::CutoffRequest;
use crate::lineage::RolloutLineage;
use crate::lineage::RolloutLineageSegment;
use crate::thread_id::ThreadId;
use std::path::PathBuf;
use vstd::prelude::*;

verus! {

/// What a lineage is resolved for.
#[derive(Clone, Copy, Debug, PartialEq, Eq, Structural)]
pub enum LineageRepresentation {
    /// Reading the rollouts as they are.
    Existing,
    /// Sharing the history with a fork: every rollout has to have its managed path, and a source
    /// that refers to no other is stored plainly first.
    PlainForReference,
    /// Reading a referenced history under the writer locks of its threads, with every rollout
    /// stored plainly.
    LockedForReference,
    /// Reading a referenced history under the writer locks of its threads, as it is. The lock of
    /// the thread itself is held already.
    LockedForAttachment,
}

/// What the metadata at the head of a rollout say about its place in a lineage.
#[derive(Clone, Copy, Debug, PartialEq, Eq, Structural)]
pub struct LineageMeta {
    pub id: ThreadId,
    pub history_mode: ThreadHistoryMode,
    pub history_base: Option<HistoryPosition>,
}

/// The identifiers in the file name of a rollout: its thread, and the rollout itself. A rollout
/// that replaced another after a revert has a name with both.
#[derive(Clone, Copy, Debug, PartialEq, Eq, Structural)]
pub struct RolloutFileIds {
    pub thread_id: Option<ThreadId>,
    pub rollout_id: Option<ThreadId>,
}

/// A rollout that was found.
#[derive(Debug)]
pub struct LocatedRollout {
    pub rollout_id: ThreadId,
    pub path: PathBuf,
}

/// The rollout that a walk asks for.
#[derive(Clone, Copy, Debug, PartialEq, Eq, Structural)]
pub enum LineageTarget {
    /// The current rollout of a thread, archived or not.
    Current { thread_id: ThreadId },
    /// The rollout with this identifier.
    Rollout { rollout_id: ThreadId },
}

/// A walk that has to find its next rollout.
#[derive(Debug)]
pub struct LineageWalk {
    requested_thread_id: ThreadId,
    representation: LineageRepresentation,
    visited: Vec<RolloutLineageSegment>,
    history_mode: Option<ThreadHistoryMode>,
    end: Option<HistoryPosition>,
}

/// A walk that has found a rollout and has to read its metadata.
#[derive(Debug)]
pub struct LineageVisit {
    walk: LineageWalk,
    rollout_id: ThreadId,
    path: PathBuf,
}

/// A walk that has accepted the metadata of a rollout and has to check its cutoff.
#[derive(Debug)]
pub struct LineageCandidate {
    walk: LineageWalk,
    rollout_id: ThreadId,
    path: PathBuf,
    meta: LineageMeta,
}

/// What comes after a rollout was accepted.
#[derive(Debug)]
pub enum LineageProgress {
    /// The rollout refers to another one.
    Continue { walk: LineageWalk },
    /// The lineage is resolved.
    Complete { lineage: RolloutLineage },
}

/// Whether a segment is cut off where the one before it, further down, starts.
pub open spec fn linked_upwards(
    visited: Seq<RolloutLineageSegment>,
    i: int,
    mode: ThreadHistoryMode,
) -> bool {
    &&& visited[i + 1].end is Some
    &&& visited[i].start_ordinal == lineage::start_after(mode, visited[i + 1].end)
}

/// Whether segments, the leaf first, are the lower part of a lineage that goes on at `base`.
pub open spec fn is_lower_part(
    visited: Seq<RolloutLineageSegment>,
    mode: ThreadHistoryMode,
    base: Option<HistoryPosition>,
) -> bool {
    &&& visited.len() > 0
    &&& visited[0].end is None
    &&& visited.last().start_ordinal == lineage::start_after(mode, base)
    &&& forall|i: int|
        0 <= i < visited.len() - 1 ==> #[trigger] linked_upwards(visited, i, mode)
    &&& forall|i: int|
        0 <= i < visited.len() ==> ((#[trigger] visited[i]).end matches Some(end) ==> end.thread_id
            == visited[i].rollout_id)
    &&& lineage::distinct_rollouts(visited)
}

/// What is stored of a rollout, as far as lineages are concerned.
pub struct StoredRollout {
    pub path: PathBuf,
    pub meta: LineageMeta,
}

/// Whether a segment is the one that a stored rollout contributes, wherever it is cut off.
pub open spec fn is_segment_of(
    segment: RolloutLineageSegment,
    rollouts: Map<ThreadId, StoredRollout>,
) -> bool {
    &&& rollouts.contains_key(segment.rollout_id)
    &&& segment.rollout_path == rollouts[segment.rollout_id].path
    &&& segment.start_ordinal == lineage::start_after(
        rollouts[segment.rollout_id].meta.history_mode,
        rollouts[segment.rollout_id].meta.history_base,
    )
}

/// Whether segments, the leaf first, follow the positions that the stored rollouts refer to, up to
/// a rollout that refers to `base`.
pub open spec fn follows_upwards(
    visited: Seq<RolloutLineageSegment>,
    base: Option<HistoryPosition>,
    rollouts: Map<ThreadId, StoredRollout>,
) -> bool {
    &&& forall|i: int| 0 <= i < visited.len() ==> is_segment_of(#[trigger] visited[i], rollouts)
    &&& forall|i: int|
        0 <= i < visited.len() ==> rollouts[(
        #[trigger] visited[i]).rollout_id].meta.history_base == (if i < visited.len() - 1 {
            visited[i + 1].end
        } else {
            base
        })
}

/// Whether a lineage, oldest segment first, is the one that the stored rollouts refer to.
pub open spec fn follows(
    segments: Seq<RolloutLineageSegment>,
    rollouts: Map<ThreadId, StoredRollout>,
) -> bool {
    &&& forall|i: int| 0 <= i < segments.len() ==> is_segment_of(#[trigger] segments[i], rollouts)
    &&& forall|i: int|
        0 <= i < segments.len() ==> rollouts[(
        #[trigger] segments[i]).rollout_id].meta.history_base == (if i > 0 {
            segments[i - 1].end
        } else {
            None
        })
}

proof fn lemma_follows_reversed(
    visited: Seq<RolloutLineageSegment>,
    rollouts: Map<ThreadId, StoredRollout>,
)
    requires
        follows_upwards(visited, None, rollouts),
    ensures
        follows(visited.reverse(), rollouts),
{
    let segments = visited.reverse();
    let n = visited.len();
    assert forall|i: int| 0 <= i < n implies is_segment_of(#[trigger] segments[i], rollouts) by {
        assert(segments[i] == visited[n - 1 - i]);
    }
    assert forall|i: int| 0 <= i < n implies rollouts[(
    #[trigger] segments[i]).rollout_id].meta.history_base == (if i > 0 {
        segments[i - 1].end
    } else {
        None
    }) by {
        assert(segments[i] == visited[n - 1 - i]);
        if i > 0 {
            assert(segments[i - 1] == visited[n - i]);
        }
    }
}

proof fn lemma_follows_grows(
    visited: Seq<RolloutLineageSegment>,
    segment: RolloutLineageSegment,
    base: Option<HistoryPosition>,
    rollouts: Map<ThreadId, StoredRollout>,
)
    requires
        visited.len() > 0 ==> follows_upwards(visited, segment.end, rollouts),
        is_segment_of(segment, rollouts),
        rollouts[segment.rollout_id].meta.history_base == base,
    ensures
        follows_upwards(visited.push(segment), base, rollouts),
{
    let longer = visited.push(segment);
    assert forall|i: int| 0 <= i < longer.len() implies is_segment_of(
        #[trigger] longer[i],
        rollouts,
    ) by {
        if i < visited.len() {
            assert(is_segment_of(visited[i], rollouts));
        }
    }
    assert forall|i: int| 0 <= i < longer.len() implies rollouts[(
    #[trigger] longer[i]).rollout_id].meta.history_base == (if i < longer.len() - 1 {
        longer[i + 1].end
    } else {
        base
    }) by {
        if i < visited.len() {
            assert(longer[i] == visited[i]);
        }
    }
}

/// What two threads inherit from one rollout is the same: their lineages agree on everything
/// before it, and on the rollout itself but for where it is cut off.
pub proof fn law_shared_ancestry(
    left: Seq<RolloutLineageSegment>,
    right: Seq<RolloutLineageSegment>,
    mode: ThreadHistoryMode,
    other_mode: ThreadHistoryMode,
    rollouts: Map<ThreadId, StoredRollout>,
    i: int,
    j: int,
)
    requires
        lineage::is_chain(left, mode),
        lineage::is_chain(right, other_mode),
        follows(left, rollouts),
        follows(right, rollouts),
        0 <= i < left.len(),
        0 <= j < right.len(),
        left[i].rollout_id == right[j].rollout_id,
    ensures
        i == j,
        left.take(i) == right.take(j),
        left[i] == (RolloutLineageSegment { end: left[i].end, ..right[j] }),
    decreases i,
{
    assert(is_segment_of(left[i], rollouts));
    assert(is_segment_of(right[j], rollouts));
    if i > 0 {
        assert(lineage::linked(left, i - 1, mode));
        assert(left[i - 1].end is Some);
        assert(j > 0);
        assert(right[j - 1].end == left[i - 1].end);
        law_shared_ancestry(left, right, mode, other_mode, rollouts, i - 1, j - 1);
        assert(left[i - 1] == right[j - 1]);
        assert(left.take(i) =~= left.take(i - 1).push(left[i - 1]));
        assert(right.take(j) =~= right.take(j - 1).push(right[j - 1]));
    } else if j > 0 {
        assert(lineage::linked(right, j - 1, other_mode));
        assert(right[j - 1].end is Some);
    } else {
        assert(left.take(0) =~= right.take(0));
    }
}

/// A fork inherits exactly the history that its source had up to the fork: the lineage of a thread
/// whose rollout refers to a position of another lineage is that lineage, cut off at the position,
/// followed by the rollout itself.
pub proof fn law_fork_inherits_its_source(
    source: RolloutLineage,
    child: RolloutLineage,
    rollouts: Map<ThreadId, StoredRollout>,
    end: HistoryPosition,
    i: int,
)
    requires
        source.wf(),
        child.wf(),
        follows(source@, rollouts),
        follows(child@, rollouts),
        0 <= i < source@.len(),
        source@[i].rollout_id == end.thread_id,
        rollouts[child@.last().rollout_id].meta.history_base == Some(end),
    ensures
        child@.drop_last() == source@.take(i).push(
            RolloutLineageSegment { end: Some(end), ..source@[i] },
        ),
{
    let last = child@.len() - 1;
    assert(child@[last] == child@.last());
    assert(last > 0);
    assert(child@[last - 1].end == Some(end));
    assert(child@[last - 1].rollout_id == end.thread_id);
    law_shared_ancestry(
        source@,
        child@,
        source.mode(),
        child.mode(),
        rollouts,
        i,
        last - 1,
    );
    assert(child@.drop_last() =~= child@.take(last - 1).push(child@[last - 1]));
}

/// Whether one of the segments is of this rollout.
pub open spec fn has_rollout(visited: Seq<RolloutLineageSegment>, rollout_id: ThreadId) -> bool {
    exists|i: int| 0 <= i < visited.len() && (#[trigger] visited[i]).rollout_id == rollout_id
}

/// The lower part of a lineage that refers to nothing more, turned over, is a lineage.
proof fn lemma_reversed_chain(visited: Seq<RolloutLineageSegment>, mode: ThreadHistoryMode)
    requires
        is_lower_part(visited, mode, None),
    ensures
        lineage::is_chain(visited.reverse(), mode),
        lineage::distinct_rollouts(visited.reverse()),
{
    let segments = visited.reverse();
    let n = visited.len();
    assert forall|i: int| 0 <= i < n - 1 implies #[trigger] lineage::linked(segments, i, mode) by {
        assert(linked_upwards(visited, n - 2 - i, mode));
        assert(segments[i] == visited[n - 1 - i]);
        assert(segments[i + 1] == visited[n - 2 - i]);
    }
    assert forall|i: int| 0 <= i < n implies ((#[trigger] segments[i]).end matches Some(end)
        ==> end.thread_id == segments[i].rollout_id) by {
        assert(segments[i] == visited[n - 1 - i]);
    }
    assert forall|i: int, j: int| 0 <= i < j < n implies (#[trigger] segments[i]).rollout_id != (
    #[trigger] segments[j]).rollout_id by {
        assert(segments[i] == visited[n - 1 - i]);
        assert(segments[j] == visited[n - 1 - j]);
    }
}

/// One more segment upwards.
proof fn lemma_lower_part_grows(
    visited: Seq<RolloutLineageSegment>,
    segment: RolloutLineageSegment,
    mode: ThreadHistoryMode,
    base: Option<HistoryPosition>,
)
    requires
        visited.len() > 0 ==> is_lower_part(visited, mode, segment.end) && segment.end is Some,
        visited.len() == 0 ==> segment.end is None,
        segment.end matches Some(end) ==> end.thread_id == segment.rollout_id,
        segment.start_ordinal == lineage::start_after(mode, base),
        !has_rollout(visited, segment.rollout_id),
    ensures
        is_lower_part(visited.push(segment), mode, base),
{
    let longer = visited.push(segment);
    assert forall|i: int| 0 <= i < longer.len() - 1 implies #[trigger] linked_upwards(
        longer,
        i,
        mode,
    ) by {
        if i < visited.len() - 1 {
            assert(linked_upwards(visited, i, mode));
        }
    }
    assert forall|i: int, j: int| 0 <= i < j < longer.len() implies (
    #[trigger] longer[i]).rollout_id != (#[trigger] longer[j]).rollout_id by {
        if j < visited.len() {
            assert(visited[i].rollout_id != visited[j].rollout_id);
        } else {
            assert(visited[i].rollout_id != segment.rollout_id);
        }
    }
}

/// The segments in the opposite order.
fn turned_over(visited: Vec<RolloutLineageSegment>) -> (segments: Vec<RolloutLineageSegment>)
    ensures
        segments@ == visited@.reverse(),
{
    let mut rest: Vec<RolloutLineageSegment> = visited;
    let mut segments: Vec<RolloutLineageSegment> = Vec::new();
    let ghost all = rest@;
    while rest.len() > 0
        invariant
            rest@.len() + segments@.len() == all.len(),
            rest@ == all.take(rest@.len() as int),
            segments@ == all.reverse().take(segments@.len() as int),
        decreases rest@.len(),
    {
        if let Some(segment) = rest.pop() {
            assert(all.reverse()[segments@.len() as int] == all[rest@.len() as int]);
            assert(all.reverse().take(segments@.len() as int + 1) =~= all.reverse().take(
                segments@.len() as int,
            ).push(segment));
            segments.push(segment);
            assert(rest@ =~= all.take(rest@.len() as int));
        }
    }
    assert(segments@ =~= all.reverse());
    segments
}

impl LineageWalk {
    /// The thread whose lineage is resolved.
    pub closed spec fn requested(&self) -> ThreadId {
        self.requested_thread_id
    }

    /// What the lineage is resolved for.
    pub closed spec fn purpose(&self) -> LineageRepresentation {
        self.representation
    }

    /// The segments so far, the leaf first.
    pub closed spec fn visited(&self) -> Seq<RolloutLineageSegment> {
        self.visited@
    }

    /// How the history is stored, once a rollout was accepted.
    pub closed spec fn mode(&self) -> Option<ThreadHistoryMode> {
        self.history_mode
    }

    /// Where the next rollout is cut off; the leaf is not.
    pub closed spec fn end(&self) -> Option<HistoryPosition> {
        self.end
    }

    /// Whether the next rollout is that of the thread itself.
    pub open spec fn at_leaf(&self) -> bool {
        self.end() is None
    }

    /// Whether the walk has followed what is stored in these rollouts.
    pub open spec fn follows(&self, rollouts: Map<ThreadId, StoredRollout>) -> bool {
        self.visited().len() > 0 ==> follows_upwards(self.visited(), self.end(), rollouts)
    }

    /// What every walk keeps.
    pub open spec fn wf(&self) -> bool {
        match self.mode() {
            None => self.visited().len() == 0 && self.end() is None,
            Some(mode) => self.end() is Some && is_lower_part(self.visited(), mode, self.end()),
        }
    }

    /// The identifier under which the next rollout is looked for.
    pub open spec fn wanted(&self) -> ThreadId {
        match self.end() {
            Some(end) => end.thread_id,
            None => self.requested(),
        }
    }

    /// Starts at the current rollout of a thread.
    pub fn new(requested_thread_id: ThreadId, representation: LineageRepresentation) -> (walk: Self)
        ensures
            walk.wf(),
            walk.requested() == requested_thread_id,
            walk.purpose() == representation,
            walk.visited() == Seq::<RolloutLineageSegment>::empty(),
            walk.mode() is None,
            walk.end() is None,
    {
        LineageWalk {
            requested_thread_id,
            representation,
            visited: Vec::new(),
            history_mode: None,
            end: None,
        }
    }

    /// The rollout to look for.
    pub fn target(&self) -> (target: LineageTarget)
        ensures
            target == (match self.end() {
                Some(end) => LineageTarget::Rollout { rollout_id: end.thread_id },
                None => LineageTarget::Current { thread_id: self.requested() },
            }),
    {
        match self.end {
            Some(end) => LineageTarget::Rollout { rollout_id: end.thread_id },
            None => LineageTarget::Current { thread_id: self.requested_thread_id },
        }
    }

    /// The thread whose live writer has to be kept out while the next rollout is visited.
    pub fn coordination_id(&self) -> (id: Option<ThreadId>)
        ensures
            id == (if self.purpose() == LineageRepresentation::PlainForReference {
                Some(self.wanted())
            } else {
                None
            }),
    {
        match self.representation {
            LineageRepresentation::PlainForReference => match self.end {
                Some(end) => Some(end.thread_id),
                None => Some(self.requested_thread_id),
            },
            _ => None,
        }
    }

    /// The thread whose writer lock has to be taken before the next rollout is looked for: a locked
    /// walk starts with the lock of its own thread, unless that is held already.
    pub fn source_lock(&self) -> (lock: Option<ThreadId>)
        ensures
            lock == lock_of_source(*self),
    {
        match (self.representation, self.end) {
            (LineageRepresentation::LockedForReference, None) => Some(self.requested_thread_id),
            _ => None,
        }
    }

    /// Whether a rollout was visited before.
    fn seen(&self, rollout_id: ThreadId) -> (seen: bool)
        ensures
            seen == has_rollout(self.visited(), rollout_id),
    {
        let mut i: usize = 0;
        while i < self.visited.len()
            invariant
                i <= self.visited@.len(),
                forall|j: int| 0 <= j < i ==> (#[trigger] self.visited@[j]).rollout_id != rollout_id,
            decreases self.visited@.len() - i,
        {
            if self.visited[i].rollout_id == rollout_id {
                assert(self.visited()[i as int].rollout_id == rollout_id);
                return true;
            }
            i = i + 1;
        }
        false
    }

    /// Goes on with the rollout that was found for the target. A rollout that was asked for by its
    /// identifier has that identifier.
    pub fn visit(self, located: Option<LocatedRollout>) -> (visit: ThreadStoreResult<LineageVisit>)
        requires
            self.wf(),
        ensures
            match located {
                None => visit matches Err(error) && error@ == (
                crate::error::ErrorView::InvalidRequest {
                    message: lineage::malformed_message(self.wanted(), "missing source rollout"@),
                }),
                Some(located) => {
                    let rollout_id = match self.end() {
                        Some(end) => end.thread_id,
                        None => located.rollout_id,
                    };
                    match visit {
                        Ok(visit) => {
                            &&& !has_rollout(self.visited(), rollout_id)
                            &&& visit.wf()
                            &&& visit.walk() == self
                            &&& visit.rollout_id() == rollout_id
                            &&& visit.path() == located.path
                        },
                        Err(error) => has_rollout(self.visited(), rollout_id) && error@ == (
                        crate::error::ErrorView::InvalidRequest {
                            message: lineage::malformed_message(
                                self.requested(),
                                "cycle detected"@,
                            ),
                        }),
                    }
                },
            },
    {
        let located: LocatedRollout = match located {
            Some(located) => located,
            None => {
                let wanted: ThreadId = match self.end {
                    Some(end) => end.thread_id,
                    None => self.requested_thread_id,
                };
                return Err(lineage::malformed_lineage(wanted, "missing source rollout"));
            },
        };
        let rollout_id: ThreadId = match self.end {
            Some(end) => end.thread_id,
            None => located.rollout_id,
        };
        if self.seen(rollout_id) {
            return Err(lineage::malformed_lineage(self.requested_thread_id, "cycle detected"));
        }
        Ok(LineageVisit { walk: self, rollout_id, path: located.path })
    }
}

/// The thread whose writer lock is taken before the rollout of the thread itself is looked for.
pub open spec fn lock_of_source(walk: LineageWalk) -> Option<ThreadId> {
    if walk.at_leaf() && walk.purpose() == LineageRepresentation::LockedForReference {
        Some(walk.requested())
    } else {
        None
    }
}

/// The thread whose writer lock is taken for an ancestor with this file name. Its thread, not the
/// rollout, is what other operations lock.
pub open spec fn lock_of_ancestor(walk: LineageWalk, file: RolloutFileIds) -> Option<ThreadId> {
    if walk.at_leaf() {
        None
    } else {
        match walk.purpose() {
            LineageRepresentation::Existing | LineageRepresentation::PlainForReference => None,
            LineageRepresentation::LockedForReference => file.thread_id,
            LineageRepresentation::LockedForAttachment => if file.thread_id == Some(
                walk.requested(),
            ) {
                None
            } else {
                file.thread_id
            },
        }
    }
}

/// A locked walk has asked for the writer lock of the thread of every rollout that it accepts, its
/// own included, so that none of them can be moved or removed. For an attachment the lock of the
/// thread itself is held already, and is asked for neither at the leaf nor at an earlier rollout of
/// the thread.
pub proof fn law_locked_walks_lock_every_thread(
    walk: LineageWalk,
    rollout_id: ThreadId,
    meta: LineageMeta,
    file: RolloutFileIds,
)
    requires
        belongs(walk, rollout_id, meta, file),
        walk.purpose() == LineageRepresentation::LockedForReference || walk.purpose()
            == LineageRepresentation::LockedForAttachment,
    ensures
        walk.purpose() == LineageRepresentation::LockedForReference ==> (if walk.at_leaf() {
            lock_of_source(walk) == Some(meta.id)
        } else {
            lock_of_ancestor(walk, file) == Some(meta.id)
        }),
        walk.purpose() == LineageRepresentation::LockedForAttachment ==> {
            &&& lock_of_source(walk) is None
            &&& lock_of_ancestor(walk, file) == (if meta.id == walk.requested() {
                None
            } else {
                Some(meta.id)
            })
        },
{
}

/// Whether the metadata and the file name of a rollout belong to its place in a lineage.
pub open spec fn belongs(
    walk: LineageWalk,
    rollout_id: ThreadId,
    meta: LineageMeta,
    file: RolloutFileIds,
) -> bool {
    &&& file.rollout_id == Some(rollout_id)
    &&& if walk.at_leaf() {
        meta.id == walk.requested() && file.thread_id == Some(walk.requested())
    } else {
        match walk.purpose() {
            LineageRepresentation::Existing | LineageRepresentation::PlainForReference => meta.id
                == rollout_id,
            LineageRepresentation::LockedForReference
            | LineageRepresentation::LockedForAttachment => file.thread_id == Some(meta.id),
        }
    }
}

impl LineageVisit {
    /// The walk that found the rollout.
    pub closed spec fn walk(&self) -> LineageWalk {
        self.walk
    }

    /// The identifier of the rollout.
    pub closed spec fn rollout_id(&self) -> ThreadId {
        self.rollout_id
    }

    /// Where the rollout is.
    pub closed spec fn path(&self) -> PathBuf {
        self.path
    }

    /// What every visit keeps.
    pub open spec fn wf(&self) -> bool {
        &&& self.walk().wf()
        &&& !has_rollout(self.walk().visited(), self.rollout_id())
        &&& self.walk().end() matches Some(end) ==> end.thread_id == self.rollout_id()
    }

    /// Whether the path has to be replaced by the managed path of the rollout. Otherwise a later
    /// copy could keep only what the leaf holds itself and lose what it inherits.
    pub fn needs_managed_path(&self) -> (needs: bool)
        ensures
            needs == (self.walk().purpose() != LineageRepresentation::Existing),
    {
        match self.walk.representation {
            LineageRepresentation::Existing => false,
            _ => true,
        }
    }

    /// The visit with another path for its rollout.
    pub fn with_path(self, path: PathBuf) -> (visit: Self)
        requires
            self.wf(),
        ensures
            visit.wf(),
            visit.walk() == self.walk(),
            visit.rollout_id() == self.rollout_id(),
            visit.path() == path,
    {
        LineageVisit { walk: self.walk, rollout_id: self.rollout_id, path }
    }

    /// The thread whose writer lock has to be taken for the rollout of an ancestor: its thread,
    /// not the rollout, is what other operations lock.
    pub fn ancestor_lock(&self, file: RolloutFileIds) -> (lock: Option<ThreadId>)
        ensures
            lock == lock_of_ancestor(self.walk(), file),
    {
        match (self.walk.representation, self.walk.end) {
            (LineageRepresentation::LockedForReference, Some(_)) => file.thread_id,
            (LineageRepresentation::LockedForAttachment, Some(_)) => if file.thread_id == Some(
                self.walk.requested_thread_id,
            ) {
                None
            } else {
                file.thread_id
            },
            _ => None,
        }
    }

    /// Accepts metadata and a file name that belong to the rollout's place in the lineage.
    pub fn identify(self, meta: LineageMeta, file: RolloutFileIds) -> (candidate: ThreadStoreResult<
        LineageCandidate,
    >)
        requires
            self.wf(),
        ensures
            match candidate {
                Ok(candidate) => {
                    &&& belongs(self.walk(), self.rollout_id(), meta, file)
                    &&& self.walk().mode() matches Some(mode) ==> mode == meta.history_mode
                    &&& candidate.wf()
                    &&& candidate.walk() == self.walk()
                    &&& candidate.rollout_id() == self.rollout_id()
                    &&& candidate.path() == self.path()
                    &&& candidate.meta() == meta
                },
                Err(error) => {
                    &&& !belongs(self.walk(), self.rollout_id(), meta, file) || (self.walk().mode()
                        is Some && self.walk().mode() != Some(meta.history_mode))
                    &&& error@ == (crate::error::ErrorView::InvalidRequest {
                        message: lineage::malformed_message(
                            self.walk().requested(),
                            if !belongs(self.walk(), self.rollout_id(), meta, file) {
                                "source rollout filename or metadata belongs to another thread"@
                            } else {
                                "source rollout mixes history modes"@
                            },
                        ),
                    })
                },
            },
    {
        let owner_matches: bool = match self.walk.end {
            None => meta.id == self.walk.requested_thread_id && file.thread_id == Some(
                self.walk.requested_thread_id,
            ),
            Some(_) => match self.walk.representation {
                LineageRepresentation::Existing | LineageRepresentation::PlainForReference => {
                    meta.id == self.rollout_id
                },
                LineageRepresentation::LockedForReference
                | LineageRepresentation::LockedForAttachment => file.thread_id == Some(meta.id),
            },
        };
        if !owner_matches || file.rollout_id != Some(self.rollout_id) {
            return Err(
                lineage::malformed_lineage(
                    self.walk.requested_thread_id,
                    "source rollout filename or metadata belongs to another thread",
                ),
            );
        }
        if let Some(expected) = self.walk.history_mode {
            if expected != meta.history_mode {
                return Err(
                    lineage::malformed_lineage(
                        self.walk.requested_thread_id,
                        "source rollout mixes history modes",
                    ),
                );
            }
        }
        Ok(
            LineageCandidate {
                walk: self.walk,
                rollout_id: self.rollout_id,
                path: self.path,
                meta,
            },
        )
    }
}

impl LineageCandidate {
    /// The walk that found the rollout.
    pub closed spec fn walk(&self) -> LineageWalk {
        self.walk
    }

    /// The identifier of the rollout.
    pub closed spec fn rollout_id(&self) -> ThreadId {
        self.rollout_id
    }

    /// Where the rollout is.
    pub closed spec fn path(&self) -> PathBuf {
        self.path
    }

    /// The metadata of the rollout.
    pub closed spec fn meta(&self) -> LineageMeta {
        self.meta
    }

    /// What every candidate keeps.
    pub open spec fn wf(&self) -> bool {
        &&& self.walk().wf()
        &&& !has_rollout(self.walk().visited(), self.rollout_id())
        &&& self.walk().end() matches Some(end) ==> end.thread_id == self.rollout_id()
        &&& self.walk().mode() matches Some(mode) ==> mode == self.meta().history_mode
    }

    /// Whether the rollout is stored so.
    pub open spec fn is_stored(&self, rollouts: Map<ThreadId, StoredRollout>) -> bool {
        &&& rollouts.contains_key(self.rollout_id())
        &&& rollouts[self.rollout_id()] == (StoredRollout { path: self.path(), meta: self.meta() })
    }

    /// The segment that the rollout contributes.
    pub open spec fn segment(&self) -> RolloutLineageSegment {
        RolloutLineageSegment {
            rollout_id: self.rollout_id(),
            rollout_path: self.path(),
            start_ordinal: lineage::start_after(
                self.meta().history_mode,
                self.meta().history_base,
            ) as u64,
            end: self.walk().end(),
        }
    }

    /// Whether the rollout has to be stored plainly before it is used. A source that is newly
    /// shared has to stay readable for older readers; history that is shared already is read as
    /// it is, because its owners may move it at any time.
    pub fn needs_materialization(&self) -> (needs: bool)
        ensures
            needs == (match self.walk().purpose() {
                LineageRepresentation::PlainForReference => self.walk().at_leaf()
                    && self.meta().history_base is None,
                LineageRepresentation::LockedForReference => true,
                _ => false,
            }),
    {
        match self.walk.representation {
            LineageRepresentation::PlainForReference => self.walk.end.is_none()
                && self.meta.history_base.is_none(),
            LineageRepresentation::LockedForReference => true,
            _ => false,
        }
    }

    /// The candidate with another path for its rollout.
    pub fn with_path(self, path: PathBuf) -> (candidate: Self)
        requires
            self.wf(),
        ensures
            candidate.wf(),
            candidate.walk() == self.walk(),
            candidate.rollout_id() == self.rollout_id(),
            candidate.meta() == self.meta(),
            candidate.path() == path,
    {
        LineageCandidate { walk: self.walk, rollout_id: self.rollout_id, path, meta: self.meta }
    }

    /// The check that the cutoff of the rollout has to pass: the leaf has none.
    pub fn cutoff(&self) -> (cutoff: Option<CutoffRequest>)
        ensures
            cutoff == (match self.walk().end() {
                Some(end) => Some(
                    match self.meta().history_mode {
                        ThreadHistoryMode::Legacy => CutoffRequest::Envelope {
                            end: end.end_byte_offset,
                        },
                        ThreadHistoryMode::Paginated => CutoffRequest::Prefix {
                            end: end.end_byte_offset,
                        },
                    },
                ),
                None => None,
            }),
    {
        match self.walk.end {
            Some(end) => Some(lineage::cutoff_request(self.meta.history_mode, end.end_byte_offset)),
            None => None,
        }
    }

    /// Takes the rollout at `path` into the lineage; `checked` is what the check of its cutoff came
    /// to, where it has one.
    pub fn accept(self, path: &str, checked: Option<CutoffCheck>) -> (progress: ThreadStoreResult<
        LineageProgress,
    >)
        requires
            self.wf(),
            self.walk().end() is Some ==> (checked matches Some(checked) && lineage::is_check_of(
                self.meta().history_mode,
                checked,
            )),
        ensures
            ({
                let mode = self.meta().history_mode;
                let base = self.meta().history_base;
                let cut = self.walk().end() is Some && !lineage::cutoff_holds(checked->Some_0);
                let start = lineage::start_after(mode, base);
                match progress {
                    Ok(LineageProgress::Complete { lineage }) => {
                        &&& !cut
                        &&& base is None
                        &&& lineage.wf()
                        &&& lineage.mode() == mode
                        &&& lineage@ == self.walk().visited().push(self.segment()).reverse()
                        &&& lineage@.last().end is None
                        &&& forall|rollouts: Map<ThreadId, StoredRollout>|
                            #![trigger follows(lineage@, rollouts)]
                            self.walk().follows(rollouts) && self.is_stored(rollouts) ==> follows(
                                lineage@,
                                rollouts,
                            )
                    },
                    Ok(LineageProgress::Continue { walk }) => {
                        &&& !cut
                        &&& start <= u64::MAX
                        &&& base is Some
                        &&& walk.wf()
                        &&& walk.requested() == self.walk().requested()
                        &&& walk.purpose() == self.walk().purpose()
                        &&& walk.visited() == self.walk().visited().push(self.segment())
                        &&& walk.mode() == Some(mode)
                        &&& walk.end() == base
                        &&& forall|rollouts: Map<ThreadId, StoredRollout>|
                            #![trigger walk.follows(rollouts)]
                            self.walk().follows(rollouts) && self.is_stored(rollouts)
                                ==> walk.follows(rollouts)
                    },
                    Err(error) => {
                        &&& cut || start > u64::MAX
                        &&& error@ == if cut {
                            lineage::cutoff_error(
                                self.walk().requested(),
                                path@,
                                mode,
                                checked->Some_0,
                            )
                        } else {
                            crate::error::ErrorView::InvalidRequest {
                                message: lineage::malformed_message(
                                    self.walk().requested(),
                                    "source ordinal overflow"@,
                                ),
                            }
                        }
                    },
                }
            }),
    {
        let mode: ThreadHistoryMode = self.meta.history_mode;
        if self.walk.end.is_some() {
            if let Some(checked) = checked {
                if let Err(error) = lineage::cutoff_checked(
                    self.walk.requested_thread_id,
                    path,
                    mode,
                    checked,
                ) {
                    return Err(error);
                }
            }
        }
        let start_ordinal: u64 = match mode {
            ThreadHistoryMode::Legacy => 0,
            ThreadHistoryMode::Paginated => match self.meta.history_base {
                Some(base) => {
                    if base.end_ordinal_exclusive == u64::MAX {
                        return Err(
                            lineage::malformed_lineage(
                                self.walk.requested_thread_id,
                                "source ordinal overflow",
                            ),
                        );
                    }
                    base.end_ordinal_exclusive + 1
                },
                None => 1,
            },
        };
        let segment = RolloutLineageSegment {
            rollout_id: self.rollout_id,
            rollout_path: self.path,
            start_ordinal,
            end: self.walk.end,
        };
        proof {
            let base = self.meta.history_base;
            let below = self.walk.visited@;
            lemma_lower_part_grows(below, segment, mode, base);
            assert forall|rollouts: Map<ThreadId, StoredRollout>|
                #![trigger follows_upwards(below.push(segment), base, rollouts)]
                self.walk().follows(rollouts) && self.is_stored(rollouts) implies follows_upwards(
                below.push(segment),
                base,
                rollouts,
            ) by {
                lemma_follows_grows(below, segment, base, rollouts);
            }
        }
        let ghost candidate = self;
        let mut visited: Vec<RolloutLineageSegment> = self.walk.visited;
        visited.push(segment);
        match self.meta.history_base {
            Some(base) => Ok(
                LineageProgress::Continue {
                    walk: LineageWalk {
                        requested_thread_id: self.walk.requested_thread_id,
                        representation: self.walk.representation,
                        visited,
                        history_mode: Some(mode),
                        end: Some(base),
                    },
                },
            ),
            None => {
                proof {
                    lemma_reversed_chain(visited@, mode);
                    assert forall|rollouts: Map<ThreadId, StoredRollout>|
                        #![trigger follows(visited@.reverse(), rollouts)]
                        candidate.walk().follows(rollouts) && candidate.is_stored(
                            rollouts,
                        ) implies follows(visited@.reverse(), rollouts) by {
                        assert(follows_upwards(visited@, None, rollouts));
                        lemma_follows_reversed(visited@, rollouts);
                    }
                }
                let segments: Vec<RolloutLineageSegment> = turned_over(visited);
                Ok(LineageProgress::Complete { lineage: RolloutLineage::new(segments, mode) })
            },
        }
    }
}

/// A rollout takes its place in a lineage if its file name carries the identifier that was looked
/// for, and if it is stored like the rollouts below it, in either history mode. The leaf has to be
/// of the thread itself, by its metadata and by its file name; an ancestor of a walk with locks has
/// to have one thread in both, and an ancestor of a walk without locks has to be the first rollout
/// of its thread by its metadata. Nothing else is asked, and what was found stays as it is.
pub proof fn law_well_named_rollouts_are_identified(
    visit: LineageVisit,
    meta: LineageMeta,
    file: RolloutFileIds,
    candidate: ThreadStoreResult<LineageCandidate>,
)
    requires
        visit.wf(),
        call_ensures(LineageVisit::identify, (visit, meta, file), candidate),
        file.rollout_id == Some(visit.rollout_id()),
        visit.walk().end() is None ==> meta.id == visit.walk().requested() && file.thread_id
            == Some(meta.id),
        visit.walk().end() is Some && (visit.walk().purpose()
            == LineageRepresentation::LockedForReference || visit.walk().purpose()
            == LineageRepresentation::LockedForAttachment) ==> file.thread_id == Some(meta.id),
        visit.walk().end() is Some && (visit.walk().purpose() == LineageRepresentation::Existing
            || visit.walk().purpose() == LineageRepresentation::PlainForReference) ==> meta.id
            == visit.rollout_id(),
        visit.walk().mode() is None || visit.walk().mode() == Some(meta.history_mode),
    ensures
        candidate matches Ok(next) && next.wf() && next.walk() == visit.walk() && next.rollout_id()
            == visit.rollout_id() && next.path() == visit.path() && next.meta() == meta,
{
}

/// A rollout is refused if its file name carries another rollout, if it is of another thread, or if
/// it is stored otherwise than the rollouts below it.
pub proof fn law_foreign_rollouts_are_refused(
    visit: LineageVisit,
    meta: LineageMeta,
    file: RolloutFileIds,
    candidate: ThreadStoreResult<LineageCandidate>,
)
    requires
        visit.wf(),
        call_ensures(LineageVisit::identify, (visit, meta, file), candidate),
        ({
            ||| file.rollout_id != Some(visit.rollout_id())
            ||| visit.walk().end() is None && (meta.id != visit.walk().requested() || file.thread_id
                != Some(meta.id))
            ||| visit.walk().end() is Some && (visit.walk().purpose()
                == LineageRepresentation::LockedForReference || visit.walk().purpose()
                == LineageRepresentation::LockedForAttachment) && file.thread_id != Some(meta.id)
            ||| visit.walk().end() is Some && (visit.walk().purpose()
                == LineageRepresentation::Existing || visit.walk().purpose()
                == LineageRepresentation::PlainForReference) && meta.id != visit.rollout_id()
            ||| visit.walk().mode() is Some && visit.walk().mode() != Some(meta.history_mode)
        }),
    ensures
        candidate matches Err(error) && error is InvalidRequest,
{
}

/// A rollout that was found is visited unless it was visited before; one that was asked for by its
/// identifier has that identifier, and the leaf has the one that it was found with.
pub proof fn law_new_rollouts_are_visited(
    walk: LineageWalk,
    located: LocatedRollout,
    visit: ThreadStoreResult<LineageVisit>,
)
    requires
        walk.wf(),
        call_ensures(LineageWalk::visit, (walk, Some(located)), visit),
    ensures
        ({
            let rollout_id = match walk.end() {
                Some(end) => end.thread_id,
                None => located.rollout_id,
            };
            &&& visit is Err <==> exists|i: int|
                0 <= i < walk.visited().len() && (#[trigger] walk.visited()[i]).rollout_id
                    == rollout_id
            &&& visit matches Ok(visit) ==> visit.wf() && visit.walk() == walk && visit.rollout_id()
                == rollout_id && visit.path() == located.path
        }),
{
}

/// A rollout that was identified contributes its segment if its cutoff holds: from the first
/// ordinal behind the position that it refers to, up to the position that refers to it. The walk
/// ends with it if it refers to no other, in either history mode, and goes on at the position that
/// it refers to otherwise.
pub proof fn law_identified_rollouts_are_accepted(
    candidate: LineageCandidate,
    path: &str,
    checked: Option<CutoffCheck>,
    progress: ThreadStoreResult<LineageProgress>,
)
    requires
        candidate.wf(),
        candidate.walk().end() is Some ==> (checked matches Some(checked) && lineage::is_check_of(
            candidate.meta().history_mode,
            checked,
        )),
        call_ensures(LineageCandidate::accept, (candidate, path, checked), progress),
        candidate.walk().end() is Some ==> checked == Some(
            CutoffCheck::Prefix { contained: true },
        ) || checked == Some(CutoffCheck::Envelope { answer: Ok(true) }),
        candidate.meta().history_mode == ThreadHistoryMode::Paginated ==> (
        candidate.meta().history_base matches Some(base) ==> base.end_ordinal_exclusive < u64::MAX),
    ensures
        ({
            let base = candidate.meta().history_base;
            let visited = candidate.walk().visited();
            let start: int = match candidate.meta().history_mode {
                ThreadHistoryMode::Legacy => 0,
                ThreadHistoryMode::Paginated => match base {
                    Some(base) => base.end_ordinal_exclusive + 1,
                    None => 1,
                },
            };
            match progress {
                Ok(LineageProgress::Complete { lineage }) => {
                    &&& base is None
                    &&& lineage.wf()
                    &&& lineage.mode() == candidate.meta().history_mode
                    &&& lineage@.len() == visited.len() + 1
                    &&& lineage@[0].rollout_id == candidate.rollout_id()
                    &&& lineage@[0].rollout_path == candidate.path()
                    &&& lineage@[0].start_ordinal == start
                    &&& lineage@[0].end == candidate.walk().end()
                    &&& forall|i: int|
                        0 < i < lineage@.len() ==> #[trigger] lineage@[i] == visited[visited.len()
                            - i]
                },
                Ok(LineageProgress::Continue { walk }) => {
                    &&& base is Some
                    &&& walk.wf()
                    &&& walk.requested() == candidate.walk().requested()
                    &&& walk.purpose() == candidate.walk().purpose()
                    &&& walk.end() == base
                    &&& walk.mode() == Some(candidate.meta().history_mode)
                    &&& walk.visited().len() == visited.len() + 1
                    &&& walk.visited().take(visited.len() as int) == visited
                    &&& walk.visited().last().rollout_id == candidate.rollout_id()
                    &&& walk.visited().last().rollout_path == candidate.path()
                    &&& walk.visited().last().start_ordinal == start
                    &&& walk.visited().last().end == candidate.walk().end()
                },
                Err(_) => false,
            }
        }),
{
    let visited = candidate.walk().visited();
    let longer = visited.push(candidate.segment());
    match progress {
        Ok(LineageProgress::Complete { lineage }) => {
            assert(lineage@.len() == longer.len());
            assert(lineage@[0] == longer[visited.len() as int]);
            assert forall|i: int| 0 < i < lineage@.len() implies #[trigger] lineage@[i]
                == visited[visited.len() - i] by {
                assert(lineage@[i] == longer[longer.len() - 1 - i]);
            }
        },
        Ok(LineageProgress::Continue { walk }) => {
            assert(walk.visited().take(visited.len() as int) =~= visited);
        },
        Err(_) => {},
    }
}

/// Whether rollouts are stored so that the first one's history leads over all of them, in order, to
/// the last one, which refers to no other. All are stored in one mode, whichever, each refers to a
/// position of the next one, and none is there twice.
pub open spec fn is_stored_chain(
    chain: Seq<ThreadId>,
    rollouts: Map<ThreadId, StoredRollout>,
) -> bool {
    &&& chain.len() > 0
    &&& forall|i: int| 0 <= i < chain.len() ==> rollouts.contains_key(#[trigger] chain[i])
    &&& forall|i: int|
        0 <= i < chain.len() ==> rollouts[#[trigger] chain[i]].meta.history_mode
            == rollouts[chain[0]].meta.history_mode
    &&& forall|i: int|
        0 <= i < chain.len() ==> (rollouts[#[trigger] chain[i]].meta.history_base is Some <==> i
            < chain.len() - 1)
    &&& forall|i: int, j: int|
        0 <= i < j < chain.len() && j == i + 1 ==> (
        rollouts[#[trigger] chain[i]].meta.history_base matches Some(base) ==> base.thread_id
            == #[trigger] chain[j])
    &&& forall|i: int|
        0 <= i < chain.len() - 1 ==> (
        rollouts[#[trigger] chain[i]].meta.history_base matches Some(base)
            ==> base.end_ordinal_exclusive < u64::MAX)
    &&& forall|i: int, j: int|
        0 <= i < j < chain.len() ==> #[trigger] chain[i] != #[trigger] chain[j]
}

/// Whether a walk has gone over the first `n` rollouts of a chain.
pub open spec fn has_gone_over(
    walk: LineageWalk,
    chain: Seq<ThreadId>,
    rollouts: Map<ThreadId, StoredRollout>,
    n: int,
) -> bool {
    &&& walk.wf()
    &&& walk.visited().len() == n
    &&& forall|i: int| 0 <= i < n ==> (#[trigger] walk.visited()[i]).rollout_id == chain[i]
    &&& walk.end() == (if n == 0 {
        None
    } else {
        rollouts[chain[n - 1]].meta.history_base
    })
    &&& walk.mode() == (if n == 0 {
        None
    } else {
        Some(rollouts[chain[0]].meta.history_mode)
    })
}

/// A walk over a chain of stored rollouts gets on: with `n` of them behind it, it visits,
/// identifies and accepts the next one, well named, of its thread and with a cutoff that holds, whatever the
/// purpose of the walk and the history mode. After the last one the lineage is complete and holds
/// all of them, the last one first; so every such chain is resolved, in as many steps as it has
/// rollouts.
pub proof fn law_stored_chains_are_resolved(
    chain: Seq<ThreadId>,
    rollouts: Map<ThreadId, StoredRollout>,
    n: int,
    walk: LineageWalk,
    located: LocatedRollout,
    visit: ThreadStoreResult<LineageVisit>,
    file: RolloutFileIds,
    candidate: ThreadStoreResult<LineageCandidate>,
    path: &str,
    checked: Option<CutoffCheck>,
    progress: ThreadStoreResult<LineageProgress>,
)
    requires
        is_stored_chain(chain, rollouts),
        0 <= n < chain.len(),
        has_gone_over(walk, chain, rollouts, n),
        located.rollout_id == chain[n],
        located.path == rollouts[chain[n]].path,
        file == (RolloutFileIds {
            thread_id: Some(rollouts[chain[n]].meta.id),
            rollout_id: Some(chain[n]),
        }),
        n == 0 ==> rollouts[chain[n]].meta.id == walk.requested(),
        n > 0 && (walk.purpose() == LineageRepresentation::Existing || walk.purpose()
            == LineageRepresentation::PlainForReference) ==> rollouts[chain[n]].meta.id == chain[n],
        n > 0 ==> checked == (match rollouts[chain[0]].meta.history_mode {
            ThreadHistoryMode::Legacy => Some(CutoffCheck::Envelope { answer: Ok(true) }),
            ThreadHistoryMode::Paginated => Some(CutoffCheck::Prefix { contained: true }),
        }),
        call_ensures(LineageWalk::visit, (walk, Some(located)), visit),
        visit matches Ok(visit) ==> call_ensures(
            LineageVisit::identify,
            (visit, rollouts[chain[n]].meta, file),
            candidate,
        ),
        candidate matches Ok(candidate) ==> call_ensures(
            LineageCandidate::accept,
            (candidate, path, checked),
            progress,
        ),
    ensures
        visit is Ok,
        candidate is Ok,
        n < chain.len() - 1 ==> (progress matches Ok(LineageProgress::Continue { walk: next })
            && has_gone_over(next, chain, rollouts, n + 1) && next.requested() == walk.requested()
            && next.purpose() == walk.purpose()),
        n == chain.len() - 1 ==> (progress matches Ok(LineageProgress::Complete { lineage })
            && lineage@.len() == chain.len() && lineage.mode()
            == rollouts[chain[0]].meta.history_mode && (forall|i: int|
            0 <= i < chain.len() ==> (#[trigger] lineage@[i]).rollout_id == chain[chain.len() - 1
                - i])),
{
    let meta = rollouts[chain[n]].meta;
    law_new_rollouts_are_visited(walk, located, visit);
    if n > 0 {
        assert(chain[n - 1] != chain[n]);
        assert(rollouts[chain[n - 1]].meta.history_base is Some);
        assert(rollouts[chain[n - 1]].meta.history_base->Some_0.thread_id == chain[n]);
    }
    assert forall|i: int| 0 <= i < walk.visited().len() implies (
    #[trigger] walk.visited()[i]).rollout_id != chain[n] by {
        assert(walk.visited()[i].rollout_id == chain[i]);
        assert(chain[i] != chain[n]);
    }
    let visited = visit->Ok_0;
    assert(meta.history_mode == rollouts[chain[0]].meta.history_mode);
    law_well_named_rollouts_are_identified(visited, meta, file, candidate);
    let found = candidate->Ok_0;
    assert(meta.history_base is Some <==> n < chain.len() - 1);
    law_identified_rollouts_are_accepted(found, path, checked, progress);
    match progress {
        Ok(LineageProgress::Continue { walk: next }) => {
            assert forall|i: int| 0 <= i < n + 1 implies (#[trigger] next.visited()[i]).rollout_id
                == chain[i] by {
                if i < n {
                    assert(next.visited().take(n)[i] == walk.visited()[i]);
                } else {
                    assert(next.visited()[i] == next.visited().last());
                }
            }
        },
        Ok(LineageProgress::Complete { lineage }) => {
            assert forall|i: int| 0 <= i < chain.len() implies (#[trigger] lineage@[i]).rollout_id
                == chain[chain.len() - 1 - i] by {
                if i > 0 {
                    assert(walk.visited()[n - i].rollout_id == chain[n - i]);
                }
            }
        },
        Err(_) => {},
    }
}

/// A walk starts at the thread that was asked for, with nothing behind it.
pub proof fn law_walks_start_at_their_thread(
    thread_id: ThreadId,
    representation: LineageRepresentation,
    walk: LineageWalk,
    chain: Seq<ThreadId>,
    rollouts: Map<ThreadId, StoredRollout>,
)
    requires
        call_ensures(LineageWalk::new, (thread_id, representation), walk),
    ensures
        walk.requested() == thread_id,
        walk.purpose() == representation,
        has_gone_over(walk, chain, rollouts, 0),
{
}

/// What a walk asks for before it visits a rollout: the current rollout of its thread at first,
/// then the rollout of the position that it has come to. Only sharing keeps the live writer of that
/// thread out, and only a locked reading takes the lock of the thread itself, once, at its start.
pub proof fn law_walks_ask_for_the_next_rollout(
    walk: &LineageWalk,
    target: LineageTarget,
    coordination: Option<ThreadId>,
    lock: Option<ThreadId>,
)
    requires
        call_ensures(LineageWalk::target, (walk,), target),
        call_ensures(LineageWalk::coordination_id, (walk,), coordination),
        call_ensures(LineageWalk::source_lock, (walk,), lock),
    ensures
        walk.end() is None ==> target == (LineageTarget::Current { thread_id: walk.requested() }),
        walk.end() matches Some(end) ==> target == (LineageTarget::Rollout {
            rollout_id: end.thread_id,
        }),
        walk.purpose() == LineageRepresentation::PlainForReference ==> coordination == (
        match walk.end() {
            Some(end) => Some(end.thread_id),
            None => Some(walk.requested()),
        }),
        walk.purpose() != LineageRepresentation::PlainForReference ==> coordination is None,
        walk.purpose() == LineageRepresentation::LockedForReference && walk.end() is None ==> lock
            == Some(walk.requested()),
        walk.purpose() != LineageRepresentation::LockedForReference || walk.end() is Some ==> lock
            is None,
{
}

/// What a visited rollout needs: its managed path unless the walk only reads it, and the lock of
/// its thread if it is an ancestor of a locked walk, but for the thread of an attachment, which is
/// locked already.
pub proof fn law_ancestors_are_locked_by_thread(
    visit: &LineageVisit,
    file: RolloutFileIds,
    managed: bool,
    lock: Option<ThreadId>,
)
    requires
        call_ensures(LineageVisit::needs_managed_path, (visit,), managed),
        call_ensures(LineageVisit::ancestor_lock, (visit, file), lock),
    ensures
        managed <==> visit.walk().purpose() != LineageRepresentation::Existing,
        visit.walk().end() is None ==> lock is None,
        visit.walk().purpose() == LineageRepresentation::Existing || visit.walk().purpose()
            == LineageRepresentation::PlainForReference ==> lock is None,
        visit.walk().end() is Some && visit.walk().purpose()
            == LineageRepresentation::LockedForReference ==> lock == file.thread_id,
        visit.walk().end() is Some && visit.walk().purpose()
            == LineageRepresentation::LockedForAttachment ==> lock == (if file.thread_id == Some(
            visit.walk().requested(),
        ) {
            None
        } else {
            file.thread_id
        }),
{
}

/// A rollout is stored plainly before it is used where it is read under locks, and where a source
/// that refers to no other is shared for the first time. Its cutoff is checked by the mode of its
/// history, at the offset of the position that refers to it; the leaf has none.
pub proof fn law_candidates_are_prepared_by_purpose(
    candidate: &LineageCandidate,
    materialize: bool,
    cutoff: Option<CutoffRequest>,
)
    requires
        call_ensures(LineageCandidate::needs_materialization, (candidate,), materialize),
        call_ensures(LineageCandidate::cutoff, (candidate,), cutoff),
    ensures
        materialize <==> candidate.walk().purpose() == LineageRepresentation::LockedForReference
            || (candidate.walk().purpose() == LineageRepresentation::PlainForReference
            && candidate.walk().end() is None && candidate.meta().history_base is None),
        candidate.walk().end() is None ==> cutoff is None,
        candidate.walk().end() matches Some(end) ==> cutoff == Some(
            match candidate.meta().history_mode {
                ThreadHistoryMode::Legacy => CutoffRequest::Envelope { end: end.end_byte_offset },
                ThreadHistoryMode::Paginated => CutoffRequest::Prefix { end: end.end_byte_offset },
            },
        ),
{
}

/// Every refusal of a walk names the thread that was asked for and says what is wrong; only a
/// missing rollout is named itself.
pub proof fn law_refused_walks_say_why(
    walk: LineageWalk,
    located: Option<LocatedRollout>,
    visit_error: crate::error::ThreadStoreError,
    visit: LineageVisit,
    meta: LineageMeta,
    file: RolloutFileIds,
    identify_error: crate::error::ThreadStoreError,
)
    requires
        walk.wf(),
        call_ensures(
            LineageWalk::visit,
            (walk, located),
            Err::<LineageVisit, crate::error::ThreadStoreError>(visit_error),
        ),
        visit.wf(),
        call_ensures(
            LineageVisit::identify,
            (visit, meta, file),
            Err::<LineageCandidate, crate::error::ThreadStoreError>(identify_error),
        ),
    ensures
        located is Some ==> visit_error@ == (crate::error::ErrorView::InvalidRequest {
            message: "invalid paginated history lineage for "@ + walk.requested().text() + ": "@
                + "cycle detected"@,
        }),
        located is None ==> visit_error@ == (crate::error::ErrorView::InvalidRequest {
            message: "invalid paginated history lineage for "@ + (match walk.end() {
                Some(end) => end.thread_id.text(),
                None => walk.requested().text(),
            }) + ": "@ + "missing source rollout"@,
        }),
        identify_error@ == (crate::error::ErrorView::InvalidRequest {
            message: "invalid paginated history lineage for "@ + visit.walk().requested().text()
                + ": "@ + (if belongs(visit.walk(), visit.rollout_id(), meta, file) {
                "source rollout mixes history modes"@
            } else {
                "source rollout filename or metadata belongs to another thread"@
            }),
        }),
{
}

/// A rollout is refused for its cutoff, if it has one, exactly if that does not hold, and else only
/// because its ordinals run out; the thread that was asked for is named.
pub proof fn law_refused_rollouts_say_why(
    candidate: LineageCandidate,
    path: &str,
    checked: Option<CutoffCheck>,
    progress: ThreadStoreResult<LineageProgress>,
    accepted: ThreadStoreResult<()>,
)
    requires
        candidate.wf(),
        candidate.walk().end() is Some ==> checked is Some && lineage::is_check_of(
            candidate.meta().history_mode,
            checked->Some_0,
        ),
        call_ensures(LineageCandidate::accept, (candidate, path, checked), progress),
        candidate.walk().end() is Some ==> call_ensures(
            lineage::cutoff_checked,
            (candidate.walk().requested(), path, candidate.meta().history_mode, checked->Some_0),
            accepted,
        ),
    ensures
        ({
            let cut = candidate.walk().end() is Some && accepted is Err;
            let over = candidate.meta().history_mode is Paginated && (
            candidate.meta().history_base matches Some(base) && base.end_ordinal_exclusive
                == u64::MAX);
            &&& progress is Err <==> cut || over
            &&& cut ==> progress->Err_0@ == accepted->Err_0@
            &&& !cut && over ==> progress->Err_0@ == (crate::error::ErrorView::InvalidRequest {
                message: "invalid paginated history lineage for "@
                    + candidate.walk().requested().text() + ": "@ + "source ordinal overflow"@,
            })
        }),
{
}

} // verus!
