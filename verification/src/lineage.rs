//! The lineage of a forked history: the rollouts that contribute to it, oldest first, each with
//! the range that it contributes.
//!
//! A lineage is resolved from its leaf upwards. Each step asks for facts about one rollout (where
//! it is, what its metadata say, whether its cutoff holds) and either refuses the lineage, goes on
//! with the rollout that the metadata refer to, or completes.

use crate::error::ThreadStoreError;
use crate::error::ThreadStoreResult;
use crate::history::HistoryPosition;
use crate::history::ThreadHistoryMode;
use crate::legacy_envelope;
use crate::legacy_envelope::InvalidEnvelope;
use crate::text;
use crate::thread_id::ThreadId;
use std::path::PathBuf;
use vstd::prelude::*;

verus! {

/// One immutable rollout range contributing to a thread's history.
#[derive(Debug)]
pub struct RolloutLineageSegment {
    pub rollout_id: ThreadId,
    pub rollout_path: PathBuf,
    pub start_ordinal: u64,
    /// Where the rollout is cut off; the leaf of a lineage is not.
    pub end: Option<HistoryPosition>,
}

impl RolloutLineageSegment {
    /// The identifier of the rollout.
    pub fn rollout_id(&self) -> (id: ThreadId)
        ensures
            id == self.rollout_id,
    {
        self.rollout_id
    }

    /// The first ordinal that the segment contributes.
    pub fn start_ordinal(&self) -> (ordinal: u64)
        ensures
            ordinal == self.start_ordinal,
    {
        self.start_ordinal
    }

    /// The first ordinal behind the segment, if it is cut off.
    pub fn end_ordinal(&self) -> (ordinal: Option<u64>)
        ensures
            ordinal == (match self.end {
                Some(end) => Some(end.end_ordinal_exclusive),
                None => None,
            }),
    {
        match self.end {
            Some(end) => Some(end.end_ordinal_exclusive),
            None => None,
        }
    }

    /// Whether an ordinal lies in the segment.
    pub open spec fn holds(self, ordinal: u64) -> bool {
        self.start_ordinal <= ordinal && (self.end matches Some(end) ==> ordinal
            < end.end_ordinal_exclusive)
    }
}

/// The first ordinal of a rollout that refers to this position, or to none.
pub open spec fn start_after(mode: ThreadHistoryMode, base: Option<HistoryPosition>) -> int {
    match mode {
        ThreadHistoryMode::Legacy => 0,
        ThreadHistoryMode::Paginated => match base {
            Some(base) => base.end_ordinal_exclusive + 1,
            None => 1,
        },
    }
}

/// Whether no rollout occurs twice.
pub open spec fn distinct_rollouts(segments: Seq<RolloutLineageSegment>) -> bool {
    forall|i: int, j: int|
        0 <= i < j < segments.len() ==> (#[trigger] segments[i]).rollout_id != (
        #[trigger] segments[j]).rollout_id
}

/// Whether a segment is cut off, and the next one starts just behind that cutoff.
pub open spec fn linked(
    segments: Seq<RolloutLineageSegment>,
    i: int,
    mode: ThreadHistoryMode,
) -> bool {
    &&& segments[i].end is Some
    &&& segments[i + 1].start_ordinal == start_after(mode, segments[i].end)
}

/// Whether each segment but the last is cut off at a position of its own rollout, and the next one
/// starts just behind that position.
pub open spec fn is_chain(segments: Seq<RolloutLineageSegment>, mode: ThreadHistoryMode) -> bool {
    &&& segments.len() > 0
    &&& segments[0].start_ordinal == start_after(mode, None)
    &&& forall|i: int| 0 <= i < segments.len() - 1 ==> #[trigger] linked(segments, i, mode)
    &&& forall|i: int|
        0 <= i < segments.len() ==> ((#[trigger] segments[i]).end matches Some(end)
            ==> end.thread_id == segments[i].rollout_id)
}

/// The message of an error that refuses a lineage.
pub open spec fn malformed_message(thread_id: ThreadId, detail: Seq<char>) -> Seq<char> {
    "invalid paginated history lineage for "@ + thread_id.text() + ": "@ + detail
}

/// The error that refuses a lineage.
pub(crate) fn malformed_lineage(thread_id: ThreadId, detail: &str) -> (error: ThreadStoreError)
    ensures
        error@ == (crate::error::ErrorView::InvalidRequest {
            message: malformed_message(thread_id, detail@),
        }),
{
    let message: String = text::join3(
        "invalid paginated history lineage for ",
        thread_id.to_text().as_str(),
        ": ",
    ).concat(detail);
    ThreadStoreError::InvalidRequest { message }
}

/// What a cutoff that does not hold is refused with.
pub open spec fn cutoff_detail(mode: ThreadHistoryMode) -> Seq<char> {
    match mode {
        ThreadHistoryMode::Legacy => "cutoff byte offset is not at a complete JSONL record"@,
        ThreadHistoryMode::Paginated => "cutoff byte offset is past the source rollout"@,
    }
}

/// The check that a cutoff has to pass.
#[derive(Clone, Copy, Debug, PartialEq, Eq, Structural)]
pub enum CutoffRequest {
    /// A complete record with a valid envelope has to end at this offset.
    Envelope { end: u64 },
    /// The rollout has to reach this offset.
    Prefix { end: u64 },
}

/// What the check of a cutoff came to.
#[derive(Debug, PartialEq, Eq)]
pub enum CutoffCheck {
    /// Whether a complete record ends at the cutoff, or that the line before it is no record.
    Envelope { answer: Result<bool, InvalidEnvelope> },
    /// Whether the rollout reaches the cutoff.
    Prefix { contained: bool },
}

/// Whether a check is the one that cutoffs of this mode have to pass.
pub open spec fn is_check_of(mode: ThreadHistoryMode, checked: CutoffCheck) -> bool {
    match mode {
        ThreadHistoryMode::Legacy => checked is Envelope,
        ThreadHistoryMode::Paginated => checked is Prefix,
    }
}

/// Whether a cutoff holds by its check.
pub open spec fn cutoff_holds(checked: CutoffCheck) -> bool {
    match checked {
        CutoffCheck::Envelope { answer } => answer == Ok::<bool, InvalidEnvelope>(true),
        CutoffCheck::Prefix { contained } => contained,
    }
}

/// The error for a cutoff that does not hold: the check failed on a line that is no record, or the
/// cutoff is refused.
pub open spec fn cutoff_error(
    thread_id: ThreadId,
    path: Seq<char>,
    mode: ThreadHistoryMode,
    checked: CutoffCheck,
) -> crate::error::ErrorView {
    match checked {
        CutoffCheck::Envelope { answer: Err(invalid) } => crate::error::ErrorView::Internal {
            message: "failed to validate legacy cutoff "@ + path + ": "@ + invalid.reason@,
        },
        _ => crate::error::ErrorView::InvalidRequest {
            message: malformed_message(thread_id, cutoff_detail(mode)),
        },
    }
}

/// The check that a cutoff at this offset has to pass: a legacy cutoff has to end a complete
/// record, a paginated one only has to lie in its rollout.
pub fn cutoff_request(mode: ThreadHistoryMode, end_byte_offset: u64) -> (request: CutoffRequest)
    ensures
        request == (match mode {
            ThreadHistoryMode::Legacy => CutoffRequest::Envelope { end: end_byte_offset },
            ThreadHistoryMode::Paginated => CutoffRequest::Prefix { end: end_byte_offset },
        }),
{
    match mode {
        ThreadHistoryMode::Legacy => CutoffRequest::Envelope { end: end_byte_offset },
        ThreadHistoryMode::Paginated => CutoffRequest::Prefix { end: end_byte_offset },
    }
}

/// Accepts a cutoff of the rollout at `path` that holds by its check.
pub fn cutoff_checked(
    thread_id: ThreadId,
    path: &str,
    mode: ThreadHistoryMode,
    checked: CutoffCheck,
) -> (accepted: ThreadStoreResult<()>)
    ensures
        match accepted {
            Ok(()) => cutoff_holds(checked),
            Err(error) => !cutoff_holds(checked) && error@ == cutoff_error(
                thread_id,
                path@,
                mode,
                checked,
            ),
        },
{
    let holds: bool = match checked {
        CutoffCheck::Envelope { answer: Err(invalid) } => {
            return Err(
                ThreadStoreError::Internal {
                    message: text::join3("failed to validate legacy cutoff ", path, ": ").concat(
                        invalid.reason.as_str(),
                    ),
                },
            );
        },
        CutoffCheck::Envelope { answer: Ok(holds) } => holds,
        CutoffCheck::Prefix { contained } => contained,
    };
    if holds {
        return Ok(());
    }
    Err(
        match mode {
            ThreadHistoryMode::Legacy => malformed_lineage(
                thread_id,
                "cutoff byte offset is not at a complete JSONL record",
            ),
            ThreadHistoryMode::Paginated => malformed_lineage(
                thread_id,
                "cutoff byte offset is past the source rollout",
            ),
        },
    )
}

/// A legacy cutoff holds exactly where a complete record with a valid envelope ends. It is refused
/// where no nonempty line ends, and its check fails where the line is no record, with the reason.
pub proof fn law_legacy_cutoffs_end_records(
    file: Seq<u8>,
    end: u64,
    reason: String,
    thread_id: ThreadId,
    path: Seq<char>,
)
    ensures
        ({
            let verdict = legacy_envelope::cutoff_verdict(file, end);
            let checked = CutoffCheck::Envelope {
                answer: legacy_envelope::answer_to(verdict, reason),
            };
            let error = cutoff_error(thread_id, path, ThreadHistoryMode::Legacy, checked);
            &&& is_check_of(ThreadHistoryMode::Legacy, checked)
            &&& cutoff_holds(checked) == legacy_envelope::accepts_cutoff(file, end)
            &&& verdict is Incomplete ==> error is InvalidRequest
            &&& verdict is Invalid ==> error == (crate::error::ErrorView::Internal {
                message: "failed to validate legacy cutoff "@ + path + ": "@ + reason@,
            })
        }),
{
}

/// The first segments of a chain, with the last of them cut off in its own rollout, are a chain.
proof fn lemma_truncated_chain(
    whole: Seq<RolloutLineageSegment>,
    cut: Seq<RolloutLineageSegment>,
    end: HistoryPosition,
    mode: ThreadHistoryMode,
)
    requires
        is_chain(whole, mode),
        distinct_rollouts(whole),
        0 < cut.len() <= whole.len(),
        cut.drop_last() == whole.take(cut.len() - 1),
        cut.last() == (RolloutLineageSegment { end: Some(end), ..whole[cut.len() - 1] }),
        end.thread_id == whole[cut.len() - 1].rollout_id,
    ensures
        is_chain(cut, mode),
        distinct_rollouts(cut),
{
    let last = cut.len() - 1;
    assert forall|i: int| 0 <= i < last implies cut[i] == whole[i] by {
        assert(cut.drop_last()[i] == whole.take(last)[i]);
    }
    assert forall|i: int| 0 <= i < last implies #[trigger] linked(cut, i, mode) by {
        assert(linked(whole, i, mode));
        assert(cut[i + 1].start_ordinal == whole[i + 1].start_ordinal);
    }
    assert forall|i: int, j: int| 0 <= i < j < cut.len() implies (#[trigger] cut[i]).rollout_id != (
    #[trigger] cut[j]).rollout_id by {
        assert(whole[i].rollout_id != whole[j].rollout_id);
    }
}

/// Ordered rollout ranges contributing to one forked history.
#[derive(Debug)]
pub struct RolloutLineage {
    segments: Vec<RolloutLineageSegment>,
    history_mode: ThreadHistoryMode,
}

impl View for RolloutLineage {
    type V = Seq<RolloutLineageSegment>;

    closed spec fn view(&self) -> Seq<RolloutLineageSegment> {
        self.segments@
    }
}

impl RolloutLineage {
    /// How the history is stored.
    pub closed spec fn mode(&self) -> ThreadHistoryMode {
        self.history_mode
    }

    /// What every lineage keeps.
    pub open spec fn wf(&self) -> bool {
        is_chain(self@, self.mode()) && distinct_rollouts(self@)
    }

    /// A lineage of segments that form a chain.
    pub(crate) fn new(segments: Vec<RolloutLineageSegment>, history_mode: ThreadHistoryMode) -> (lineage:
        Self)
        requires
            is_chain(segments@, history_mode),
            distinct_rollouts(segments@),
        ensures
            lineage.wf(),
            lineage@ == segments@,
            lineage.mode() == history_mode,
    {
        RolloutLineage { segments, history_mode }
    }

    /// The segments, oldest first.
    pub fn segments(&self) -> (segments: &[RolloutLineageSegment])
        ensures
            segments@ == self@,
    {
        self.segments.as_slice()
    }

    /// How the history is stored.
    pub fn history_mode(&self) -> (mode: ThreadHistoryMode)
        ensures
            mode == self.mode(),
    {
        self.history_mode
    }

    /// The index of the first segment that holds an ordinal.
    pub fn segment_index_for_ordinal(&self, ordinal: u64) -> (index: Option<usize>)
        ensures
            match index {
                Some(index) => {
                    &&& index < self@.len()
                    &&& self@[index as int].holds(ordinal)
                    &&& forall|i: int| 0 <= i < index ==> !(#[trigger] self@[i]).holds(ordinal)
                },
                None => forall|i: int|
                    0 <= i < self@.len() ==> !(#[trigger] self@[i]).holds(ordinal),
            },
    {
        let mut i: usize = 0;
        while i < self.segments.len()
            invariant
                i <= self@.len(),
                forall|j: int| 0 <= j < i ==> !(#[trigger] self@[j]).holds(ordinal),
            decreases self@.len() - i,
        {
            let segment: &RolloutLineageSegment = &self.segments[i];
            let before_end: bool = match segment.end_ordinal() {
                Some(end_ordinal) => ordinal < end_ordinal,
                None => true,
            };
            if ordinal >= segment.start_ordinal() && before_end {
                return Some(i);
            }
            assert(!self@[i as int].holds(ordinal));
            i = i + 1;
        }
        None
    }

    /// The index of the segment whose rollout a position lies in.
    pub fn segment_index_for_position(&self, end: HistoryPosition) -> (index: ThreadStoreResult<
        usize,
    >)
        ensures
            match index {
                Ok(index) => {
                    &&& index < self@.len()
                    &&& self@[index as int].rollout_id == end.thread_id
                    &&& forall|i: int|
                        0 <= i < index ==> (#[trigger] self@[i]).rollout_id != end.thread_id
                },
                Err(error) => {
                    &&& forall|i: int|
                        0 <= i < self@.len() ==> (#[trigger] self@[i]).rollout_id != end.thread_id
                    &&& error@ == (crate::error::ErrorView::Internal {
                        message: "fork position is outside the source lineage"@,
                    })
                },
            },
    {
        let mut i: usize = 0;
        while i < self.segments.len()
            invariant
                i <= self@.len(),
                forall|j: int| 0 <= j < i ==> (#[trigger] self@[j]).rollout_id != end.thread_id,
            decreases self@.len() - i,
        {
            if self.segments[i].rollout_id == end.thread_id {
                return Ok(i);
            }
            i = i + 1;
        }
        Err(
            ThreadStoreError::Internal {
                message: "fork position is outside the source lineage".to_owned(),
            },
        )
    }

    /// Cuts the lineage off at a position of one of its rollouts, the one at `path`; `checked` is
    /// what the check of the cutoff came to.
    pub fn truncate_at(self, end: HistoryPosition, path: &str, checked: CutoffCheck) -> (truncated:
        ThreadStoreResult<RolloutLineage>)
        requires
            self.wf(),
            is_check_of(self.mode(), checked),
        ensures
            match truncated {
                Ok(lineage) => {
                    &&& cutoff_holds(checked)
                    &&& lineage.wf()
                    &&& lineage.mode() == self.mode()
                    &&& 0 < lineage@.len() <= self@.len()
                    &&& self@[lineage@.len() - 1].rollout_id == end.thread_id
                    &&& lineage@.drop_last() == self@.take(lineage@.len() - 1)
                    &&& lineage@.last() == (RolloutLineageSegment {
                        end: Some(end),
                        ..self@[lineage@.len() - 1]
                    })
                },
                Err(error) => if exists|i: int|
                    0 <= i < self@.len() && (#[trigger] self@[i]).rollout_id == end.thread_id {
                    !cutoff_holds(checked) && error@ == cutoff_error(
                        end.thread_id,
                        path@,
                        self.mode(),
                        checked,
                    )
                } else {
                    error@ == (crate::error::ErrorView::Internal {
                        message: "fork position is outside the source lineage"@,
                    })
                },
            },
    {
        let index: usize = match self.segment_index_for_position(end) {
            Ok(index) => index,
            Err(error) => {
                return Err(error);
            },
        };
        assert(self@[index as int].rollout_id == end.thread_id);
        if let Err(error) = cutoff_checked(end.thread_id, path, self.history_mode, checked) {
            return Err(error);
        }
        let ghost whole = self@;
        let mut segments: Vec<RolloutLineageSegment> = self.segments;
        assert(index < segments.len());
        segments.truncate(index + 1);
        match segments.pop() {
            Some(last) => {
                let cut = RolloutLineageSegment {
                    rollout_id: last.rollout_id,
                    rollout_path: last.rollout_path,
                    start_ordinal: last.start_ordinal,
                    end: Some(end),
                };
                segments.push(cut);
            },
            None => {
                assert(false);
            },
        }
        let lineage = RolloutLineage { segments, history_mode: self.history_mode };
        proof {
            assert(lineage@.drop_last() =~= whole.take(index as int));
            lemma_truncated_chain(whole, lineage@, end, self.mode());
        }
        Ok(lineage)
    }
}

/// Whether the cutoffs of a lineage lie at or behind the starts of their segments.
pub open spec fn ordered_cutoffs(segments: Seq<RolloutLineageSegment>) -> bool {
    forall|i: int|
        0 <= i < segments.len() ==> ((#[trigger] segments[i]).end matches Some(end)
            ==> segments[i].start_ordinal <= end.end_ordinal_exclusive + 1)
}

proof fn lemma_later_segments_start_behind(
    segments: Seq<RolloutLineageSegment>,
    i: int,
    j: int,
)
    requires
        is_chain(segments, ThreadHistoryMode::Paginated),
        ordered_cutoffs(segments),
        0 <= i < j < segments.len(),
    ensures
        segments[i].end matches Some(end) && end.end_ordinal_exclusive < segments[j].start_ordinal,
    decreases j - i,
{
    assert(linked(segments, i, ThreadHistoryMode::Paginated));
    if j > i + 1 {
        lemma_later_segments_start_behind(segments, i + 1, j);
        assert(segments[i + 1].start_ordinal <= segments[i + 1].end->Some_0.end_ordinal_exclusive
            + 1);
    }
}

/// In a paginated lineage whose cutoffs are in order, no ordinal lies in two segments.
pub proof fn law_ordinal_in_one_segment(
    lineage: RolloutLineage,
    ordinal: u64,
    i: int,
    j: int,
)
    requires
        lineage.wf(),
        lineage.mode() == ThreadHistoryMode::Paginated,
        ordered_cutoffs(lineage@),
        0 <= i < lineage@.len(),
        0 <= j < lineage@.len(),
        lineage@[i].holds(ordinal),
        lineage@[j].holds(ordinal),
    ensures
        i == j,
{
    if i < j {
        lemma_later_segments_start_behind(lineage@, i, j);
    } else if j < i {
        lemma_later_segments_start_behind(lineage@, j, i);
    }
}

/// A lineage runs without a gap in its ordinals: the first segment of a paginated one starts at
/// ordinal one, and every other just behind the position where the one before it is cut off, one
/// ordinal being that of the metadata. In a legacy one every segment starts at zero. Every segment
/// but the last is cut off, at a position of its own rollout.
pub proof fn law_segments_follow_each_other(lineage: RolloutLineage, i: int)
    requires
        lineage.wf(),
        0 <= i < lineage@.len(),
    ensures
        lineage.mode() == ThreadHistoryMode::Legacy ==> lineage@[i].start_ordinal == 0,
        lineage.mode() == ThreadHistoryMode::Paginated && i == 0 ==> lineage@[i].start_ordinal == 1,
        lineage.mode() == ThreadHistoryMode::Paginated && i > 0 ==> (lineage@[i
            - 1].end matches Some(end) && lineage@[i].start_ordinal == end.end_ordinal_exclusive
            + 1),
        i < lineage@.len() - 1 ==> lineage@[i].end is Some,
        lineage@[i].end matches Some(end) ==> end.thread_id == lineage@[i].rollout_id,
{
    if i > 0 {
        assert(linked(lineage@, i - 1, lineage.mode()));
    }
    if i < lineage@.len() - 1 {
        assert(linked(lineage@, i, lineage.mode()));
    }
}

/// No rollout contributes twice to a lineage.
pub proof fn law_rollouts_contribute_once(lineage: RolloutLineage, i: int, j: int)
    requires
        lineage.wf(),
        0 <= i < lineage@.len(),
        0 <= j < lineage@.len(),
        lineage@[i].rollout_id == lineage@[j].rollout_id,
    ensures
        i == j,
{
    if i < j {
        assert(lineage@[i].rollout_id != lineage@[j].rollout_id);
    } else if j < i {
        assert(lineage@[j].rollout_id != lineage@[i].rollout_id);
    }
}

/// An ordinal is found in the first segment that starts at or before it and is not cut off at or
/// before it, and in none only if there is no such segment.
pub proof fn law_ordinals_are_found_in_their_segment(
    lineage: &RolloutLineage,
    ordinal: u64,
    index: Option<usize>,
    i: int,
)
    requires
        call_ensures(RolloutLineage::segment_index_for_ordinal, (lineage, ordinal), index),
        0 <= i < lineage@.len(),
    ensures
        lineage@[i].start_ordinal <= ordinal && (lineage@[i].end matches Some(end) ==> ordinal
            < end.end_ordinal_exclusive) ==> index is Some && index->Some_0 <= i,
        index matches Some(found) ==> found < lineage@.len() && lineage@[found as int].start_ordinal
            <= ordinal && (lineage@[found as int].end matches Some(end) ==> ordinal
            < end.end_ordinal_exclusive),
{
    if lineage@[i].start_ordinal <= ordinal && (lineage@[i].end matches Some(end) ==> ordinal
        < end.end_ordinal_exclusive) {
        assert(lineage@[i].holds(ordinal));
    }
}

/// A legacy cutoff is checked for a record that ends there, a paginated one for lying in its
/// rollout, whatever the offset.
pub proof fn law_checks_go_by_mode(mode: ThreadHistoryMode, end: u64, request: CutoffRequest)
    requires
        call_ensures(cutoff_request, (mode, end), request),
    ensures
        mode == ThreadHistoryMode::Legacy ==> request == (CutoffRequest::Envelope { end }),
        mode == ThreadHistoryMode::Paginated ==> request == (CutoffRequest::Prefix { end }),
{
}

/// A cutoff is accepted exactly where its check says so, whatever the thread, the path and the
/// mode; where the check failed, the error is internal and gives path and reason, and where the
/// cutoff does not hold, the request is invalid and the error names the thread.
pub proof fn law_cutoffs_are_accepted_by_their_check(
    thread_id: ThreadId,
    path: &str,
    mode: ThreadHistoryMode,
    checked: CutoffCheck,
    accepted: ThreadStoreResult<()>,
)
    requires
        call_ensures(cutoff_checked, (thread_id, path, mode, checked), accepted),
    ensures
        checked matches CutoffCheck::Prefix { contained } ==> (accepted is Ok <==> contained),
        checked matches CutoffCheck::Envelope { answer } ==> (accepted is Ok <==> answer == Ok::<
            bool,
            InvalidEnvelope,
        >(true)),
        checked matches CutoffCheck::Envelope { answer: Err(invalid) } ==> (
        accepted matches Err(error) && error@ == (crate::error::ErrorView::Internal {
            message: "failed to validate legacy cutoff "@ + path@ + ": "@ + invalid.reason@,
        })),
        accepted is Err && !(checked matches CutoffCheck::Envelope { answer: Err(_) }) ==> (
        accepted matches Err(error) && error@ == (crate::error::ErrorView::InvalidRequest {
            message: "invalid paginated history lineage for "@ + thread_id.text() + ": "@ + (
            match mode {
                ThreadHistoryMode::Legacy =>
                    "cutoff byte offset is not at a complete JSONL record"@,
                ThreadHistoryMode::Paginated => "cutoff byte offset is past the source rollout"@,
            }),
        })),
{
    if let CutoffCheck::Envelope { answer } = checked {
        match answer {
            Ok(holds) => {},
            Err(_) => {},
        }
    }
}

/// Cutting a lineage off at a position keeps everything before the rollout of the position, and
/// that rollout up to the position; nothing behind it stays. It succeeds wherever the rollout is in
/// the lineage and the cutoff holds.
pub proof fn law_truncated_lineages_end_at_the_position(
    lineage: RolloutLineage,
    end: HistoryPosition,
    path: &str,
    checked: CutoffCheck,
    truncated: ThreadStoreResult<RolloutLineage>,
    i: int,
    j: int,
)
    requires
        lineage.wf(),
        is_check_of(lineage.mode(), checked),
        call_ensures(RolloutLineage::truncate_at, (lineage, end, path, checked), truncated),
        0 <= i < lineage@.len(),
        lineage@[i].rollout_id == end.thread_id,
    ensures
        checked == (CutoffCheck::Prefix { contained: true }) || checked == (
        CutoffCheck::Envelope { answer: Ok(true) }) <==> truncated is Ok,
        truncated matches Ok(cut) ==> {
            &&& cut.mode() == lineage.mode()
            &&& cut@.len() == i + 1
            &&& 0 <= j < i ==> cut@[j] == lineage@[j]
            &&& cut@[i].rollout_id == lineage@[i].rollout_id
            &&& cut@[i].rollout_path == lineage@[i].rollout_path
            &&& cut@[i].start_ordinal == lineage@[i].start_ordinal
            &&& cut@[i].end == Some(end)
        },
{
    match checked {
        CutoffCheck::Envelope { answer } => {
            match answer {
                Ok(holds) => {},
                Err(_) => {},
            }
        },
        CutoffCheck::Prefix { contained } => {},
    }
    if let Ok(cut) = truncated {
        law_rollouts_contribute_once(lineage, i, cut@.len() - 1);
        if 0 <= j < i {
            assert(cut@.drop_last()[j] == lineage@.take(i)[j]);
        }
    }
}

/// The check of a legacy cutoff says whether a record ends there, that of a paginated one whether
/// the rollout reaches it; either is taken whatever it says.
pub proof fn law_every_outcome_of_a_check_is_taken(
    answer: Result<bool, InvalidEnvelope>,
    contained: bool,
)
    ensures
        is_check_of(ThreadHistoryMode::Legacy, CutoffCheck::Envelope { answer }),
        is_check_of(ThreadHistoryMode::Paginated, CutoffCheck::Prefix { contained }),
{
}

/// A position in a rollout that does not belong to a lineage is refused as such, whatever its
/// cutoff; one that does is refused only for its cutoff, with the rollout that it is in.
pub proof fn law_refused_positions_say_why(
    lineage: RolloutLineage,
    end: HistoryPosition,
    path: &str,
    checked: CutoffCheck,
    index: ThreadStoreResult<usize>,
    truncated: ThreadStoreResult<RolloutLineage>,
    accepted: ThreadStoreResult<()>,
)
    requires
        lineage.wf(),
        is_check_of(lineage.mode(), checked),
        call_ensures(RolloutLineage::segment_index_for_position, (&lineage, end), index),
        call_ensures(RolloutLineage::truncate_at, (lineage, end, path, checked), truncated),
        call_ensures(cutoff_checked, (end.thread_id, path, lineage.mode(), checked), accepted),
    ensures
        truncated is Ok <==> index is Ok && accepted is Ok,
        index matches Err(error) ==> error@ == (crate::error::ErrorView::Internal {
            message: "fork position is outside the source lineage"@,
        }),
        index is Err ==> truncated->Err_0@ == (crate::error::ErrorView::Internal {
            message: "fork position is outside the source lineage"@,
        }),
        index is Ok && accepted is Err ==> truncated->Err_0@ == accepted->Err_0@,
{
    if let Ok(index) = index {
        assert(lineage@[index as int].rollout_id == end.thread_id);
    }
}

/// A segment says which rollout it is of, where it starts, and where it ends if it was cut off.
pub proof fn law_segments_say_where_they_lie(
    segment: &RolloutLineageSegment,
    rollout_id: ThreadId,
    start: u64,
    end: Option<u64>,
)
    requires
        call_ensures(RolloutLineageSegment::rollout_id, (segment,), rollout_id),
        call_ensures(RolloutLineageSegment::start_ordinal, (segment,), start),
        call_ensures(RolloutLineageSegment::end_ordinal, (segment,), end),
    ensures
        rollout_id == segment.rollout_id,
        start == segment.start_ordinal,
        end is Some <==> segment.end is Some,
        segment.end matches Some(position) ==> end == Some(position.end_ordinal_exclusive),
{
}

/// A lineage hands out its segments and its mode as they are.
pub proof fn law_lineages_hand_out_their_segments(
    lineage: &RolloutLineage,
    segments: &[RolloutLineageSegment],
    mode: ThreadHistoryMode,
    i: int,
)
    requires
        call_ensures(RolloutLineage::segments, (lineage,), segments),
        call_ensures(RolloutLineage::history_mode, (lineage,), mode),
    ensures
        segments@.len() == lineage@.len(),
        0 <= i < segments@.len() ==> segments@[i] == lineage@[i],
        mode == lineage.mode(),
{
}

/// A position is in the segment of its rollout, and in none exactly if its rollout does not belong
/// to the lineage.
pub proof fn law_positions_are_found_by_their_rollout(
    lineage: &RolloutLineage,
    end: HistoryPosition,
    index: ThreadStoreResult<usize>,
    i: int,
)
    requires
        lineage.wf(),
        call_ensures(RolloutLineage::segment_index_for_position, (lineage, end), index),
        0 <= i < lineage@.len(),
    ensures
        lineage@[i].rollout_id == end.thread_id ==> (index matches Ok(found) && found == i),
        index matches Ok(found) ==> found < lineage@.len() && lineage@[found as int].rollout_id
            == end.thread_id,
{
    if let Ok(found) = index {
        if lineage@[i].rollout_id == end.thread_id {
            law_rollouts_contribute_once(*lineage, i, found as int);
        }
    }
}

} // verus!
