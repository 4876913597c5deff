//! Logical attachments of reference-backed histories: which records of which rollouts go into
//! them, and which requests for them are refused.

use crate::attachment;
use crate::attachment::AttachmentEnd;
use crate::attachment::AttachmentWriter;
use crate::attachment::LineAction;
use crate::envelope;
use crate::envelope::EnvelopeField;
use crate::envelope::PayloadKind;
use crate::error::ThreadStoreError;
use crate::error::ThreadStoreResult;
use crate::legacy_envelope;
use crate::lineage::RolloutLineage;
use crate::lineage::RolloutLineageSegment;
use crate::text;
use crate::thread_id::ThreadId;
use vstd::prelude::*;

verus! {

/// What an attachment has to know of a record.
#[derive(Debug, PartialEq, Eq)]
pub struct EnvelopeInfo {
    /// The record's `type`.
    pub kind: String,
    /// Whether the record is a ghost snapshot.
    pub ghost_snapshot: bool,
}

/// [`EnvelopeInfo`] with its text as a sequence of characters.
pub struct EnvelopeInfoView {
    pub kind: Seq<char>,
    pub ghost_snapshot: bool,
}

impl View for EnvelopeInfo {
    type V = EnvelopeInfoView;

    open spec fn view(&self) -> EnvelopeInfoView {
        EnvelopeInfoView { kind: self.kind@, ghost_snapshot: self.ghost_snapshot }
    }
}

/// Whether a field has the type that an attachment asks of it: strings for `timestamp`, `type`
/// and the payload's own `type`, an object for `payload`.
pub open spec fn well_typed(field: envelope::FieldView) -> bool {
    match field {
        envelope::FieldView::Timestamp { is_text } => is_text,
        envelope::FieldView::Kind { text } => text is Some,
        envelope::FieldView::Payload { object, .. } => object is Some
            && object->Some_0 !is Invalid,
        envelope::FieldView::Other => true,
    }
}

/// The last `type` among the fields.
pub open spec fn last_kind(fields: Seq<envelope::FieldView>) -> Option<Seq<char>>
    decreases fields.len(),
{
    if fields.len() == 0 {
        None
    } else {
        match fields.last() {
            envelope::FieldView::Kind { text: Some(text) } => Some(text),
            _ => last_kind(fields.drop_last()),
        }
    }
}

/// The last `payload` among the fields that is an object.
pub open spec fn last_payload(fields: Seq<envelope::FieldView>) -> Option<envelope::PayloadKindView>
    decreases fields.len(),
{
    if fields.len() == 0 {
        None
    } else {
        match fields.last() {
            envelope::FieldView::Payload { object: Some(kind), .. } => Some(kind),
            _ => last_payload(fields.drop_last()),
        }
    }
}

/// What a record with these fields is to an attachment. Where a key is repeated, every occurrence
/// has to have its type and the last one counts.
pub open spec fn attachment_envelope(fields: Seq<envelope::FieldView>) -> Option<EnvelopeInfoView> {
    if (forall|i: int| 0 <= i < fields.len() ==> well_typed(#[trigger] fields[i])) && (exists|
        i: int,
    |
        0 <= i < fields.len() && (#[trigger] fields[i]) is Timestamp) {
        match (last_kind(fields), last_payload(fields)) {
            (Some(kind), Some(payload)) => Some(
                EnvelopeInfoView {
                    kind,
                    ghost_snapshot: kind == "response_item"@ && payload
                        == (envelope::PayloadKindView::Text { text: "ghost_snapshot"@ }),
                },
            ),
            _ => None,
        }
    } else {
        None
    }
}

/// What a record is to an attachment.
pub open spec fn envelope_info(record: Seq<u8>) -> Option<EnvelopeInfoView> {
    match envelope::envelope_fields(record) {
        Some(fields) => attachment_envelope(fields),
        None => None,
    }
}

proof fn lemma_last_occurrences(fields: Seq<envelope::FieldView>)
    ensures
        last_kind(fields) is Some ==> exists|i: int|
            0 <= i < fields.len() && (#[trigger] fields[i]) is Kind,
        last_payload(fields) is Some ==> exists|i: int|
            0 <= i < fields.len() && (#[trigger] fields[i]) is Payload,
    decreases fields.len(),
{
    if fields.len() > 0 {
        let earlier = fields.drop_last();
        lemma_last_occurrences(earlier);
        assert(fields[fields.len() - 1] == fields.last());
        if last_kind(earlier) is Some {
            let i = choose|i: int| 0 <= i < earlier.len() && (#[trigger] earlier[i]) is Kind;
            assert(fields[i] is Kind);
        }
        if last_payload(earlier) is Some {
            let i = choose|i: int| 0 <= i < earlier.len() && (#[trigger] earlier[i]) is Payload;
            assert(fields[i] is Payload);
        }
    }
}

/// Every record that an attachment recognises has an envelope that is valid in a legacy rollout
/// too.
pub proof fn law_recognised_records_are_envelopes(record: Seq<u8>)
    requires
        envelope_info(record) is Some,
    ensures
        legacy_envelope::is_envelope(record),
{
    let fields = envelope::envelope_fields(record)->Some_0;
    lemma_last_occurrences(fields);
    assert forall|i: int| 0 <= i < fields.len() implies legacy_envelope::loosely_typed(
        #[trigger] fields[i],
    ) by {
        assert(well_typed(fields[i]));
    }
}

/// Whether a payload's own `type` marks a ghost snapshot.
fn marks_ghost_snapshot(payload: &PayloadKind) -> (marked: bool)
    ensures
        marked == (payload@ == (envelope::PayloadKindView::Text { text: "ghost_snapshot"@ })),
{
    match payload {
        PayloadKind::Text { text } => text::same_text(text.as_str(), "ghost_snapshot"),
        _ => false,
    }
}

/// Judges a record by its fields.
pub fn classify_fields(fields: &Vec<EnvelopeField>) -> (info: Option<EnvelopeInfo>)
    ensures
        match info {
            Some(info) => attachment_envelope(envelope::field_views(fields@)) == Some(info@),
            None => attachment_envelope(envelope::field_views(fields@)) is None,
        },
{
    let ghost views = envelope::field_views(fields@);
    let mut timestamp: bool = false;
    let mut kind: Option<String> = None;
    let mut payload: Option<bool> = None;
    let mut i: usize = 0;
    while i < fields.len()
        invariant
            i <= fields@.len(),
            views == envelope::field_views(fields@),
            forall|j: int| 0 <= j < i ==> well_typed(#[trigger] views[j]),
            timestamp == exists|j: int| 0 <= j < i && (#[trigger] views[j]) is Timestamp,
            match kind {
                Some(text) => last_kind(views.take(i as int)) == Some(text@),
                None => last_kind(views.take(i as int)) is None,
            },
            match payload {
                Some(marked) => last_payload(views.take(i as int)) matches Some(seen) && marked == (seen
                    == (envelope::PayloadKindView::Text { text: "ghost_snapshot"@ })),
                None => last_payload(views.take(i as int)) is None,
            },
        decreases fields@.len() - i,
    {
        assert(views.take(i + 1).drop_last() =~= views.take(i as int));
        assert(views.take(i + 1).last() == views[i as int]);
        assert(views[i as int] == fields@[i as int]@);
        match &fields[i] {
            EnvelopeField::Timestamp { is_text } => {
                if !*is_text {
                    assert(!well_typed(views[i as int]));
                    return None;
                }
                timestamp = true;
                assert(views[i as int] is Timestamp);
            },
            EnvelopeField::Kind { text } => {
                match text {
                    Some(text) => {
                        kind = Some(text.clone());
                    },
                    None => {
                        assert(!well_typed(views[i as int]));
                        return None;
                    },
                }
            },
            EnvelopeField::Payload { object, .. } => {
                match object {
                    Some(PayloadKind::Invalid) | None => {
                        assert(!well_typed(views[i as int]));
                        return None;
                    },
                    Some(seen) => {
                        payload = Some(marks_ghost_snapshot(seen));
                    },
                }
            },
            EnvelopeField::Other => {},
        }
        i = i + 1;
    }
    assert(views.take(i as int) =~= views);
    if !timestamp {
        return None;
    }
    match (kind, payload) {
        (Some(kind), Some(marked)) => {
            let ghost_snapshot: bool = marked && text::same_text(kind.as_str(), "response_item");
            Some(EnvelopeInfo { kind, ghost_snapshot })
        },
        _ => None,
    }
}

/// What a record is to an attachment, judged by its envelope alone: payloads are skipped, not
/// copied.
pub fn envelope_kind(line: &[u8]) -> (info: Option<EnvelopeInfo>)
    ensures
        match info {
            Some(info) => envelope_info(line@) == Some(info@),
            None => envelope_info(line@) is None,
        },
{
    match envelope::read_fields(line) {
        Some(fields) => classify_fields(&fields),
        None => None,
    }
}

/// One line of a rollout as a raw reader with a limit returns it.
#[derive(Debug, PartialEq, Eq)]
pub enum RawRolloutLine {
    /// The line with its newline, if it has one.
    Complete(Vec<u8>),
    /// A line longer than the limit, which was read and dropped.
    Oversized { byte_count: usize, terminated: bool },
}

/// [`RawRolloutLine`] with its line as a sequence of bytes.
pub enum RawLineView {
    Complete { line: Seq<u8> },
    Oversized { byte_count: nat, terminated: bool },
}

impl View for RawRolloutLine {
    type V = RawLineView;

    open spec fn view(&self) -> RawLineView {
        match *self {
            RawRolloutLine::Complete(line) => RawLineView::Complete { line: line@ },
            RawRolloutLine::Oversized { byte_count, terminated } => RawLineView::Oversized {
                byte_count: byte_count as nat,
                terminated,
            },
        }
    }
}

impl RawLineView {
    /// How many bytes of the rollout the line takes.
    pub open spec fn byte_count(self) -> nat {
        match self {
            RawLineView::Complete { line } => line.len(),
            RawLineView::Oversized { byte_count, .. } => byte_count,
        }
    }

    /// Whether the line ends at a newline.
    pub open spec fn terminated(self) -> bool {
        match self {
            RawLineView::Complete { line } => line.len() > 0 && line.last() == 10,
            RawLineView::Oversized { terminated, .. } => terminated,
        }
    }
}

/// Whether a complete line of a rollout belongs into an attachment: it is a record, but neither
/// session metadata nor a ghost snapshot.
pub open spec fn is_attached(line: Seq<u8>) -> bool {
    match envelope_info(line) {
        Some(info) => info.kind != "session_meta"@ && !info.ghost_snapshot,
        None => false,
    }
}

/// What one line does to the stream of its rollout.
pub struct StreamStepView {
    /// How much of the rollout has been taken.
    pub offset: int,
    /// What happens to the writer.
    pub event: Option<attachment::AttachmentEvent>,
    /// Whether the rollout has nothing more to give.
    pub stop: bool,
}

/// What a line of a rollout does when `offset` bytes before it were taken and the rollout is cut
/// off at `end`.
pub open spec fn stream_step(end: Option<u64>, offset: int, line: RawLineView) -> StreamStepView {
    let next = if offset + line.byte_count() > u64::MAX {
        u64::MAX as int
    } else {
        offset + line.byte_count()
    };
    if end is Some && next > end->Some_0 {
        StreamStepView { offset, event: None, stop: true }
    } else {
        match line {
            RawLineView::Oversized { terminated, .. } => StreamStepView {
                offset: next,
                event: Some(attachment::AttachmentEvent::LeftOut),
                stop: !terminated || (end is Some && next == end->Some_0),
            },
            RawLineView::Complete { line: bytes } => StreamStepView {
                offset: next,
                event: if line.terminated() && is_attached(bytes) {
                    Some(attachment::AttachmentEvent::Line { line: bytes })
                } else {
                    None
                },
                stop: !line.terminated(),
            },
        }
    }
}

/// What the lines of a rollout do to a writer, from `offset` on.
pub open spec fn stream_events(end: Option<u64>, offset: int, lines: Seq<RawLineView>) -> Seq<
    attachment::AttachmentEvent,
>
    decreases lines.len(),
{
    if lines.len() == 0 {
        Seq::empty()
    } else {
        let step = stream_step(end, offset, lines.first());
        let later = if step.stop {
            Seq::empty()
        } else {
            stream_events(end, step.offset, lines.drop_first())
        };
        match step.event {
            Some(event) => seq![event] + later,
            None => later,
        }
    }
}

/// How many bytes the lines take together.
pub open spec fn lines_len(lines: Seq<RawLineView>) -> nat
    decreases lines.len(),
{
    if lines.len() == 0 {
        0
    } else {
        lines.first().byte_count() + lines_len(lines.drop_first())
    }
}

proof fn lemma_stream_stops_at(end: u64, offset: int, lines: Seq<RawLineView>, kept: int)
    requires
        0 <= offset <= end < u64::MAX,
        0 <= kept < lines.len(),
        offset + lines_len(lines.take(kept + 1)) > end,
    ensures
        stream_events(Some(end), offset, lines) == stream_events(
            Some(end),
            offset,
            lines.take(kept),
        ),
    decreases lines.len(),
{
    let step = stream_step(Some(end), offset, lines.first());
    let rest = lines.drop_first();
    assert(lines.take(kept + 1).first() == lines.first());
    assert(lines.take(kept + 1).drop_first() =~= rest.take(kept));
    if kept == 0 {
        assert(lines_len(rest.take(0)) == 0);
        assert(step.stop && step.event is None);
        assert(stream_events(Some(end), offset, lines) =~= Seq::empty());
        assert(stream_events(Some(end), offset, lines.take(0)) =~= Seq::empty());
    } else {
        assert(lines.take(kept).first() == lines.first());
        assert(lines.take(kept).drop_first() =~= rest.take(kept - 1));
        if !step.stop {
            lemma_stream_stops_at(end, step.offset, rest, kept - 1);
        }
    }
}

/// A line that does not end at or before the cutoff of its rollout leaves no trace in the
/// attachment, nor does anything behind it: not as a line, and not as something left out.
pub proof fn law_nothing_behind_the_cutoff(end: u64, lines: Seq<RawLineView>, kept: int)
    requires
        end < u64::MAX,
        0 <= kept < lines.len(),
        lines_len(lines.take(kept + 1)) > end,
    ensures
        stream_events(Some(end), 0, lines) == stream_events(Some(end), 0, lines.take(kept)),
{
    lemma_stream_stops_at(end, 0, lines, kept);
}

/// Whether the line at `j` is this complete line, and ends at or before the cutoff.
pub open spec fn holds_line(
    end: Option<u64>,
    lines: Seq<RawLineView>,
    line: Seq<u8>,
    j: int,
) -> bool {
    &&& 0 <= j < lines.len()
    &&& lines[j] == (RawLineView::Complete { line })
    &&& end matches Some(end) ==> lines_len(lines.take(j + 1)) <= end
}

/// Whether the offsets of the lines can be told from each other up to the cutoff: only a cutoff at
/// the greatest offset asks that they fit.
pub open spec fn countable(end: Option<u64>, lines: Seq<RawLineView>) -> bool {
    end == Some(u64::MAX) ==> lines_len(lines) <= u64::MAX
}

proof fn lemma_attached_line(end: Option<u64>, offset: int, lines: Seq<RawLineView>, i: int) -> (j:
    int)
    requires
        0 <= offset,
        0 <= i < stream_events(end, offset, lines).len(),
        end == Some(u64::MAX) ==> offset + lines_len(lines) <= u64::MAX,
    ensures
        stream_events(end, offset, lines)[i] matches attachment::AttachmentEvent::Line { line }
            ==> {
            &&& 0 <= j < lines.len()
            &&& lines[j] == (RawLineView::Complete { line })
            &&& end matches Some(end) ==> offset + lines_len(lines.take(j + 1)) <= end
            &&& line.len() > 0 && line.last() == 10
            &&& is_attached(line)
        },
    decreases lines.len(),
{
    let step = stream_step(end, offset, lines.first());
    let skipped: int = if step.event is Some { 1 } else { 0 };
    let rest = lines.drop_first();
    assert(lines[0] == lines.first());
    if i < skipped {
        assert(lines.take(1).first() == lines.first());
        assert(lines_len(lines.take(1).drop_first()) == 0);
        0
    } else {
        let j = lemma_attached_line(end, step.offset, rest, i - skipped);
        let event = stream_events(end, step.offset, rest)[i - skipped];
        assert(stream_events(end, offset, lines)[i] == event);
        if event is Line {
            assert(lines[j + 1] == rest[j]);
            assert(lines.take(j + 2).first() == lines.first());
            assert(lines.take(j + 2).drop_first() =~= rest.take(j + 1));
        }
        j + 1
    }
}

/// Every line that reaches the attachment is a complete line of the rollout, ends at a newline, at
/// or before the cutoff, and is a record that is neither session metadata nor a ghost snapshot.
pub proof fn law_only_records_are_attached(end: Option<u64>, lines: Seq<RawLineView>, i: int)
    requires
        0 <= i < stream_events(end, 0, lines).len(),
        countable(end, lines),
    ensures
        stream_events(end, 0, lines)[i] matches attachment::AttachmentEvent::Line { line } ==> {
            &&& exists|j: int| #[trigger] holds_line(end, lines, line, j)
            &&& line.len() > 0 && line.last() == 10
            &&& is_attached(line)
        },
{
    let j = lemma_attached_line(end, 0, lines, i);
    if let attachment::AttachmentEvent::Line { line } = stream_events(end, 0, lines)[i] {
        assert(holds_line(end, lines, line, j));
    }
}

/// One rollout of a lineage: its lines, and where it is cut off.
pub struct SegmentLines {
    pub end: Option<u64>,
    pub lines: Seq<RawLineView>,
}

/// What the rollouts of a lineage, one after the other, do to a writer.
pub open spec fn lineage_events(segments: Seq<SegmentLines>) -> Seq<attachment::AttachmentEvent>
    decreases segments.len(),
{
    if segments.len() == 0 {
        Seq::empty()
    } else {
        lineage_events(segments.drop_last()) + stream_events(
            segments.last().end,
            0,
            segments.last().lines,
        )
    }
}

/// Whether a line is a record of one of the rollouts that belongs into their attachment: it ends at
/// or before the cutoff of its rollout.
pub open spec fn is_attached_record(segments: Seq<SegmentLines>, line: Seq<u8>) -> bool {
    is_attached(line) && exists|k: int, j: int|
        0 <= k < segments.len() && #[trigger] holds_line(
            segments[k].end,
            segments[k].lines,
            line,
            j,
        )
}

/// Whether the offsets of every rollout can be told from each other up to its cutoff.
pub open spec fn all_countable(segments: Seq<SegmentLines>) -> bool {
    forall|k: int|
        0 <= k < segments.len() ==> countable((#[trigger] segments[k]).end, segments[k].lines)
}

proof fn lemma_lineage_events(segments: Seq<SegmentLines>, i: int)
    requires
        0 <= i < lineage_events(segments).len(),
        all_countable(segments),
    ensures
        lineage_events(segments)[i] matches attachment::AttachmentEvent::Line { line }
            ==> line.len() > 0 && line.last() == 10 && is_attached_record(segments, line),
    decreases segments.len(),
{
    let past = segments.drop_last();
    let earlier = lineage_events(past);
    let last = segments.last();
    assert(segments[segments.len() - 1] == last);
    assert forall|k: int| 0 <= k < past.len() implies countable(
        (#[trigger] past[k]).end,
        past[k].lines,
    ) by {
        assert(segments[k] == past[k]);
    }
    if i < earlier.len() {
        lemma_lineage_events(past, i);
        if let attachment::AttachmentEvent::Line { line } = earlier[i] {
            let (k, j) = choose|k: int, j: int|
                0 <= k < past.len() && #[trigger] holds_line(past[k].end, past[k].lines, line, j);
            assert(segments[k] == past[k]);
            assert(holds_line(segments[k].end, segments[k].lines, line, j));
        }
    } else {
        law_only_records_are_attached(last.end, last.lines, i - earlier.len());
        let event = stream_events(last.end, 0, last.lines)[i - earlier.len()];
        if let attachment::AttachmentEvent::Line { line } = event {
            let j = choose|j: int| #[trigger] holds_line(last.end, last.lines, line, j);
            let k = segments.len() - 1;
            assert(holds_line(segments[k].end, segments[k].lines, line, j));
        }
    }
}

/// Every line of the attachment of a lineage is its header, or a complete record of one of its
/// rollouts that ends at or before the cutoff of that rollout, and is neither session metadata nor
/// a ghost snapshot.
pub proof fn law_attachment_of_lineage(
    max_bytes: nat,
    header: Seq<u8>,
    segments: Seq<SegmentLines>,
    i: int,
)
    requires
        ({
            let run = attachment::attachment_run(max_bytes, attachment_events(header, segments));
            0 <= i < run.head.len() + run.writer.tail.len()
        }),
        all_countable(segments),
    ensures
        ({
            let run = attachment::attachment_run(max_bytes, attachment_events(header, segments));
            let line = (run.head + run.writer.tail)[i];
            line == attachment::terminated_line(header) || is_attached_record(segments, line)
        }),
{
    let first = attachment::AttachmentEvent::Line { line: header };
    let events = attachment_events(header, segments);
    let run = attachment::attachment_run(max_bytes, events);
    let lines = attachment::lines_that_fit(max_bytes, events);
    attachment::law_attachment_keeps_head_and_tail(max_bytes, events);
    let line = (run.head + run.writer.tail)[i];
    let at: int = if i < run.head.len() {
        i
    } else {
        lines.len() - run.writer.tail.len() + i - run.head.len()
    };
    assert(lines[at] == line);
    let k = attachment::law_attachment_invents_nothing(max_bytes, events, at);
    if k > 0 {
        assert(events[k] == lineage_events(segments)[k - 1]);
        lemma_lineage_events(segments, k - 1);
    }
}

/// A request for the logical attachment of a thread, whose size limit was accepted.
#[derive(Debug)]
pub struct AttachmentRequest {
    thread_id: ThreadId,
    include_archived: bool,
    max_bytes: usize,
}

/// A request that holds guards on its thread. They are taken before the rollout is looked for, so
/// that it can be neither moved nor removed before it is read, and stay to the end.
#[derive(Debug)]
pub struct ReservedAttachment<G> {
    thread_id: ThreadId,
    include_archived: bool,
    max_bytes: usize,
    guards: G,
}

/// A request whose rollout may be read.
#[derive(Debug)]
pub struct LocatedAttachment<G> {
    thread_id: ThreadId,
    max_bytes: usize,
    guards: G,
}

/// How a request goes on once the metadata of its rollout is known.
#[derive(Debug)]
pub enum AttachmentRoute<G> {
    /// The thread has a history of its own: there is no logical attachment.
    NotReference,
    /// The lines of the thread's lineage are streamed through this writer, header first.
    Stream { writer: AttachmentWriter, guards: G },
}

impl AttachmentRequest {
    /// The thread that the request is about.
    pub closed spec fn thread_id(&self) -> ThreadId {
        self.thread_id
    }

    /// Whether an archived thread will do.
    pub closed spec fn include_archived(&self) -> bool {
        self.include_archived
    }

    /// The largest size of the attachment.
    pub closed spec fn max_bytes(&self) -> usize {
        self.max_bytes
    }

    /// Accepts a request with a positive size limit.
    pub fn new(thread_id: ThreadId, include_archived: bool, max_bytes: usize) -> (request:
        ThreadStoreResult<Self>)
        ensures
            match request {
                Ok(request) => {
                    &&& max_bytes > 0
                    &&& request.thread_id() == thread_id
                    &&& request.include_archived() == include_archived
                    &&& request.max_bytes() == max_bytes
                },
                Err(error) => max_bytes == 0 && error@ == (
                crate::error::ErrorView::InvalidRequest {
                    message: "reference logical attachment max_bytes must be positive"@,
                }),
            },
    {
        if max_bytes == 0 {
            return Err(
                ThreadStoreError::InvalidRequest {
                    message: "reference logical attachment max_bytes must be positive".to_owned(),
                },
            );
        }
        Ok(AttachmentRequest { thread_id, include_archived, max_bytes })
    }

    /// Goes on with guards on the thread.
    pub fn reserved<G>(self, guards: G) -> (reserved: ReservedAttachment<G>)
        ensures
            reserved.thread_id() == self.thread_id(),
            reserved.include_archived() == self.include_archived(),
            reserved.max_bytes() == self.max_bytes(),
            reserved.guards() == guards,
    {
        ReservedAttachment {
            thread_id: self.thread_id,
            include_archived: self.include_archived,
            max_bytes: self.max_bytes,
            guards,
        }
    }
}

impl<G> ReservedAttachment<G> {
    /// The thread that the request is about.
    pub closed spec fn thread_id(&self) -> ThreadId {
        self.thread_id
    }

    /// Whether an archived thread will do.
    pub closed spec fn include_archived(&self) -> bool {
        self.include_archived
    }

    /// The largest size of the attachment.
    pub closed spec fn max_bytes(&self) -> usize {
        self.max_bytes
    }

    /// The guards on the thread.
    pub closed spec fn guards(&self) -> G {
        self.guards
    }

    /// The rollout that was found for the thread.
    pub fn located<P>(&self, rollout: Option<P>) -> (found: ThreadStoreResult<P>)
        ensures
            match rollout {
                Some(rollout) => found matches Ok(path) && path == rollout,
                None => found matches Err(error) && error@ == (
                crate::error::ErrorView::ThreadNotFound { thread_id: self.thread_id() }),
            },
    {
        match rollout {
            Some(rollout) => Ok(rollout),
            None => Err(ThreadStoreError::ThreadNotFound { thread_id: self.thread_id }),
        }
    }

    /// Goes on with a rollout that is not archived, or one that is if that was asked for.
    pub fn with_source(self, archived: bool) -> (result: ThreadStoreResult<LocatedAttachment<G>>)
        ensures
            match result {
                Ok(located) => {
                    &&& !archived || self.include_archived()
                    &&& located.thread_id() == self.thread_id()
                    &&& located.max_bytes() == self.max_bytes()
                    &&& located.guards() == self.guards()
                },
                Err(error) => archived && !self.include_archived() && error@ == (
                crate::error::ErrorView::InvalidRequest {
                    message: "thread "@ + self.thread_id().text() + " is archived"@,
                }),
            },
    {
        if archived && !self.include_archived {
            return Err(
                ThreadStoreError::InvalidRequest {
                    message: text::join3(
                        "thread ",
                        self.thread_id.to_text().as_str(),
                        " is archived",
                    ),
                },
            );
        }
        Ok(
            LocatedAttachment {
                thread_id: self.thread_id,
                max_bytes: self.max_bytes,
                guards: self.guards,
            },
        )
    }
}

impl<G> LocatedAttachment<G> {
    /// The thread that the request is about.
    pub closed spec fn thread_id(&self) -> ThreadId {
        self.thread_id
    }

    /// The largest size of the attachment.
    pub closed spec fn max_bytes(&self) -> usize {
        self.max_bytes
    }

    /// The guards on the thread.
    pub closed spec fn guards(&self) -> G {
        self.guards
    }

    /// Decides by the metadata of the rollout at `path`: whose it is, and whether it refers to
    /// another history.
    pub fn route(self, path: &str, owner: ThreadId, has_history_base: bool) -> (route:
        ThreadStoreResult<AttachmentRoute<G>>)
        ensures
            match route {
                Ok(AttachmentRoute::NotReference) => owner == self.thread_id()
                    && !has_history_base,
                Ok(AttachmentRoute::Stream { writer, guards }) => {
                    &&& owner == self.thread_id()
                    &&& has_history_base
                    &&& writer.wf()
                    &&& writer@ == attachment::AttachmentView::empty(self.max_bytes() as nat)
                    &&& guards == self.guards()
                },
                Err(error) => owner != self.thread_id() && error@ == (
                crate::error::ErrorView::InvalidRequest {
                    message: "rollout "@ + path@ + " belongs to thread "@ + owner.text() + ", not "@
                        + self.thread_id().text(),
                }),
            },
    {
        if owner != self.thread_id {
            let message: String = text::join3("rollout ", path, " belongs to thread ").concat(
                owner.to_text().as_str(),
            ).concat(", not ").concat(self.thread_id.to_text().as_str());
            return Err(ThreadStoreError::InvalidRequest { message });
        }
        if !has_history_base {
            return Ok(AttachmentRoute::NotReference);
        }
        Ok(
            AttachmentRoute::Stream {
                writer: AttachmentWriter::new(self.max_bytes),
                guards: self.guards,
            },
        )
    }
}

proof fn lemma_record_is_attached(
    end: Option<u64>,
    offset: int,
    lines: Seq<RawLineView>,
    k: int,
)
    requires
        0 <= offset,
        0 <= k < lines.len(),
        offset + lines_len(lines.take(k + 1)) <= u64::MAX,
        end matches Some(end) ==> offset + lines_len(lines.take(k + 1)) <= end,
        forall|j: int| 0 <= j <= k ==> (#[trigger] lines[j]).terminated(),
        lines[k] matches RawLineView::Complete { line } && is_attached(line),
    ensures
        stream_events(end, offset, lines).contains(
            attachment::AttachmentEvent::Line { line: lines[k]->line },
        ),
    decreases lines.len(),
{
    let step = stream_step(end, offset, lines.first());
    let rest = lines.drop_first();
    let wanted = attachment::AttachmentEvent::Line { line: lines[k]->line };
    assert(lines.take(k + 1).first() == lines.first());
    assert(lines.take(k + 1).drop_first() =~= rest.take(k));
    assert(lines[0].terminated());
    if k == 0 {
        assert(stream_events(end, offset, lines)[0] == wanted);
    } else {
        assert(rest[k - 1] == lines[k]);
        assert forall|j: int| 0 <= j <= k - 1 implies (#[trigger] rest[j]).terminated() by {
            assert(rest[j] == lines[j + 1]);
        }
        lemma_lines_len_positive(rest, k - 1);
        lemma_record_is_attached(end, step.offset, rest, k - 1);
        let later = stream_events(end, step.offset, rest);
        let i = choose|i: int| 0 <= i < later.len() && later[i] == wanted;
        if step.event is Some {
            assert(stream_events(end, offset, lines)[i + 1] == wanted);
        } else {
            assert(stream_events(end, offset, lines)[i] == wanted);
        }
    }
}

proof fn lemma_lines_len_positive(lines: Seq<RawLineView>, k: int)
    requires
        0 <= k < lines.len(),
        lines[k].byte_count() > 0,
    ensures
        lines_len(lines.take(k + 1)) > 0,
    decreases k,
{
    assert(lines.take(k + 1).first() == lines.first());
    assert(lines.take(k + 1).drop_first() =~= lines.drop_first().take(k));
    if k > 0 {
        lemma_lines_len_positive(lines.drop_first(), k - 1);
    }
}

/// No record is lost on the way: a record that belongs into the attachment reaches it if it ends at
/// or before the cutoff of its rollout, and every line up to it ends at a newline.
pub proof fn law_every_record_before_the_cutoff_is_attached(
    end: Option<u64>,
    lines: Seq<RawLineView>,
    k: int,
)
    requires
        0 <= k < lines.len(),
        lines_len(lines.take(k + 1)) <= u64::MAX,
        end matches Some(end) ==> lines_len(lines.take(k + 1)) <= end,
        forall|j: int| 0 <= j <= k ==> (#[trigger] lines[j]).terminated(),
        lines[k] matches RawLineView::Complete { line } && is_attached(line),
    ensures
        stream_events(end, 0, lines).contains(
            attachment::AttachmentEvent::Line { line: lines[k]->line },
        ),
{
    lemma_record_is_attached(end, 0, lines, k);
}

/// What came of one line of a rollout.
#[derive(Debug)]
pub struct StreamStep {
    /// What is to be written of it now.
    pub action: LineAction,
    /// Whether the rollout has nothing more to give.
    pub stop: bool,
}

/// The lines of one rollout on their way into an attachment.
#[derive(Debug)]
pub struct SegmentStream {
    end: Option<u64>,
    offset: u64,
}

impl SegmentStream {
    /// Where the rollout is cut off.
    pub closed spec fn end(&self) -> Option<u64> {
        self.end
    }

    /// How much of the rollout has been taken.
    pub closed spec fn offset(&self) -> int {
        self.offset as int
    }

    /// A rollout from its start, up to `end_byte_offset` if it is cut off.
    pub fn new(end_byte_offset: Option<u64>) -> (stream: Self)
        ensures
            stream.end() == end_byte_offset,
            stream.offset() == 0,
    {
        SegmentStream { end: end_byte_offset, offset: 0 }
    }

    /// Takes the next line of the rollout and hands it to the writer where it belongs there.
    pub fn accept(&mut self, record: RawRolloutLine, writer: &mut AttachmentWriter) -> (step:
        StreamStep)
        requires
            old(writer).wf(),
        ensures
            final(writer).wf(),
            final(self).end() == old(self).end(),
            ({
                let expected = stream_step(old(self).end(), old(self).offset(), record@);
                &&& final(self).offset() == expected.offset
                &&& step.stop == expected.stop
                &&& final(writer)@ == (match expected.event {
                    Some(event) => old(writer)@.after(event),
                    None => old(writer)@,
                })
                &&& match step.action {
                    LineAction::Write { line: written } => {
                        &&& expected.event matches Some(
                            attachment::AttachmentEvent::Line { line },
                        )
                        &&& old(writer)@.writes(line)
                        &&& written@ == attachment::terminated_line(line)
                    },
                    LineAction::Keep => expected.event matches Some(
                        attachment::AttachmentEvent::Line { line },
                    ) ==> !old(writer)@.writes(line),
                }
            }),
    {
        let byte_count: usize = match &record {
            RawRolloutLine::Complete(line) => line.len(),
            RawRolloutLine::Oversized { byte_count, .. } => *byte_count,
        };
        let count: u64 = byte_count as u64;
        let next_offset: u64 = if count > u64::MAX - self.offset {
            u64::MAX
        } else {
            self.offset + count
        };
        if let Some(end) = self.end {
            if next_offset > end {
                return StreamStep { action: LineAction::Keep, stop: true };
            }
        }
        self.offset = next_offset;
        match record {
            RawRolloutLine::Oversized { terminated, .. } => {
                writer.mark_truncated();
                let at_end: bool = match self.end {
                    Some(end) => next_offset == end,
                    None => false,
                };
                StreamStep { action: LineAction::Keep, stop: !terminated || at_end }
            },
            RawRolloutLine::Complete(line) => {
                let len: usize = line.len();
                if len == 0 || line[len - 1] != 10 {
                    return StreamStep { action: LineAction::Keep, stop: true };
                }
                let attached: bool = match envelope_kind(line.as_slice()) {
                    Some(info) => !text::same_text(info.kind.as_str(), "session_meta")
                        && !info.ghost_snapshot,
                    None => false,
                };
                if attached {
                    StreamStep { action: writer.push_line(line.as_slice()), stop: false }
                } else {
                    StreamStep { action: LineAction::Keep, stop: false }
                }
            },
        }
    }
}

/// How much of a rollout has been taken after these lines, from `offset` on, unless the rollout has
/// nothing more to give.
pub open spec fn stream_at(end: Option<u64>, offset: int, lines: Seq<RawLineView>) -> Option<int>
    decreases lines.len(),
{
    if lines.len() == 0 {
        Some(offset)
    } else {
        let step = stream_step(end, offset, lines.first());
        if step.stop {
            None
        } else {
            stream_at(end, step.offset, lines.drop_first())
        }
    }
}

/// What one more line does to a writer.
spec fn events_of(step: StreamStepView) -> Seq<attachment::AttachmentEvent> {
    match step.event {
        Some(event) => seq![event],
        None => Seq::empty(),
    }
}

proof fn lemma_stream_goes_on(
    end: Option<u64>,
    offset: int,
    lines: Seq<RawLineView>,
    line: RawLineView,
    at: int,
)
    requires
        stream_at(end, offset, lines) == Some(at),
    ensures
        stream_events(end, offset, lines.push(line)) == stream_events(end, offset, lines)
            + events_of(stream_step(end, at, line)),
        stream_at(end, offset, lines.push(line)) == (if stream_step(end, at, line).stop {
            None
        } else {
            Some(stream_step(end, at, line).offset)
        }),
    decreases lines.len(),
{
    let longer = lines.push(line);
    if lines.len() == 0 {
        assert(longer.first() == line);
        let step = stream_step(end, offset, line);
        let none = longer.drop_first();
        assert(none.len() == 0);
        assert(stream_events(end, step.offset, none) == Seq::<
            attachment::AttachmentEvent,
        >::empty());
        assert(stream_at(end, step.offset, none) == Some(step.offset));
        assert(stream_events(end, offset, lines).len() == 0);
        assert(stream_events(end, offset, longer) =~= stream_events(end, offset, lines)
            + events_of(step));
    } else {
        let step = stream_step(end, offset, lines.first());
        assert(longer.first() == lines.first());
        assert(longer.drop_first() =~= lines.drop_first().push(line));
        lemma_stream_goes_on(end, step.offset, lines.drop_first(), line, at);
        assert(stream_events(end, offset, longer) =~= stream_events(end, offset, lines)
            + events_of(stream_step(end, at, line)));
    }
}

/// Where a segment of a lineage is cut off in its rollout.
pub open spec fn cutoff_of(segment: RolloutLineageSegment) -> Option<u64> {
    match segment.end {
        Some(end) => Some(end.end_byte_offset),
        None => None,
    }
}

/// What is done to a writer by its header and then by the rollouts of a lineage.
pub open spec fn attachment_events(header: Seq<u8>, segments: Seq<SegmentLines>) -> Seq<
    attachment::AttachmentEvent,
> {
    seq![attachment::AttachmentEvent::Line { line: header }] + lineage_events(segments)
}

/// The lines that were to be written, after one more action.
pub open spec fn head_after(head: Seq<Seq<u8>>, action: LineAction) -> Seq<Seq<u8>> {
    match action {
        LineAction::Write { line } => head.push(line@),
        LineAction::Keep => head,
    }
}

/// The attachment of a lineage under way: its header first, then the lines of its rollouts from the
/// first one to the last, each up to its own cutoff.
pub struct LineageAttachment {
    writer: AttachmentWriter,
    stream: SegmentStream,
    open: bool,
    next: usize,
    header: Ghost<Seq<u8>>,
    segments: Ghost<Seq<SegmentLines>>,
    head: Ghost<Seq<Seq<u8>>>,
}

impl LineageAttachment {
    /// The line that describes the session.
    pub closed spec fn header(&self) -> Seq<u8> {
        self.header@
    }

    /// The rollouts so far, with the lines that were taken of each.
    pub closed spec fn segments(&self) -> Seq<SegmentLines> {
        self.segments@
    }

    /// The lines that were to be written so far.
    pub closed spec fn head(&self) -> Seq<Seq<u8>> {
        self.head@
    }

    /// What the writer has done.
    pub closed spec fn writer(&self) -> attachment::AttachmentView {
        self.writer@
    }

    /// Whether the current rollout may have more to give.
    pub closed spec fn is_open(&self) -> bool {
        self.open
    }

    /// What every attachment keeps apart from what it has done.
    pub closed spec fn is_tracked(&self) -> bool {
        &&& self.writer.wf()
        &&& self.next == self.segments@.len()
        &&& self.open ==> {
            &&& self.segments@.len() > 0
            &&& self.stream.end() == self.segments@.last().end
            &&& stream_at(self.segments@.last().end, 0, self.segments@.last().lines) == Some(
                self.stream.offset(),
            )
        }
    }

    /// What every attachment keeps: it has done what the header and the lines of the rollouts, in
    /// this order, do to a new writer.
    pub open spec fn wf(&self) -> bool {
        &&& self.is_tracked()
        &&& (attachment::AttachmentRun { writer: self.writer(), head: self.head() })
            == attachment::attachment_run(
            self.writer().max_bytes,
            attachment_events(self.header(), self.segments()),
        )
    }

    /// Whether the rollouts so far are the first ones of this lineage, each with its own cutoff.
    pub open spec fn follows(&self, lineage: Seq<RolloutLineageSegment>) -> bool {
        &&& self.segments().len() <= lineage.len()
        &&& forall|i: int|
            0 <= i < self.segments().len() ==> (#[trigger] self.segments()[i]).end == cutoff_of(
                lineage[i],
            )
    }

    /// Starts with the line that describes the session, and gives the line to be written first.
    pub fn new(writer: AttachmentWriter, header: &[u8]) -> (started: ThreadStoreResult<
        (Self, Vec<u8>),
    >)
        requires
            writer.wf(),
            writer@ == attachment::AttachmentView::empty(writer@.max_bytes),
        ensures
            match started {
                Ok((this, first)) => {
                    &&& attachment::terminated_line(header@).len() <= writer@.head_budget()
                    &&& first@ == attachment::terminated_line(header@)
                    &&& this.wf()
                    &&& this.header() == header@
                    &&& this.writer().max_bytes == writer@.max_bytes
                    &&& this.segments().len() == 0
                    &&& this.head() == seq![first@]
                    &&& !this.is_open()
                },
                Err(error) => {
                    &&& attachment::terminated_line(header@).len() > writer@.head_budget()
                    &&& error@ == (crate::error::ErrorView::InvalidRequest {
                        message: "logical reference SessionMeta exceeds attachment head budget"@,
                    })
                },
            },
    {
        let ghost max_bytes = writer@.max_bytes;
        let mut writer: AttachmentWriter = writer;
        let first: Vec<u8> = match writer.push_header_line(header) {
            Ok(LineAction::Write { line }) => line,
            Ok(LineAction::Keep) => {
                assert(false);
                Vec::new()
            },
            Err(error) => {
                return Err(error);
            },
        };
        let ghost head = seq![first@];
        let this = LineageAttachment {
            writer,
            stream: SegmentStream::new(None),
            open: false,
            next: 0,
            header: Ghost(header@),
            segments: Ghost(Seq::empty()),
            head: Ghost(head),
        };
        proof {
            let events = attachment_events(header@, Seq::empty());
            assert(events =~= seq![attachment::AttachmentEvent::Line { line: header@ }]);
            let none = attachment::attachment_run(max_bytes, events.drop_last());
            assert(events.drop_last().len() == 0);
            assert(none.writer == attachment::AttachmentView::empty(max_bytes));
            assert(none.head.push(first@) =~= head);
        }
        Ok((this, first))
    }

    /// The largest size of the attachment.
    pub fn max_bytes(&self) -> (max_bytes: usize)
        ensures
            max_bytes == self.writer().max_bytes,
    {
        self.writer.max_bytes()
    }

    /// Goes on with the next rollout of the lineage, unless none is left: the rollout at this index
    /// is to be read from its start.
    pub fn next_segment(&mut self, lineage: &RolloutLineage) -> (segment: Option<usize>)
        requires
            old(self).wf(),
            old(self).follows(lineage@),
        ensures
            final(self).wf(),
            final(self).follows(lineage@),
            final(self).header() == old(self).header(),
            final(self).head() == old(self).head(),
            final(self).writer() == old(self).writer(),
            match segment {
                Some(index) => {
                    &&& index < lineage@.len()
                    &&& index == old(self).segments().len()
                    &&& final(self).is_open()
                    &&& final(self).segments() == old(self).segments().push(
                        SegmentLines { end: cutoff_of(lineage@[index as int]), lines: Seq::empty() },
                    )
                },
                None => {
                    &&& old(self).segments().len() == lineage@.len()
                    &&& !final(self).is_open()
                    &&& final(self).segments() == old(self).segments()
                },
            },
    {
        let index: usize = self.next;
        if index >= lineage.segments().len() {
            self.open = false;
            return None;
        }
        let end: Option<u64> = match lineage.segments()[index].end {
            Some(end) => Some(end.end_byte_offset),
            None => None,
        };
        let ghost before = self.segments@;
        let ghost added = SegmentLines { end, lines: Seq::empty() };
        self.stream = SegmentStream::new(end);
        self.open = true;
        self.next = index + 1;
        self.segments = Ghost(before.push(added));
        proof {
            assert(self.segments@.drop_last() =~= before);
            assert(lineage_events(self.segments@) =~= lineage_events(before));
        }
        Some(index)
    }

    /// Takes the next line of the current rollout.
    pub fn accept(&mut self, record: RawRolloutLine) -> (step: StreamStep)
        requires
            old(self).wf(),
            old(self).is_open(),
        ensures
            final(self).wf(),
            final(self).header() == old(self).header(),
            final(self).writer().max_bytes == old(self).writer().max_bytes,
            final(self).is_open() == !step.stop,
            old(self).segments().len() > 0,
            final(self).segments() == old(self).segments().drop_last().push(
                SegmentLines {
                    end: old(self).segments().last().end,
                    lines: old(self).segments().last().lines.push(record@),
                },
            ),
            final(self).head() == head_after(old(self).head(), step.action),
            step.stop == (stream_at(
                old(self).segments().last().end,
                0,
                old(self).segments().last().lines.push(record@),
            ) is None),
            forall|lineage: Seq<RolloutLineageSegment>| #[trigger]
                old(self).follows(lineage) ==> final(self).follows(lineage),
    {
        let ghost before = *self;
        let ghost line = record@;
        let ghost past = self.segments@.drop_last();
        let ghost last = self.segments@.last();
        let ghost longer = SegmentLines { end: last.end, lines: last.lines.push(line) };
        let ghost at = self.stream.offset();
        let step: StreamStep = self.stream.accept(record, &mut self.writer);
        self.open = !step.stop;
        self.segments = Ghost(past.push(longer));
        let ghost head = head_after(before.head@, step.action);
        self.head = Ghost(head);
        proof {
            let view = stream_step(last.end, at, line);
            lemma_stream_goes_on(last.end, 0, last.lines, line, at);
            assert(self.segments@.drop_last() =~= past);
            assert(self.segments@.len() == before.segments@.len());
            let old_events = attachment_events(before.header@, before.segments@);
            let new_events = attachment_events(before.header@, self.segments@);
            assert(new_events =~= old_events + events_of(view));
            if view.event is Some {
                assert(new_events.drop_last() =~= old_events);
                assert(new_events.last() == view.event->Some_0);
            } else {
                assert(new_events =~= old_events);
            }
            assert forall|lineage: Seq<RolloutLineageSegment>| #[trigger]
                before.follows(lineage) implies self.follows(lineage) by {
                assert forall|i: int| 0 <= i < self.segments().len() implies (
                #[trigger] self.segments()[i]).end == cutoff_of(lineage[i]) by {
                    assert(before.segments()[i].end == cutoff_of(lineage[i]));
                }
            }
        }
        step
    }

    /// Ends the attachment once every rollout of the lineage has been taken.
    pub fn finish(self, lineage: &RolloutLineage) -> (end: AttachmentEnd)
        requires
            self.wf(),
            self.follows(lineage@),
            self.segments().len() == lineage@.len(),
        ensures
            ({
                let run = attachment::attachment_run(
                    self.writer().max_bytes,
                    attachment_events(self.header(), self.segments()),
                );
                &&& self.head() == run.head
                &&& attachment::line_views(end.tail@) == run.writer.tail
                &&& end.truncated == run.writer.truncated
            }),
    {
        self.writer.finish()
    }
}

/// Whether the field at `i` is the last one of its sort.
spec fn is_last_kind(fields: Seq<envelope::FieldView>, i: int) -> bool {
    &&& 0 <= i < fields.len()
    &&& fields[i] is Kind
    &&& forall|j: int| i < j < fields.len() ==> (#[trigger] fields[j]) !is Kind
}

spec fn is_last_payload(fields: Seq<envelope::FieldView>, i: int) -> bool {
    &&& 0 <= i < fields.len()
    &&& fields[i] is Payload
    &&& forall|j: int| i < j < fields.len() ==> (#[trigger] fields[j]) !is Payload
}

proof fn lemma_last_kind(fields: Seq<envelope::FieldView>, i: int)
    requires
        is_last_kind(fields, i),
        fields[i]->text is Some,
    ensures
        last_kind(fields) == fields[i]->text,
    decreases fields.len(),
{
    let earlier = fields.drop_last();
    assert(fields[fields.len() - 1] == fields.last());
    if i < fields.len() - 1 {
        assert(forall|j: int| 0 <= j < earlier.len() ==> earlier[j] == #[trigger] fields[j]);
        assert forall|j: int| i < j < earlier.len() implies (#[trigger] earlier[j]) !is Kind by {
            assert(fields[j] !is Kind);
        }
        lemma_last_kind(earlier, i);
    }
}

proof fn lemma_last_payload(fields: Seq<envelope::FieldView>, i: int)
    requires
        is_last_payload(fields, i),
        fields[i]->object is Some,
    ensures
        last_payload(fields) == fields[i]->object,
    decreases fields.len(),
{
    let earlier = fields.drop_last();
    assert(fields[fields.len() - 1] == fields.last());
    if i < fields.len() - 1 {
        assert(forall|j: int| 0 <= j < earlier.len() ==> earlier[j] == #[trigger] fields[j]);
        assert forall|j: int| i < j < earlier.len() implies (#[trigger] earlier[j]) !is Payload by {
            assert(fields[j] !is Payload);
        }
        lemma_last_payload(earlier, i);
    }
}

/// Whether a field is one that an attachment can read: a `timestamp` or a `type` that is a string,
/// whatever its characters, a `payload` that is an object whose own `type`, where it has one, is a
/// string, or any other member.
pub open spec fn is_readable(field: envelope::FieldView) -> bool {
    &&& field matches envelope::FieldView::Timestamp { is_text } ==> is_text
    &&& field matches envelope::FieldView::Kind { text } ==> text is Some
    &&& field matches envelope::FieldView::Payload { object, .. } ==> object is Some
        && object != Some(envelope::PayloadKindView::Invalid)
}

/// What a record is to an attachment, by its fields: of the kind that its last `type` says,
/// whatever that is, and a ghost snapshot exactly where that kind is `response_item` and the `type`
/// of its last payload is `ghost_snapshot`.
pub proof fn law_last_type_and_payload_decide(
    fields: &Vec<EnvelopeField>,
    info: Option<EnvelopeInfo>,
    t: int,
    k: int,
    p: int,
)
    requires
        call_ensures(classify_fields, (fields,), info),
        forall|i: int| 0 <= i < fields@.len() ==> is_readable((#[trigger] fields@[i])@),
        0 <= t < fields@.len(),
        fields@[t]@ is Timestamp,
        0 <= k < fields@.len(),
        fields@[k]@ is Kind,
        forall|i: int| k < i < fields@.len() ==> (#[trigger] fields@[i])@ !is Kind,
        0 <= p < fields@.len(),
        fields@[p]@ is Payload,
        forall|i: int| p < i < fields@.len() ==> (#[trigger] fields@[i])@ !is Payload,
    ensures
        info matches Some(info) && Some(info.kind@) == fields@[k]@->text && (info.ghost_snapshot
            <==> info.kind@ == "response_item"@ && fields@[p]@->object == Some(
            envelope::PayloadKindView::Text { text: "ghost_snapshot"@ },
        )),
{
    let views = envelope::field_views(fields@);
    assert(views.len() == fields@.len());
    assert(forall|i: int| 0 <= i < views.len() ==> #[trigger] views[i] == fields@[i]@);
    lemma_attachment_envelope(views, t, k, p);
}

proof fn lemma_attachment_envelope(fields: Seq<envelope::FieldView>, t: int, k: int, p: int)
    requires
        forall|i: int| 0 <= i < fields.len() ==> is_readable(#[trigger] fields[i]),
        0 <= t < fields.len(),
        fields[t] is Timestamp,
        is_last_kind(fields, k),
        is_last_payload(fields, p),
    ensures
        attachment_envelope(fields) matches Some(info) && Some(info.kind) == fields[k]->text && (
        info.ghost_snapshot <==> info.kind == "response_item"@ && fields[p]->object == Some(
            envelope::PayloadKindView::Text { text: "ghost_snapshot"@ },
        )),
{
    assert(is_readable(fields[k]) && is_readable(fields[p]));
    lemma_last_kind(fields, k);
    lemma_last_payload(fields, p);
    assert forall|i: int| 0 <= i < fields.len() implies well_typed(#[trigger] fields[i]) by {
        assert(is_readable(fields[i]));
    }
}

/// A complete line belongs into an attachment exactly where its last `type` is not `session_meta`,
/// and it is no ghost snapshot: a `response_item` whose payload's `type` is `ghost_snapshot`. Every
/// other kind belongs there, `response_item` with any other payload included.
pub proof fn law_all_other_records_are_attached(
    line: Seq<u8>,
    fields: Seq<envelope::FieldView>,
    t: int,
    k: int,
    p: int,
)
    requires
        envelope::envelope_fields(line) == Some(fields),
        forall|i: int| 0 <= i < fields.len() ==> is_readable(#[trigger] fields[i]),
        0 <= t < fields.len(),
        fields[t] is Timestamp,
        0 <= k < fields.len(),
        fields[k] is Kind,
        forall|i: int| k < i < fields.len() ==> (#[trigger] fields[i]) !is Kind,
        0 <= p < fields.len(),
        fields[p] is Payload,
        forall|i: int| p < i < fields.len() ==> (#[trigger] fields[i]) !is Payload,
    ensures
        is_attached(line) <==> fields[k]->text != Some("session_meta"@) && !(fields[k]->text
            == Some("response_item"@) && fields[p]->object == Some(
            envelope::PayloadKindView::Text { text: "ghost_snapshot"@ },
        )),
{
    assert(is_readable(fields[k]));
    lemma_attachment_envelope(fields, t, k, p);
}

/// Nothing but a record belongs into an attachment: an object with a `timestamp`, a `type` and a
/// `payload`, all of whose occurrences can be read.
pub proof fn law_only_readable_records_are_attached(line: Seq<u8>)
    requires
        envelope_info(line) is Some || is_attached(line),
    ensures
        envelope::envelope_fields(line) matches Some(fields) && (forall|i: int|
            0 <= i < fields.len() ==> is_readable(#[trigger] fields[i])) && (exists|i: int|
            0 <= i < fields.len() && (#[trigger] fields[i]) is Timestamp) && (exists|i: int|
            0 <= i < fields.len() && (#[trigger] fields[i]) is Kind) && (exists|i: int|
            0 <= i < fields.len() && (#[trigger] fields[i]) is Payload),
{
    let fields = envelope::envelope_fields(line)->Some_0;
    lemma_last_occurrences(fields);
    assert forall|i: int| 0 <= i < fields.len() implies is_readable(#[trigger] fields[i]) by {
        assert(well_typed(fields[i]));
    }
}

/// What a line of a rollout does, case by case, with offsets that stop at the largest number: a
/// line that does not end at or before the cutoff stops the stream and does nothing; a complete
/// line that belongs into the attachment is handed to the writer; one that does not is passed over;
/// a line that was too long to be read is recorded as left out; and a line without its newline
/// stops the stream.
pub proof fn law_lines_do_what_they_are(
    stream: &mut SegmentStream,
    record: RawRolloutLine,
    writer: &mut AttachmentWriter,
    step: StreamStep,
)
    requires
        old(writer).wf(),
        call_ensures(SegmentStream::accept, (stream, record, writer), step),
    ensures
        ({
            let sum = old(stream).offset() + (match record {
                RawRolloutLine::Complete(line) => line@.len(),
                RawRolloutLine::Oversized { byte_count, .. } => byte_count as nat,
            });
            let next = if sum > u64::MAX {
                u64::MAX as int
            } else {
                sum
            };
            let behind = old(stream).end() matches Some(end) && next > end;
            &&& final(stream).end() == old(stream).end()
            &&& behind ==> step.stop && step.action is Keep && final(writer)@ == old(writer)@
                && final(stream).offset() == old(stream).offset()
            &&& !behind ==> final(stream).offset() == next
            &&& !behind ==> match record {
                RawRolloutLine::Complete(line) => {
                    let whole = line@.len() > 0 && line@.last() == 10;
                    &&& step.stop <==> !whole
                    &&& whole && is_attached(line@) ==> final(writer)@ == old(writer)@.pushed(line@)
                    &&& !whole || !is_attached(line@) ==> final(writer)@ == old(writer)@
                        && step.action is Keep
                    &&& whole && is_attached(line@) && old(writer)@.writes(line@) ==> (
                    step.action matches LineAction::Write { line: written } && written@ == line@)
                    &&& step.action is Write ==> old(writer)@.writes(line@)
                },
                RawRolloutLine::Oversized { terminated, .. } => {
                    &&& step.action is Keep
                    &&& final(writer)@.truncated
                    &&& final(writer)@.tail == old(writer)@.tail
                    &&& final(writer)@.head_bytes == old(writer)@.head_bytes
                    &&& final(writer)@.head_full == old(writer)@.head_full
                    &&& final(writer)@.max_bytes == old(writer)@.max_bytes
                    &&& step.stop <==> !terminated || old(stream).end() == Some(next as u64)
                },
            }
        }),
{
}

proof fn lemma_stream_at(end: Option<u64>, offset: int, lines: Seq<RawLineView>)
    requires
        0 <= offset,
        offset + lines_len(lines) <= u64::MAX,
        end matches Some(end) ==> offset + lines_len(lines) < end,
        forall|j: int| 0 <= j < lines.len() ==> (#[trigger] lines[j]).terminated(),
    ensures
        stream_at(end, offset, lines) == Some(offset + lines_len(lines)),
    decreases lines.len(),
{
    if lines.len() > 0 {
        let rest = lines.drop_first();
        let step = stream_step(end, offset, lines.first());
        assert(lines[0] == lines.first());
        assert forall|j: int| 0 <= j < rest.len() implies (#[trigger] rest[j]).terminated() by {
            assert(rest[j] == lines[j + 1]);
        }
        lemma_stream_at(end, step.offset, rest);
    }
}

proof fn lemma_lines_len_push(lines: Seq<RawLineView>, line: RawLineView)
    ensures
        lines_len(lines.push(line)) == lines_len(lines) + line.byte_count(),
    decreases lines.len(),
{
    let longer = lines.push(line);
    if lines.len() == 0 {
        assert(longer.drop_first() =~= lines);
        assert(longer.first() == line);
    } else {
        assert(longer.drop_first() =~= lines.drop_first().push(line));
        assert(longer.first() == lines.first());
        lemma_lines_len_push(lines.drop_first(), line);
    }
}

/// A rollout goes into its attachment line by line, in order: behind whole lines within the cutoff,
/// one more line within the cutoff adds itself if it is a record that belongs there, the word that
/// something was left out if it was too long to be read, and nothing otherwise. What the lines
/// before it did stays as it is.
pub proof fn law_rollouts_are_attached_line_by_line(
    end: Option<u64>,
    lines: Seq<RawLineView>,
    line: RawLineView,
)
    requires
        forall|j: int|
            0 <= j < lines.len() ==> match #[trigger] lines[j] {
                RawLineView::Complete { line } => line.len() > 0 && line.last() == 10,
                RawLineView::Oversized { terminated, .. } => terminated,
            },
        line.byte_count() > 0,
        lines_len(lines.push(line)) <= u64::MAX,
        end matches Some(end) ==> lines_len(lines.push(line)) <= end,
    ensures
        stream_events(end, 0, lines.push(line)) == stream_events(end, 0, lines) + (match line {
            RawLineView::Complete { line } => if line.len() > 0 && line.last() == 10 && is_attached(
                line,
            ) {
                seq![attachment::AttachmentEvent::Line { line }]
            } else {
                Seq::<attachment::AttachmentEvent>::empty()
            },
            RawLineView::Oversized { .. } => seq![attachment::AttachmentEvent::LeftOut],
        }),
{
    lemma_lines_len_push(lines, line);
    assert forall|j: int| 0 <= j < lines.len() implies (#[trigger] lines[j]).terminated() by {
        match lines[j] {
            RawLineView::Complete { .. } => {},
            RawLineView::Oversized { .. } => {},
        }
    }
    lemma_stream_at(end, 0, lines);
    lemma_stream_goes_on(end, 0, lines, line, lines_len(lines) as int);
}

/// The bytes that lines take together are those of each line, added up.
pub proof fn law_lines_take_their_bytes(lines: Seq<RawLineView>, line: RawLineView)
    ensures
        lines_len(Seq::empty()) == 0,
        lines_len(lines.push(line)) == lines_len(lines) + (match line {
            RawLineView::Complete { line } => line.len(),
            RawLineView::Oversized { byte_count, .. } => byte_count,
        }),
{
    lemma_lines_len_push(lines, line);
}

/// The rollouts of a lineage go into its attachment one after the other.
pub proof fn law_rollouts_follow_each_other(segments: Seq<SegmentLines>, segment: SegmentLines)
    ensures
        lineage_events(Seq::empty()).len() == 0,
        lineage_events(segments.push(segment)) == lineage_events(segments) + stream_events(
            segment.end,
            0,
            segment.lines,
        ),
{
    assert(segments.push(segment).drop_last() =~= segments);
}

/// An attachment starts with its header, and goes on with the rollouts of its lineage from the
/// first to the last, each with the cutoff of its segment.
pub proof fn law_attachments_walk_the_lineage(
    attachment: &mut LineageAttachment,
    lineage: &RolloutLineage,
    segment: Option<usize>,
)
    requires
        old(attachment).wf(),
        old(attachment).follows(lineage@),
        call_ensures(LineageAttachment::next_segment, (attachment, lineage), segment),
    ensures
        segment is Some <==> old(attachment).segments().len() < lineage@.len(),
        segment matches Some(index) ==> {
            &&& index == old(attachment).segments().len()
            &&& final(attachment).segments().len() == index + 1
            &&& final(attachment).segments().take(index as int) == old(attachment).segments()
            &&& final(attachment).segments()[index as int].lines.len() == 0
            &&& final(attachment).segments()[index as int].end is Some
                <==> lineage@[index as int].end is Some
            &&& lineage@[index as int].end matches Some(end) ==> final(
                attachment).segments()[index as int].end == Some(end.end_byte_offset)
        },
{
    if let Some(index) = segment {
        assert(old(attachment).segments().push(
            SegmentLines { end: cutoff_of(lineage@[index as int]), lines: Seq::empty() },
        ).take(index as int) =~= old(attachment).segments());
    }
}

/// A request is refused for its size limit only if that is zero, for being archived only if that
/// was not asked for, and for its rollout only if that belongs to another thread.
pub proof fn law_attachment_requests_are_refused_for_cause<G>(
    thread_id: ThreadId,
    include_archived: bool,
    max_bytes: usize,
    request: ThreadStoreResult<AttachmentRequest>,
    reserved: ReservedAttachment<G>,
    archived: bool,
    located: ThreadStoreResult<LocatedAttachment<G>>,
    readable: LocatedAttachment<G>,
    path: &str,
    owner: ThreadId,
    has_history_base: bool,
    route: ThreadStoreResult<AttachmentRoute<G>>,
)
    requires
        call_ensures(AttachmentRequest::new, (thread_id, include_archived, max_bytes), request),
        call_ensures(ReservedAttachment::<G>::with_source, (reserved, archived), located),
        call_ensures(
            LocatedAttachment::<G>::route,
            (readable, path, owner, has_history_base),
            route,
        ),
    ensures
        request is Ok <==> max_bytes > 0,
        request matches Ok(request) ==> request.thread_id() == thread_id
            && request.include_archived() == include_archived && request.max_bytes() == max_bytes,
        located is Ok <==> !archived || reserved.include_archived(),
        located matches Ok(next) ==> next.thread_id() == reserved.thread_id() && next.max_bytes()
            == reserved.max_bytes() && next.guards() == reserved.guards(),
        route is Ok <==> owner == readable.thread_id(),
        route matches Ok(route) ==> (route is Stream <==> has_history_base),
        route matches Ok(AttachmentRoute::Stream { writer, guards }) ==> writer@.max_bytes
            == readable.max_bytes() && !writer@.truncated && writer@.tail.len() == 0 && guards
            == readable.guards(),
{
}

/// A line of the current rollout is taken behind those before it, nothing else changes, and what is
/// to be written of it goes behind what was written before.
pub proof fn law_attachments_take_lines_in_order(
    attachment: &mut LineageAttachment,
    record: RawRolloutLine,
    step: StreamStep,
)
    requires
        old(attachment).wf(),
        old(attachment).is_open(),
        old(attachment).segments().len() > 0,
        call_ensures(LineageAttachment::accept, (attachment, record), step),
    ensures
        final(attachment).segments().len() == old(attachment).segments().len(),
        final(attachment).segments().drop_last() == old(attachment).segments().drop_last(),
        final(attachment).segments().last().lines == old(attachment).segments().last().lines.push(
            record@,
        ),
        final(attachment).segments().last().end == old(attachment).segments().last().end,
        final(attachment).header() == old(attachment).header(),
        step.action matches LineAction::Write { line } ==> final(attachment).head()
            == old(attachment).head().push(line@),
        step.action is Keep ==> final(attachment).head() == old(attachment).head(),
{
    let past = old(attachment).segments().drop_last();
    assert(final(attachment).segments().drop_last() =~= past);
}

/// An attachment that is not reported as truncated holds its header and then every record of the
/// rollouts of its lineage that belongs there, in order; one that is holds the first of them and
/// the last, each whole.
pub proof fn law_finished_attachments_hold_the_lineage(
    attachment: LineageAttachment,
    lineage: &RolloutLineage,
    end: AttachmentEnd,
)
    requires
        attachment.wf(),
        attachment.follows(lineage@),
        attachment.segments().len() == lineage@.len(),
        call_ensures(LineageAttachment::finish, (attachment, lineage), end),
    ensures
        ({
            let events = seq![attachment::AttachmentEvent::Line { line: attachment.header() }]
                + lineage_events(attachment.segments());
            let lines = attachment::lines_that_fit(attachment.writer().max_bytes, events);
            let head = attachment.head();
            let tail = attachment::line_views(end.tail@);
            &&& head.len() + tail.len() <= lines.len()
            &&& head == lines.take(head.len() as int)
            &&& tail == lines.skip(lines.len() - tail.len())
            &&& attachment::total_len(head) + attachment::total_len(tail)
                <= attachment.writer().max_bytes
            &&& !end.truncated ==> head.len() + tail.len() == lines.len()
        }),
{
    let events = attachment_events(attachment.header(), attachment.segments());
    let max_bytes = attachment.writer().max_bytes;
    attachment::law_attachment_keeps_head_and_tail(max_bytes, events);
    attachment::law_attachment_keeps_as_much_as_it_can(max_bytes, events);
    attachment::law_truncated_means_left_out(max_bytes, events);
    let run = attachment::attachment_run(max_bytes, events);
    attachment::law_kept_lines_are_last_lines(
        attachment::lines_that_fit(max_bytes, events).skip(run.head.len() as int),
        (max_bytes - max_bytes / 2) as nat,
    );
}

/// An attachment is started exactly where its header fits half of the budget, and starts with it.
pub proof fn law_attachments_start_with_their_header(
    writer: AttachmentWriter,
    header: &[u8],
    started: ThreadStoreResult<(LineageAttachment, Vec<u8>)>,
    lineage: Seq<RolloutLineageSegment>,
)
    requires
        writer.wf(),
        writer@ == attachment::AttachmentView::empty(writer@.max_bytes),
        call_ensures(LineageAttachment::new, (writer, header), started),
    ensures
        started is Ok <==> (if header@.len() > 0 && header@.last() == 10 {
            header@.len()
        } else {
            header@.len() + 1
        }) <= writer@.max_bytes / 2,
        started matches Ok((attachment, first)) ==> {
            &&& first@ == (if header@.len() > 0 && header@.last() == 10 {
                header@
            } else {
                header@.push(10)
            })
            &&& attachment.wf()
            &&& attachment.header() == header@
            &&& attachment.head() == seq![first@]
            &&& attachment.writer().max_bytes == writer@.max_bytes
            &&& attachment.segments().len() == 0
            &&& attachment.follows(lineage)
        },
{
}

/// A request that is refused says why, and names the thread where it is about one.
pub proof fn law_refused_attachments_say_why<G, P>(
    thread_id: ThreadId,
    include_archived: bool,
    request_error: ThreadStoreError,
    reserved: ReservedAttachment<G>,
    rollout: Option<P>,
    found: ThreadStoreResult<P>,
    source_error: ThreadStoreError,
    readable: LocatedAttachment<G>,
    path: &str,
    owner: ThreadId,
    has_history_base: bool,
    route_error: ThreadStoreError,
    writer: AttachmentWriter,
    header: &[u8],
    header_error: ThreadStoreError,
)
    requires
        call_ensures(
            AttachmentRequest::new,
            (thread_id, include_archived, 0usize),
            Err::<AttachmentRequest, ThreadStoreError>(request_error),
        ),
        call_ensures(ReservedAttachment::<G>::located::<P>, (&reserved, rollout), found),
        call_ensures(
            ReservedAttachment::<G>::with_source,
            (reserved, true),
            Err::<LocatedAttachment<G>, ThreadStoreError>(source_error),
        ),
        call_ensures(
            LocatedAttachment::<G>::route,
            (readable, path, owner, has_history_base),
            Err::<AttachmentRoute<G>, ThreadStoreError>(route_error),
        ),
        call_ensures(
            LineageAttachment::new,
            (writer, header),
            Err::<(LineageAttachment, Vec<u8>), ThreadStoreError>(header_error),
        ),
    ensures
        request_error@ == (crate::error::ErrorView::InvalidRequest {
            message: "reference logical attachment max_bytes must be positive"@,
        }),
        found is Ok <==> rollout is Some,
        found matches Ok(path) ==> rollout == Some(path),
        found matches Err(error) ==> error@ == (crate::error::ErrorView::ThreadNotFound {
            thread_id: reserved.thread_id(),
        }),
        source_error@ == (crate::error::ErrorView::InvalidRequest {
            message: "thread "@ + reserved.thread_id().text() + " is archived"@,
        }),
        route_error@ == (crate::error::ErrorView::InvalidRequest {
            message: "rollout "@ + path@ + " belongs to thread "@ + owner.text() + ", not "@
                + readable.thread_id().text(),
        }),
        header_error@ == (crate::error::ErrorView::InvalidRequest {
            message: "logical reference SessionMeta exceeds attachment head budget"@,
        }),
{
}

/// A request that is reserved keeps what it asks for, and the guards that it was given.
pub proof fn law_reserved_requests_keep_what_they_ask_for<G>(
    request: AttachmentRequest,
    guards: G,
    reserved: ReservedAttachment<G>,
)
    requires
        call_ensures(AttachmentRequest::reserved::<G>, (request, guards), reserved),
    ensures
        reserved.thread_id() == request.thread_id(),
        reserved.include_archived() == request.include_archived(),
        reserved.max_bytes() == request.max_bytes(),
        reserved.guards() == guards,
{
}

/// A line of a rollout stands for its bytes, or for how many there were and whether they ended at
/// a newline; it takes as many bytes as it has, and is terminated exactly if its last one is a
/// newline.
pub proof fn law_lines_stand_for_their_bytes(record: RawRolloutLine, info: EnvelopeInfo)
    ensures
        record matches RawRolloutLine::Complete(line) ==> {
            &&& record@ == (RawLineView::Complete { line: line@ })
            &&& record@.byte_count() == line@.len()
            &&& record@.terminated() <==> line@.len() > 0 && line@[line@.len() - 1] == 10
        },
        record matches RawRolloutLine::Oversized { byte_count, terminated } ==> {
            &&& record@.byte_count() == byte_count
            &&& record@.terminated() == terminated
            &&& record@ is Oversized
        },
        info@.kind == info.kind@,
        info@.ghost_snapshot == info.ghost_snapshot,
{
}

} // verus!
