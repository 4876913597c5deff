//! Logical attachments: the complete lines of a referenced history, cut down to a byte budget by
//! keeping the first lines and the last ones.

use crate::error::ThreadStoreError;
use crate::error::ThreadStoreResult;
use std::collections::VecDeque;
use vstd::prelude::*;

verus! {

/// A line with exactly the newline that ends it: its own, or one added to it.
pub open spec fn terminated_line(line: Seq<u8>) -> Seq<u8> {
    if line.len() > 0 && line.last() == 10 {
        line
    } else {
        line.push(10)
    }
}

/// The number of bytes in all lines together.
pub open spec fn total_len(lines: Seq<Seq<u8>>) -> nat
    decreases lines.len(),
{
    if lines.len() == 0 {
        0
    } else {
        lines.first().len() + total_len(lines.drop_first())
    }
}

/// The bytes of all lines, one after the other.
pub open spec fn joined(lines: Seq<Seq<u8>>) -> Seq<u8>
    decreases lines.len(),
{
    if lines.len() == 0 {
        Seq::empty()
    } else {
        lines.first() + joined(lines.drop_first())
    }
}

/// The longest run of last lines that takes no more than `budget` bytes.
pub open spec fn fitted(lines: Seq<Seq<u8>>, budget: nat) -> Seq<Seq<u8>>
    decreases lines.len(),
{
    if lines.len() == 0 || total_len(lines) <= budget {
        lines
    } else {
        fitted(lines.drop_first(), budget)
    }
}

/// What a writer has done: how much it wrote at once, and which lines it still holds back.
pub struct AttachmentView {
    pub max_bytes: nat,
    /// The bytes of the lines that were written at once.
    pub head_bytes: nat,
    /// Whether a line did not fit the head any more.
    pub head_full: bool,
    /// The lines that are held back for the end.
    pub tail: Seq<Seq<u8>>,
    /// Whether something was left out.
    pub truncated: bool,
}

impl AttachmentView {
    /// A writer that has seen nothing.
    pub open spec fn empty(max_bytes: nat) -> AttachmentView {
        AttachmentView {
            max_bytes,
            head_bytes: 0,
            head_full: false,
            tail: Seq::empty(),
            truncated: false,
        }
    }

    /// How many bytes are written at once at most.
    pub open spec fn head_budget(self) -> nat {
        self.max_bytes / 2
    }

    /// How many bytes are held back at most.
    pub open spec fn tail_budget(self) -> nat {
        (self.max_bytes - self.max_bytes / 2) as nat
    }

    /// Whether a line is longer than the whole attachment may be.
    pub open spec fn too_long(self, line: Seq<u8>) -> bool {
        terminated_line(line).len() > self.max_bytes
    }

    /// Whether a line is written at once.
    pub open spec fn writes(self, line: Seq<u8>) -> bool {
        &&& !self.too_long(line)
        &&& !self.head_full
        &&& self.head_bytes + terminated_line(line).len() <= self.head_budget()
    }

    /// The writer after it was handed one more line.
    pub open spec fn pushed(self, line: Seq<u8>) -> AttachmentView {
        let line_with_newline = terminated_line(line);
        if self.too_long(line) {
            AttachmentView { truncated: true, ..self }
        } else if self.writes(line) {
            AttachmentView { head_bytes: self.head_bytes + line_with_newline.len(), ..self }
        } else {
            let tail = fitted(self.tail.push(line_with_newline), self.tail_budget());
            AttachmentView {
                head_full: true,
                tail,
                truncated: self.truncated || tail.len() < self.tail.len() + 1,
                ..self
            }
        }
    }

    /// The writer after it was told that something was left out.
    pub open spec fn marked(self) -> AttachmentView {
        AttachmentView { truncated: true, ..self }
    }
}

/// The lines as sequences of bytes.
pub open spec fn line_views(lines: Seq<Vec<u8>>) -> Seq<Seq<u8>> {
    lines.map_values(|line: Vec<u8>| line@)
}

proof fn lemma_total_len_push(lines: Seq<Seq<u8>>, line: Seq<u8>)
    ensures
        total_len(lines.push(line)) == total_len(lines) + line.len(),
    decreases lines.len(),
{
    if lines.len() == 0 {
        assert(lines.push(line).drop_first() =~= lines);
    } else {
        lemma_total_len_push(lines.drop_first(), line);
        assert(lines.push(line).drop_first() =~= lines.drop_first().push(line));
        assert(lines.push(line).first() == lines.first());
    }
}

proof fn lemma_fitted_push(lines: Seq<Seq<u8>>, line: Seq<u8>, budget: nat)
    ensures
        line.len() <= budget ==> fitted(lines.push(line), budget) == fitted(
            lines,
            (budget - line.len()) as nat,
        ).push(line),
        line.len() > budget ==> fitted(lines.push(line), budget).len() == 0,
    decreases lines.len(),
{
    lemma_total_len_push(lines, line);
    if lines.len() == 0 {
        assert(lines.push(line).drop_first() =~= lines);
        assert(fitted(lines, budget) == lines);
    } else {
        assert(lines.push(line).drop_first() =~= lines.drop_first().push(line));
        lemma_fitted_push(lines.drop_first(), line, budget);
    }
}

/// What fits a smaller budget is the same whether or not a larger one was applied first.
proof fn lemma_fitted_twice(lines: Seq<Seq<u8>>, budget: nat, smaller: nat)
    requires
        smaller <= budget,
    ensures
        fitted(fitted(lines, budget), smaller) == fitted(lines, smaller),
    decreases lines.len(),
{
    if lines.len() > 0 && total_len(lines) > budget {
        lemma_fitted_twice(lines.drop_first(), budget, smaller);
    }
}

/// Letting lines go one by one as others come in keeps what letting them go at the end would keep.
proof fn lemma_fitted_step(lines: Seq<Seq<u8>>, line: Seq<u8>, budget: nat)
    ensures
        fitted(fitted(lines, budget).push(line), budget) == fitted(lines.push(line), budget),
{
    lemma_fitted_push(lines, line, budget);
    lemma_fitted_push(fitted(lines, budget), line, budget);
    if line.len() <= budget {
        lemma_fitted_twice(lines, budget, (budget - line.len()) as nat);
    } else {
        assert(fitted(fitted(lines, budget).push(line), budget) =~= fitted(
            lines.push(line),
            budget,
        ));
    }
}

/// [`fitted`] keeps as many last lines as the budget allows.
pub proof fn law_longest_tail_is_kept(lines: Seq<Seq<u8>>, budget: nat, start: int)
    requires
        0 <= start <= lines.len(),
        total_len(lines.skip(start)) <= budget,
    ensures
        lines.len() - start <= fitted(lines, budget).len(),
    decreases lines.len(),
{
    if start == 0 {
        assert(lines.skip(0) =~= lines);
    } else if lines.len() > 0 && total_len(lines) > budget {
        assert(lines.drop_first().skip(start - 1) =~= lines.skip(start));
        law_longest_tail_is_kept(lines.drop_first(), budget, start - 1);
    }
}

/// What [`fitted`] gives: last lines, within the budget.
proof fn lemma_fitted(lines: Seq<Seq<u8>>, budget: nat)
    ensures
        fitted(lines, budget).len() <= lines.len(),
        fitted(lines, budget) == lines.skip(lines.len() - fitted(lines, budget).len()),
        total_len(fitted(lines, budget)) <= budget,
    decreases lines.len(),
{
    if lines.len() == 0 || total_len(lines) <= budget {
        assert(lines.skip(0) =~= lines);
    } else {
        let rest = lines.drop_first();
        lemma_fitted(rest, budget);
        let kept = fitted(rest, budget);
        assert(rest.skip(rest.len() - kept.len()) =~= lines.skip(lines.len() - kept.len()));
    }
}

/// What can happen to a writer.
pub enum AttachmentEvent {
    /// A line was handed to it.
    Line { line: Seq<u8> },
    /// It was told that something was left out.
    LeftOut,
}

impl AttachmentView {
    /// The writer after one more event.
    pub open spec fn after(self, event: AttachmentEvent) -> AttachmentView {
        match event {
            AttachmentEvent::Line { line } => self.pushed(line),
            AttachmentEvent::LeftOut => self.marked(),
        }
    }
}

/// A writer together with the lines that it wrote at once.
pub struct AttachmentRun {
    pub writer: AttachmentView,
    pub head: Seq<Seq<u8>>,
}

/// What a new writer has done after these events.
pub open spec fn attachment_run(max_bytes: nat, events: Seq<AttachmentEvent>) -> AttachmentRun
    decreases events.len(),
{
    if events.len() == 0 {
        AttachmentRun { writer: AttachmentView::empty(max_bytes), head: Seq::empty() }
    } else {
        let earlier = attachment_run(max_bytes, events.drop_last());
        AttachmentRun {
            writer: earlier.writer.after(events.last()),
            head: match events.last() {
                AttachmentEvent::Line { line } if earlier.writer.writes(line) => earlier.head.push(
                    terminated_line(line),
                ),
                _ => earlier.head,
            },
        }
    }
}

/// The attachment that a run leaves behind: what was written at once, then what was held back.
pub open spec fn attachment_bytes(run: AttachmentRun) -> Seq<u8> {
    joined(run.head) + joined(run.writer.tail)
}

/// The lines among the events, each with its newline, without those longer than `max_bytes`.
pub open spec fn lines_that_fit(max_bytes: nat, events: Seq<AttachmentEvent>) -> Seq<Seq<u8>>
    decreases events.len(),
{
    if events.len() == 0 {
        Seq::empty()
    } else {
        let earlier = lines_that_fit(max_bytes, events.drop_last());
        match events.last() {
            AttachmentEvent::Line { line } if terminated_line(line).len() <= max_bytes =>
                earlier.push(terminated_line(line)),
            _ => earlier,
        }
    }
}

/// Whether an event by itself makes an attachment incomplete: a line longer than `max_bytes`, or
/// the word that something was left out.
pub open spec fn leaves_out(max_bytes: nat, event: AttachmentEvent) -> bool {
    match event {
        AttachmentEvent::Line { line } => terminated_line(line).len() > max_bytes,
        AttachmentEvent::LeftOut => true,
    }
}

proof fn lemma_joined_len(lines: Seq<Seq<u8>>)
    ensures
        joined(lines).len() == total_len(lines),
    decreases lines.len(),
{
    if lines.len() > 0 {
        lemma_joined_len(lines.drop_first());
    }
}

proof fn lemma_joined_concat(left: Seq<Seq<u8>>, right: Seq<Seq<u8>>)
    ensures
        joined(left + right) == joined(left) + joined(right),
    decreases left.len(),
{
    if left.len() == 0 {
        assert(left + right =~= right);
        assert(joined(left) + joined(right) =~= joined(right));
    } else {
        lemma_joined_concat(left.drop_first(), right);
        assert((left + right).drop_first() =~= left.drop_first() + right);
        assert(joined(left + right) =~= joined(left) + joined(right));
    }
}

/// What holds of every run.
proof fn lemma_attachment_run(max_bytes: nat, events: Seq<AttachmentEvent>)
    ensures
        ({
            let run = attachment_run(max_bytes, events);
            let lines = lines_that_fit(max_bytes, events);
            &&& run.writer.max_bytes == max_bytes
            &&& run.writer.head_bytes == total_len(run.head)
            &&& run.writer.head_bytes <= run.writer.head_budget()
            &&& total_len(run.writer.tail) <= run.writer.tail_budget()
            &&& !run.writer.head_full ==> run.head == lines && run.writer.tail.len() == 0
            &&& run.writer.head_full ==> run.head.len() < lines.len() && total_len(
                lines.take(run.head.len() as int + 1),
            ) > run.writer.head_budget()
            &&& run.writer.tail == fitted(
                lines.skip(run.head.len() as int),
                run.writer.tail_budget(),
            )
            &&& run.head.len() + run.writer.tail.len() <= lines.len()
            &&& run.head == lines.take(run.head.len() as int)
            &&& run.writer.tail == lines.skip(lines.len() - run.writer.tail.len())
            &&& run.writer.truncated <==> {
                ||| run.head.len() + run.writer.tail.len() < lines.len()
                ||| exists|i: int| 0 <= i < events.len() && leaves_out(max_bytes, #[trigger] events[i])
            }
        }),
    decreases events.len(),
{
    let run = attachment_run(max_bytes, events);
    let lines = lines_that_fit(max_bytes, events);
    if events.len() == 0 {
        assert(lines.take(0) =~= Seq::<Seq<u8>>::empty());
        assert(lines.skip(0) =~= Seq::<Seq<u8>>::empty());
        assert(fitted(lines.skip(0), run.writer.tail_budget()) == lines.skip(0));
        assert(run.head =~= lines);
    } else {
        let past = events.drop_last();
        lemma_attachment_run(max_bytes, past);
        let before = attachment_run(max_bytes, past);
        let old_lines = lines_that_fit(max_bytes, past);
        let event = events.last();
        assert(events[events.len() - 1] == event);
        assert forall|i: int| 0 <= i < past.len() implies past[i] == #[trigger] events[i] by {}
        if exists|i: int| 0 <= i < past.len() && leaves_out(max_bytes, #[trigger] past[i]) {
            let i = choose|i: int| 0 <= i < past.len() && leaves_out(max_bytes, #[trigger] past[i]);
            assert(leaves_out(max_bytes, events[i]));
        }
        if !(exists|i: int| 0 <= i < past.len() && leaves_out(max_bytes, #[trigger] past[i])) {
            assert forall|i: int|
                0 <= i < events.len() - 1 implies !leaves_out(max_bytes, #[trigger] events[i]) by {
                assert(!leaves_out(max_bytes, past[i]));
            }
        }
        match event {
            AttachmentEvent::LeftOut => {},
            AttachmentEvent::Line { line } => {
                let whole = terminated_line(line);
                if before.writer.too_long(line) {
                } else if before.writer.writes(line) {
                    lemma_total_len_push(before.head, whole);
                    assert(run.head =~= lines);
                    assert(lines.take(run.head.len() as int) =~= lines);
                    assert(lines.skip(lines.len() as int) =~= Seq::<Seq<u8>>::empty());
                    assert(fitted(lines.skip(lines.len() as int), run.writer.tail_budget())
                        == lines.skip(lines.len() as int));
                } else {
                    let tail = before.writer.tail.push(whole);
                    let budget = before.writer.tail_budget();
                    lemma_fitted(tail, budget);
                    let kept = fitted(tail, budget);
                    assert(tail =~= lines.skip(lines.len() - tail.len()));
                    assert(tail.skip(tail.len() - kept.len()) =~= lines.skip(
                        lines.len() - kept.len(),
                    ));
                    assert(before.head =~= lines.take(before.head.len() as int));
                    let h = before.head.len() as int;
                    assert(lines.skip(h) =~= old_lines.skip(h).push(whole));
                    lemma_fitted_step(old_lines.skip(h), whole, budget);
                    if before.writer.head_full {
                        assert(lines.take(h + 1) =~= old_lines.take(h + 1));
                    } else {
                        assert(lines.take(h + 1) =~= before.head.push(whole));
                        lemma_total_len_push(before.head, whole);
                    }
                }
            },
        }
    }
}

/// An attachment never takes more bytes than its writer was given.
pub proof fn law_attachment_within_budget(max_bytes: nat, events: Seq<AttachmentEvent>)
    ensures
        attachment_bytes(attachment_run(max_bytes, events)).len() <= max_bytes,
{
    lemma_attachment_run(max_bytes, events);
    let run = attachment_run(max_bytes, events);
    lemma_joined_len(run.head);
    lemma_joined_len(run.writer.tail);
}

/// An attachment consists of the first lines that were handed to its writer followed by the last
/// ones, each complete, in order and at most once; lines longer than the whole budget do not
/// count.
pub proof fn law_attachment_keeps_head_and_tail(max_bytes: nat, events: Seq<AttachmentEvent>)
    ensures
        ({
            let run = attachment_run(max_bytes, events);
            let lines = lines_that_fit(max_bytes, events);
            &&& run.head.len() + run.writer.tail.len() <= lines.len()
            &&& run.head == lines.take(run.head.len() as int)
            &&& run.writer.tail == lines.skip(lines.len() - run.writer.tail.len())
        }),
{
    lemma_attachment_run(max_bytes, events);
}

/// The head of an attachment is the longest run of first lines that takes no more than half of the
/// budget; its tail is the longest run of last lines behind the head that takes no more than the
/// rest.
pub proof fn law_attachment_keeps_as_much_as_it_can(
    max_bytes: nat,
    events: Seq<AttachmentEvent>,
)
    ensures
        ({
            let run = attachment_run(max_bytes, events);
            let lines = lines_that_fit(max_bytes, events);
            &&& total_len(run.head) <= max_bytes / 2
            &&& run.head.len() < lines.len() ==> total_len(lines.take(run.head.len() as int + 1))
                > max_bytes / 2
            &&& run.writer.tail == fitted(
                lines.skip(run.head.len() as int),
                (max_bytes - max_bytes / 2) as nat,
            )
        }),
{
    lemma_attachment_run(max_bytes, events);
}

/// An attachment is reported as truncated exactly when a line was left out: one between head and
/// tail, one longer than the whole budget, or one that never reached the writer.
pub proof fn law_truncated_means_left_out(max_bytes: nat, events: Seq<AttachmentEvent>)
    ensures
        ({
            let run = attachment_run(max_bytes, events);
            run.writer.truncated <==> {
                ||| run.head.len() + run.writer.tail.len() < lines_that_fit(max_bytes, events).len()
                ||| exists|i: int| 0 <= i < events.len() && leaves_out(max_bytes, #[trigger] events[i])
            }
        }),
{
    lemma_attachment_run(max_bytes, events);
}

/// An attachment that is not truncated holds all lines, in order, and nothing else.
pub proof fn law_untruncated_attachment_is_complete(max_bytes: nat, events: Seq<AttachmentEvent>)
    requires
        !attachment_run(max_bytes, events).writer.truncated,
    ensures
        attachment_bytes(attachment_run(max_bytes, events)) == joined(
            lines_that_fit(max_bytes, events),
        ),
        forall|i: int| 0 <= i < events.len() ==> (#[trigger] events[i] matches AttachmentEvent::Line {
            line,
        } && terminated_line(line).len() <= max_bytes),
{
    lemma_attachment_run(max_bytes, events);
    let run = attachment_run(max_bytes, events);
    let lines = lines_that_fit(max_bytes, events);
    assert(run.head + run.writer.tail =~= lines);
    lemma_joined_concat(run.head, run.writer.tail);
    assert forall|i: int| 0 <= i < events.len() implies (#[trigger] events[i] matches AttachmentEvent::Line {
        line,
    } && terminated_line(line).len() <= max_bytes) by {
        assert(!leaves_out(max_bytes, events[i]));
    }
}

/// The line that describes the session, once it was accepted, stays the first line of the
/// attachment.
pub proof fn law_header_comes_first(
    max_bytes: nat,
    header: Seq<u8>,
    events: Seq<AttachmentEvent>,
)
    requires
        terminated_line(header).len() <= max_bytes / 2,
    ensures
        ({
            let run = attachment_run(max_bytes, seq![AttachmentEvent::Line { line: header }] + events);
            &&& run.head.len() > 0
            &&& run.head.first() == terminated_line(header)
        }),
    decreases events.len(),
{
    let first = AttachmentEvent::Line { line: header };
    let all = seq![first] + events;
    if events.len() == 0 {
        assert(all.drop_last() =~= Seq::<AttachmentEvent>::empty());
        assert(all.last() == first);
        assert(attachment_run(max_bytes, all.drop_last()).writer == AttachmentView::empty(
            max_bytes,
        ));
    } else {
        assert(all.drop_last() =~= seq![first] + events.drop_last());
        law_header_comes_first(max_bytes, header, events.drop_last());
    }
}

/// Every line of an attachment is one of the lines that were handed to its writer.
pub proof fn law_attachment_invents_nothing(
    max_bytes: nat,
    events: Seq<AttachmentEvent>,
    i: int,
) -> (k: int)
    requires
        0 <= i < lines_that_fit(max_bytes, events).len(),
    ensures
        0 <= k < events.len(),
        events[k] matches AttachmentEvent::Line { line } && terminated_line(line) == lines_that_fit(
            max_bytes,
            events,
        )[i],
    decreases events.len(),
{
    let past = events.drop_last();
    if i < lines_that_fit(max_bytes, past).len() {
        let k = law_attachment_invents_nothing(max_bytes, past, i);
        assert(events[k] == past[k]);
        k
    } else {
        events.len() - 1
    }
}

/// What is to be done with a line that was handed to a writer.
#[derive(Debug)]
pub enum LineAction {
    /// Write these bytes now.
    Write { line: Vec<u8> },
    /// Nothing: the line is held back or left out.
    Keep,
}

/// What is left to be done when a writer ends.
#[derive(Debug)]
pub struct AttachmentEnd {
    /// The lines to write last, in order.
    pub tail: Vec<Vec<u8>>,
    /// Whether the attachment leaves something out.
    pub truncated: bool,
}

/// Keeps the first and the last complete lines of an attachment within a byte budget.
#[derive(Debug)]
pub struct AttachmentWriter {
    max_bytes: usize,
    head_budget: usize,
    head_bytes: usize,
    head_full: bool,
    tail_budget: usize,
    tail_bytes: usize,
    tail_lines: VecDeque<Vec<u8>>,
    truncated: bool,
}

impl View for AttachmentWriter {
    type V = AttachmentView;

    closed spec fn view(&self) -> AttachmentView {
        AttachmentView {
            max_bytes: self.max_bytes as nat,
            head_bytes: self.head_bytes as nat,
            head_full: self.head_full,
            tail: line_views(self.tail_lines@),
            truncated: self.truncated,
        }
    }
}

/// A copy of a line with the newline that ends it.
fn with_newline(line: &[u8]) -> (terminated: Vec<u8>)
    ensures
        terminated@ == terminated_line(line@),
{
    let len: usize = line.len();
    let mut terminated: Vec<u8> = vstd::slice::slice_to_vec(line);
    if len == 0 || line[len - 1] != 10 {
        terminated.push(10);
    }
    terminated
}

impl AttachmentWriter {
    /// What every writer keeps.
    pub closed spec fn wf(&self) -> bool {
        &&& self.head_budget == self.max_bytes / 2
        &&& self.tail_budget == self.max_bytes - self.max_bytes / 2
        &&& self.head_bytes <= self.head_budget
        &&& self.tail_bytes == total_len(line_views(self.tail_lines@))
        &&& self.tail_bytes <= self.tail_budget
    }

    /// A writer for an attachment of at most `max_bytes` bytes.
    pub fn new(max_bytes: usize) -> (writer: Self)
        ensures
            writer.wf(),
            writer@ == AttachmentView::empty(max_bytes as nat),
    {
        let writer = AttachmentWriter {
            max_bytes,
            head_budget: max_bytes / 2,
            head_bytes: 0,
            head_full: false,
            tail_budget: max_bytes - max_bytes / 2,
            tail_bytes: 0,
            tail_lines: VecDeque::new(),
            truncated: false,
        };
        assert(line_views(writer.tail_lines@) =~= Seq::<Seq<u8>>::empty());
        writer
    }

    /// The largest size of the attachment.
    pub fn max_bytes(&self) -> (max_bytes: usize)
        ensures
            max_bytes == self@.max_bytes,
    {
        self.max_bytes
    }

    /// Records that something was left out.
    pub fn mark_truncated(&mut self)
        requires
            old(self).wf(),
        ensures
            final(self).wf(),
            final(self)@ == old(self)@.marked(),
    {
        self.truncated = true;
    }

    /// Takes one line, with or without its newline.
    pub fn push_line(&mut self, line: &[u8]) -> (action: LineAction)
        requires
            old(self).wf(),
        ensures
            final(self).wf(),
            final(self)@ == old(self)@.pushed(line@),
            match action {
                LineAction::Write { line: written } => old(self)@.writes(line@) && written@
                    == terminated_line(line@),
                LineAction::Keep => !old(self)@.writes(line@),
            },
    {
        let line: Vec<u8> = with_newline(line);
        let len: usize = line.len();
        if len > self.max_bytes {
            self.truncated = true;
            return LineAction::Keep;
        }
        if !self.head_full && len <= self.head_budget - self.head_bytes {
            self.head_bytes = self.head_bytes + len;
            return LineAction::Write { line };
        }
        self.head_full = true;
        self.hold_back(line);
        LineAction::Keep
    }

    /// Puts a line at the end of the tail and lets the first lines of the tail go until it fits.
    fn hold_back(&mut self, line: Vec<u8>)
        requires
            old(self).wf(),
        ensures
            final(self).wf(),
            final(self)@ == (AttachmentView {
                tail: fitted(old(self)@.tail.push(line@), old(self)@.tail_budget()),
                truncated: old(self)@.truncated || fitted(
                    old(self)@.tail.push(line@),
                    old(self)@.tail_budget(),
                ).len() < old(self)@.tail.len() + 1,
                ..old(self)@
            }),
    {
        let len: usize = line.len();
        let ghost before = line_views(self.tail_lines@);
        let ghost budget = self.tail_budget as nat;
        proof {
            lemma_fitted_push(before, line@, budget);
        }
        if len > self.tail_budget {
            self.tail_lines.clear();
            self.tail_bytes = 0;
            self.truncated = true;
            assert(line_views(self.tail_lines@) =~= Seq::<Seq<u8>>::empty());
            assert(fitted(before.push(line@), budget) =~= Seq::<Seq<u8>>::empty());
            return ;
        }
        let room: usize = self.tail_budget - len;
        while self.tail_bytes > room
            invariant
                self.wf(),
                self.max_bytes == old(self).max_bytes,
                self.head_bytes == old(self).head_bytes,
                self.head_full == old(self).head_full,
                room <= self.tail_budget,
                fitted(line_views(self.tail_lines@), room as nat) == fitted(before, room as nat),
                self.tail_lines@.len() <= before.len(),
                self.truncated == (old(self).truncated || self.tail_lines@.len() < before.len()),
            decreases self.tail_lines@.len(),
        {
            let ghost lines = line_views(self.tail_lines@);
            match self.tail_lines.pop_front() {
                Some(removed) => {
                    assert(lines.first() == removed@);
                    assert(line_views(self.tail_lines@) =~= lines.drop_first());
                    self.tail_bytes = self.tail_bytes - removed.len();
                    self.truncated = true;
                },
                None => {
                    assert(total_len(lines) == 0);
                    assert(false);
                },
            }
        }
        proof {
            lemma_total_len_push(line_views(self.tail_lines@), line@);
            assert(line_views(self.tail_lines@.push(line)) =~= line_views(self.tail_lines@).push(
                line@,
            ));
        }
        self.tail_lines.push_back(line);
        self.tail_bytes = self.tail_bytes + len;
    }

    /// Takes the line that describes the session; it has to fit the head.
    pub fn push_header_line(&mut self, line: &[u8]) -> (action: ThreadStoreResult<LineAction>)
        requires
            old(self).wf(),
        ensures
            final(self).wf(),
            match action {
                Err(error) => {
                    &&& terminated_line(line@).len() > old(self)@.head_budget()
                    &&& final(self)@ == old(self)@
                    &&& error@ == (crate::error::ErrorView::InvalidRequest {
                        message: "logical reference SessionMeta exceeds attachment head budget"@,
                    })
                },
                Ok(action) => {
                    &&& terminated_line(line@).len() <= old(self)@.head_budget()
                    &&& final(self)@ == old(self)@.pushed(line@)
                    &&& match action {
                        LineAction::Write { line: written } => old(self)@.writes(line@) && written@
                            == terminated_line(line@),
                        LineAction::Keep => !old(self)@.writes(line@),
                    }
                },
            },
    {
        if with_newline(line).len() > self.head_budget {
            return Err(
                ThreadStoreError::InvalidRequest {
                    message: "logical reference SessionMeta exceeds attachment head budget".to_owned(),
                },
            );
        }
        Ok(self.push_line(line))
    }

    /// Ends the attachment.
    pub fn finish(self) -> (end: AttachmentEnd)
        requires
            self.wf(),
        ensures
            line_views(end.tail@) == self@.tail,
            end.truncated == self@.truncated,
    {
        let mut rest: VecDeque<Vec<u8>> = self.tail_lines;
        let mut tail: Vec<Vec<u8>> = Vec::new();
        let ghost all = rest@;
        while rest.len() > 0
            invariant
                all == tail@ + rest@,
            decreases rest@.len(),
        {
            if let Some(line) = rest.pop_front() {
                tail.push(line);
            }
        }
        assert(tail@ =~= all);
        AttachmentEnd { tail, truncated: self.truncated }
    }
}

/// A line is written with exactly one newline behind its own bytes, its own or an added one.
pub proof fn law_lines_end_at_one_newline(line: Seq<u8>)
    ensures
        terminated_line(line).len() > 0,
        terminated_line(line).last() == 10,
        line.len() > 0 && line.last() == 10 ==> terminated_line(line) == line,
        line.len() == 0 || line.last() != 10 ==> terminated_line(line).len() == line.len() + 1
            && terminated_line(line).drop_last() == line,
{
    if line.len() == 0 || line.last() != 10 {
        assert(terminated_line(line).drop_last() =~= line);
    }
}

/// The bytes of lines, counted and put together, are those of each line, in order.
pub proof fn law_lines_add_up(lines: Seq<Seq<u8>>, line: Seq<u8>)
    ensures
        total_len(Seq::empty()) == 0,
        total_len(lines.push(line)) == total_len(lines) + line.len(),
        joined(Seq::empty()) == Seq::<u8>::empty(),
        joined(lines.push(line)) == joined(lines) + line,
        joined(lines).len() == total_len(lines),
{
    lemma_total_len_push(lines, line);
    lemma_joined_len(lines);
    lemma_joined_concat(lines, seq![line]);
    assert(lines + seq![line] =~= lines.push(line));
    assert(joined(seq![line].drop_first()) == Seq::<u8>::empty());
    assert(seq![line].first() == line);
    assert(joined(seq![line]) =~= line);
}

/// What is kept of lines within a budget is a run of last ones, fits the budget, and is all of them
/// where they fit.
pub proof fn law_kept_lines_are_last_lines(lines: Seq<Seq<u8>>, budget: nat)
    ensures
        fitted(lines, budget).len() <= lines.len(),
        fitted(lines, budget) == lines.skip(lines.len() - fitted(lines, budget).len()),
        total_len(fitted(lines, budget)) <= budget,
        total_len(lines) <= budget ==> fitted(lines, budget) == lines,
{
    lemma_fitted(lines, budget);
}

/// Every line that was handed to a writer, with its newline, is among those that count, in order,
/// if it is no longer than the whole attachment may be; no other line is.
pub proof fn law_lines_that_fit_are_all_counted(
    max_bytes: nat,
    events: Seq<AttachmentEvent>,
    event: AttachmentEvent,
)
    ensures
        lines_that_fit(max_bytes, Seq::empty()).len() == 0,
        lines_that_fit(max_bytes, events.push(event)) == (match event {
            AttachmentEvent::Line { line } => {
                let written = if line.len() > 0 && line.last() == 10 {
                    line
                } else {
                    line.push(10)
                };
                if written.len() <= max_bytes {
                    lines_that_fit(max_bytes, events).push(written)
                } else {
                    lines_that_fit(max_bytes, events)
                }
            },
            AttachmentEvent::LeftOut => lines_that_fit(max_bytes, events),
        }),
{
    assert(events.push(event).drop_last() =~= events);
    assert(events.push(event).last() == event);
}

/// Lines that take no more than half of the budget together are all written at once, in order, and
/// nothing is reported as left out.
pub proof fn law_small_attachments_are_complete(max_bytes: nat, events: Seq<AttachmentEvent>)
    requires
        forall|i: int| 0 <= i < events.len() ==> (#[trigger] events[i]) is Line,
        forall|i: int|
            0 <= i < events.len() ==> terminated_line((#[trigger] events[i])->line).len()
                <= max_bytes,
        total_len(lines_that_fit(max_bytes, events)) <= max_bytes / 2,
    ensures
        attachment_run(max_bytes, events).head == lines_that_fit(max_bytes, events),
        attachment_run(max_bytes, events).writer.tail.len() == 0,
        !attachment_run(max_bytes, events).writer.truncated,
{
    let run = attachment_run(max_bytes, events);
    let lines = lines_that_fit(max_bytes, events);
    law_attachment_keeps_head_and_tail(max_bytes, events);
    law_attachment_keeps_as_much_as_it_can(max_bytes, events);
    law_truncated_means_left_out(max_bytes, events);
    if run.head.len() < lines.len() {
        lemma_total_len_take(lines, run.head.len() as int + 1);
    }
    assert(run.head =~= lines);
    assert forall|i: int| 0 <= i < events.len() implies !leaves_out(
        max_bytes,
        #[trigger] events[i],
    ) by {
        assert(events[i] is Line);
    }
}

proof fn lemma_total_len_take(lines: Seq<Seq<u8>>, n: int)
    requires
        0 <= n <= lines.len(),
    ensures
        total_len(lines.take(n)) <= total_len(lines),
    decreases lines.len() - n,
{
    if n < lines.len() {
        lemma_total_len_take(lines, n + 1);
        assert(lines.take(n + 1) =~= lines.take(n).push(lines[n]));
        lemma_total_len_push(lines.take(n), lines[n]);
    } else {
        assert(lines.take(n) =~= lines);
    }
}

/// A writer hands a line back to be written with its newline, or keeps it; it never changes it. A
/// line that fits what is left of the first half of the budget is written at once as long as every
/// line before it was.
pub proof fn law_lines_are_written_unchanged(
    writer: &mut AttachmentWriter,
    line: &[u8],
    action: LineAction,
)
    requires
        old(writer).wf(),
        call_ensures(AttachmentWriter::push_line, (writer, line), action),
    ensures
        ({
            let len: nat = if line@.len() > 0 && line@.last() == 10 {
                line@.len()
            } else {
                line@.len() + 1
            };
            let fits = !old(writer)@.head_full && old(writer)@.head_bytes + len
                <= old(writer)@.max_bytes / 2;
            &&& action is Write <==> fits
            &&& action matches LineAction::Write { line: written } ==> written@ == (if line@.len() > 0
                && line@.last() == 10 {
                line@
            } else {
                line@.push(10)
            })
            &&& final(writer)@.max_bytes == old(writer)@.max_bytes
            &&& fits ==> final(writer)@.head_bytes == old(writer)@.head_bytes + len
                && final(writer)@.tail == old(writer)@.tail && final(writer)@.truncated
                == old(writer)@.truncated
            &&& len > old(writer)@.max_bytes ==> final(writer)@.truncated && final(writer)@.tail
                == old(writer)@.tail
            &&& !fits && len <= old(writer)@.max_bytes - old(writer)@.max_bytes / 2 ==> {
                &&& final(writer)@.tail.len() > 0
                &&& final(writer)@.tail.last() == terminated_line(line@)
            }
        }),
{
    let max = old(writer)@.max_bytes;
    assert(max / 2 <= max);
    let kept = old(writer)@.tail.push(terminated_line(line@));
    lemma_fitted(kept, old(writer)@.tail_budget());
    lemma_fitted_push(old(writer)@.tail, terminated_line(line@), old(writer)@.tail_budget());
}

/// The line that describes the session is taken exactly where, with its newline, it fits half of
/// the budget.
pub proof fn law_headers_fit_half_of_the_budget(
    writer: &mut AttachmentWriter,
    line: &[u8],
    action: ThreadStoreResult<LineAction>,
)
    requires
        old(writer).wf(),
        call_ensures(AttachmentWriter::push_header_line, (writer, line), action),
    ensures
        action is Ok <==> (if line@.len() > 0 && line@.last() == 10 {
            line@.len()
        } else {
            line@.len() + 1
        }) <= old(writer)@.max_bytes / 2,
        action is Err ==> final(writer)@ == old(writer)@,
{
}

/// A new writer has written nothing, holds nothing back, and left nothing out; one that ends gives
/// the lines that it held back, in order, and says whether something was left out.
pub proof fn law_writers_start_empty_and_end_with_their_tail(
    max_bytes: usize,
    writer: AttachmentWriter,
    ending: AttachmentWriter,
    end: AttachmentEnd,
    i: int,
)
    requires
        call_ensures(AttachmentWriter::new, (max_bytes,), writer),
        ending.wf(),
        call_ensures(AttachmentWriter::finish, (ending,), end),
    ensures
        writer.wf(),
        writer@.max_bytes == max_bytes,
        writer@.head_bytes == 0,
        !writer@.head_full,
        writer@.tail.len() == 0,
        !writer@.truncated,
        end.truncated == ending@.truncated,
        end.tail@.len() == ending@.tail.len(),
        0 <= i < end.tail@.len() ==> end.tail@[i]@ == ending@.tail[i],
{
    assert(line_views(end.tail@).len() == end.tail@.len());
    if 0 <= i < end.tail@.len() {
        assert(line_views(end.tail@)[i] == end.tail@[i]@);
    }
}

/// A header that does not fit is refused with a message of its own, and a line that was left out
/// changes nothing but that something was left out.
pub proof fn law_left_out_lines_are_remembered(
    marking: &mut AttachmentWriter,
    writer: &mut AttachmentWriter,
    line: &[u8],
    error: ThreadStoreError,
    max_bytes: usize,
)
    requires
        old(marking).wf(),
        call_ensures(AttachmentWriter::mark_truncated, (marking,), ()),
        old(writer).wf(),
        call_ensures(
            AttachmentWriter::push_header_line,
            (writer, line),
            Err::<LineAction, ThreadStoreError>(error),
        ),
        call_ensures(AttachmentWriter::max_bytes, (&*old(marking),), max_bytes),
    ensures
        final(marking)@.truncated,
        final(marking)@.tail == old(marking)@.tail,
        final(marking)@.head_bytes == old(marking)@.head_bytes,
        final(marking)@.head_full == old(marking)@.head_full,
        final(marking)@.max_bytes == max_bytes,
        error@ == (crate::error::ErrorView::InvalidRequest {
            message: "logical reference SessionMeta exceeds attachment head budget"@,
        }),
{
}

/// A line that is not written at once goes behind those held back, of which then as many last ones
/// stay as the second half of the budget allows; from then on no line is written at once. A line
/// that is longer than the whole budget changes nothing but that something was left out.
pub proof fn law_held_back_lines_are_the_last_ones(
    writer: &mut AttachmentWriter,
    line: &[u8],
    start: int,
)
    requires
        old(writer).wf(),
        call_ensures(AttachmentWriter::push_line, (writer, line), LineAction::Keep),
        0 <= start <= old(writer)@.tail.len() + 1,
    ensures
        ({
            let written = if line@.len() > 0 && line@.last() == 10 {
                line@
            } else {
                line@.push(10)
            };
            let held = old(writer)@.tail.push(written);
            let max = old(writer)@.max_bytes;
            let tail = final(writer)@.tail;
            &&& written.len() > max ==> {
                &&& final(writer)@.head_full == old(writer)@.head_full
                &&& final(writer)@.head_bytes == old(writer)@.head_bytes
                &&& final(writer)@.tail == old(writer)@.tail
                &&& final(writer)@.truncated
            }
            &&& written.len() <= max ==> {
                &&& final(writer)@.head_full
                &&& final(writer)@.head_bytes == old(writer)@.head_bytes
                &&& tail.len() <= held.len()
                &&& tail == held.skip(held.len() - tail.len())
                &&& total_len(tail) <= max - max / 2
                &&& total_len(held.skip(start)) <= max - max / 2 ==> held.len() - start
                    <= tail.len()
                &&& final(writer)@.truncated <==> old(writer)@.truncated || tail.len()
                    < held.len()
            }
        }),
{
    let held = old(writer)@.tail.push(terminated_line(line@));
    let budget = old(writer)@.tail_budget();
    lemma_fitted(held, budget);
    if total_len(held.skip(start)) <= budget {
        law_longest_tail_is_kept(held, budget, start);
    }
}

} // verus!
