//! Cutoffs of legacy rollouts: offsets just behind a complete, valid record.
//!
//! A check asks for byte ranges of the rollout, is handed the bytes, and ends with a verdict. What
//! the verdict says holds of every file that agrees with the bytes that were handed over.

use crate::envelope;
use crate::envelope::EnvelopeField;
use crate::json;
use crate::reverse_scanner;
use vstd::prelude::*;

verus! {

/// How many bytes one request of a search for a newline asks for at most.
pub const REVERSE_SCAN_CHUNK_SIZE: u64 = 65536;

/// What a legacy cutoff was found to be.
#[derive(Clone, Copy, Debug, PartialEq, Eq, Structural)]
pub enum EnvelopeVerdict {
    /// A complete record with a valid envelope ends at this offset.
    Complete { end: u64 },
    /// No nonempty line with a newline ends there.
    Incomplete,
    /// The line that ends there, from `start` on, is not a record with a valid envelope.
    Invalid { start: u64, end: u64 },
}

/// Stored bytes that are not a record with a valid envelope, and why they are none.
#[derive(Debug, PartialEq, Eq)]
pub struct InvalidEnvelope {
    pub reason: String,
}

/// Whether a field has the type that a legacy record asks of it: strings for `timestamp` and
/// `type`, an object for `payload`.
pub open spec fn loosely_typed(field: envelope::FieldView) -> bool {
    match field {
        envelope::FieldView::Timestamp { is_text } => is_text,
        envelope::FieldView::Kind { text } => text is Some,
        envelope::FieldView::Payload { object, .. } => object is Some,
        envelope::FieldView::Other => true,
    }
}

/// Whether a record with these fields has a valid envelope: `timestamp`, `type` and `payload`
/// occur, and every occurrence has its type.
pub open spec fn valid_fields(fields: Seq<envelope::FieldView>) -> bool {
    &&& forall|i: int| 0 <= i < fields.len() ==> loosely_typed(#[trigger] fields[i])
    &&& exists|i: int| 0 <= i < fields.len() && (#[trigger] fields[i]) is Timestamp
    &&& exists|i: int| 0 <= i < fields.len() && (#[trigger] fields[i]) is Kind
    &&& exists|i: int| 0 <= i < fields.len() && (#[trigger] fields[i]) is Payload
}

/// Whether bytes are one record with a valid envelope.
pub open spec fn is_envelope(record: Seq<u8>) -> bool {
    match envelope::envelope_fields(record) {
        Some(fields) => valid_fields(fields),
        None => false,
    }
}

/// The verdict on the line whose newline is the byte just before `end`.
pub open spec fn line_verdict(file: Seq<u8>, end: u64) -> EnvelopeVerdict {
    let start = reverse_scanner::line_start(file.take(end - 1));
    if start >= end - 1 {
        EnvelopeVerdict::Incomplete
    } else if is_envelope(file.subrange(start, end - 1)) {
        EnvelopeVerdict::Complete { end }
    } else {
        EnvelopeVerdict::Invalid { start: start as u64, end }
    }
}

/// The verdict on a given cutoff.
pub open spec fn cutoff_verdict(file: Seq<u8>, end: u64) -> EnvelopeVerdict {
    if end == 0 || end > file.len() || !reverse_scanner::is_newline(file[end - 1]) {
        EnvelopeVerdict::Incomplete
    } else {
        line_verdict(file, end)
    }
}

/// Whether a legacy rollout can be cut off at `end`: a complete record with a valid envelope ends
/// there.
pub open spec fn accepts_cutoff(file: Seq<u8>, end: u64) -> bool {
    cutoff_verdict(file, end) == (EnvelopeVerdict::Complete { end })
}

/// The greatest cutoff up to `limit` that a legacy rollout accepts, or zero where there is none.
pub open spec fn last_cutoff_up_to(file: Seq<u8>, limit: int) -> int
    decreases limit,
{
    if limit <= 0 {
        0
    } else if accepts_cutoff(file, limit as u64) {
        limit
    } else {
        last_cutoff_up_to(file, limit - 1)
    }
}

/// The offset just behind the last complete record with a valid envelope, or zero where there is
/// none: the greatest cutoff that the rollout accepts.
pub open spec fn last_envelope_offset(file: Seq<u8>) -> int {
    last_cutoff_up_to(file, file.len() as int)
}

proof fn lemma_last_cutoff_up_to(file: Seq<u8>, limit: int, later: u64)
    requires
        0 <= limit <= u64::MAX,
    ensures
        0 <= last_cutoff_up_to(file, limit) <= limit,
        last_cutoff_up_to(file, limit) > 0 ==> accepts_cutoff(
            file,
            last_cutoff_up_to(file, limit) as u64,
        ),
        last_cutoff_up_to(file, limit) < later <= limit ==> !accepts_cutoff(file, later),
    decreases limit,
{
    if limit > 0 && !accepts_cutoff(file, limit as u64) {
        lemma_last_cutoff_up_to(file, limit - 1, later);
    }
}

/// The cutoff that a legacy rollout offers is one that it accepts, and it accepts no later one;
/// where it offers none, it accepts none.
pub proof fn law_last_envelope_is_the_greatest_cutoff(file: Seq<u8>, later: u64)
    requires
        file.len() <= u64::MAX,
    ensures
        0 <= last_envelope_offset(file) <= file.len(),
        last_envelope_offset(file) > 0 ==> accepts_cutoff(file, last_envelope_offset(file) as u64),
        later > last_envelope_offset(file) ==> !accepts_cutoff(file, later),
{
    lemma_last_cutoff_up_to(file, file.len() as int, later);
}

/// The verdict on a cutoff does not change when the rollout grows.
pub proof fn law_cutoff_survives_appends(file: Seq<u8>, appended: Seq<u8>, end: u64)
    requires
        end <= file.len(),
    ensures
        cutoff_verdict(file + appended, end) == cutoff_verdict(file, end),
{
    if end > 0 {
        let longer = file + appended;
        assert(longer.take(end - 1) =~= file.take(end - 1));
        reverse_scanner::lemma_line_start(file.take(end - 1));
        let start = reverse_scanner::line_start(file.take(end - 1));
        assert(longer.subrange(start, end - 1) =~= file.subrange(start, end - 1));
    }
}

/// Judges a record by its fields.
pub fn has_valid_fields(fields: &Vec<EnvelopeField>) -> (valid: bool)
    ensures
        valid == valid_fields(envelope::field_views(fields@)),
{
    let ghost views = envelope::field_views(fields@);
    let mut timestamp: bool = false;
    let mut kind: bool = false;
    let mut payload: bool = false;
    let mut i: usize = 0;
    while i < fields.len()
        invariant
            i <= fields@.len(),
            views == envelope::field_views(fields@),
            forall|j: int| 0 <= j < i ==> loosely_typed(#[trigger] views[j]),
            timestamp == exists|j: int| 0 <= j < i && (#[trigger] views[j]) is Timestamp,
            kind == exists|j: int| 0 <= j < i && (#[trigger] views[j]) is Kind,
            payload == exists|j: int| 0 <= j < i && (#[trigger] views[j]) is Payload,
        decreases fields@.len() - i,
    {
        assert(views[i as int] == fields@[i as int]@);
        let typed: bool = match &fields[i] {
            EnvelopeField::Timestamp { is_text } => {
                timestamp = true;
                assert(views[i as int] is Timestamp);
                *is_text
            },
            EnvelopeField::Kind { text } => {
                kind = true;
                assert(views[i as int] is Kind);
                text.is_some()
            },
            EnvelopeField::Payload { object, .. } => {
                payload = true;
                assert(views[i as int] is Payload);
                object.is_some()
            },
            EnvelopeField::Other => true,
        };
        if !typed {
            assert(!loosely_typed(views[i as int]));
            return false;
        }
        i = i + 1;
    }
    timestamp && kind && payload
}

/// Whether bytes are one record with a valid envelope.
pub fn is_rollout_envelope(record: &[u8]) -> (valid: bool)
    ensures
        valid == is_envelope(record@),
{
    match envelope::read_fields(record) {
        Some(fields) => has_valid_fields(&fields),
        None => false,
    }
}

#[derive(Debug)]
enum Phase {
    /// The byte before the cutoff is to be read.
    Terminator { end: u64 },
    /// The last newline before that at `end - 1` lies before the cursor.
    FindStart { end: u64, cursor: u64 },
    /// The line itself is to be read.
    Record { start: u64, end: u64 },
    Done { verdict: EnvelopeVerdict },
}

/// What a check needs or found.
#[derive(Clone, Copy, Debug, PartialEq, Eq, Structural)]
pub enum EnvelopeStep {
    /// The check needs these bytes of the rollout: hand them to [`EnvelopeCheck::supply`].
    Read { offset: u64, len: u64 },
    /// The check is over.
    Done { verdict: EnvelopeVerdict },
}

/// A check of a legacy rollout under way.
#[derive(Debug)]
pub struct EnvelopeCheck {
    cutoff: u64,
    file_len: u64,
    phase: Phase,
}

/// Where a request for the bytes before `cursor` starts.
spec fn chunk_start(cursor: u64) -> int {
    if cursor < REVERSE_SCAN_CHUNK_SIZE {
        0
    } else {
        cursor - REVERSE_SCAN_CHUNK_SIZE
    }
}

fn chunk_offset(cursor: u64) -> (offset: u64)
    ensures
        offset == chunk_start(cursor),
        offset <= cursor,
        cursor > 0 ==> offset < cursor,
{
    if cursor < REVERSE_SCAN_CHUNK_SIZE {
        0
    } else {
        cursor - REVERSE_SCAN_CHUNK_SIZE
    }
}

/// Where the last line of the bytes starts.
fn find_line_start(bytes: &[u8]) -> (start: usize)
    ensures
        start == reverse_scanner::line_start(bytes@),
        start <= bytes@.len(),
{
    let mut start: usize = bytes.len();
    assert(bytes@.take(start as int) =~= bytes@);
    while start > 0 && bytes[start - 1] != 10
        invariant
            start <= bytes@.len(),
            reverse_scanner::line_start(bytes@.take(start as int)) == reverse_scanner::line_start(
                bytes@,
            ),
        decreases start,
    {
        assert(bytes@.take(start as int).drop_last() =~= bytes@.take(start - 1));
        start = start - 1;
    }
    start
}

/// A search goes on before a chunk without a newline, and ends in a chunk with one.
proof fn lemma_search_step(file: Seq<u8>, from: int, cursor: int)
    requires
        0 <= from <= cursor <= file.len(),
    ensures
        ({
            let found = reverse_scanner::line_start(file.subrange(from, cursor));
            &&& 0 <= found <= cursor - from
            &&& reverse_scanner::line_start(file.take(cursor)) == (if found > 0 {
                from + found
            } else {
                reverse_scanner::line_start(file.take(from))
            })
        }),
{
    let chunk = file.subrange(from, cursor);
    reverse_scanner::lemma_line_start(chunk);
    let found = reverse_scanner::line_start(chunk);
    let line = chunk.skip(found);
    let prefix = file.take(from + found);
    assert(file.take(cursor) =~= prefix + line);
    reverse_scanner::lemma_line_start_extends(prefix, line);
    if found > 0 {
        assert(prefix.last() == chunk[found - 1]);
    }
}

impl EnvelopeCheck {
    /// What every check keeps.
    pub closed spec fn wf(&self) -> bool {
        match self.phase {
            Phase::Terminator { end } => 0 < end <= self.file_len,
            Phase::FindStart { end, cursor } => 0 < cursor < end <= self.file_len,
            Phase::Record { start, end } => start < end - 1 && end <= self.file_len,
            Phase::Done { .. } => true,
        }
    }

    /// The cutoff that is checked.
    pub closed spec fn cutoff(&self) -> u64 {
        self.cutoff
    }

    /// Whether the bytes seen so far are those of this file.
    pub closed spec fn agrees(&self, file: Seq<u8>) -> bool {
        &&& file.len() == self.file_len
        &&& match self.phase {
            Phase::Terminator { end } => end == self.cutoff,
            Phase::FindStart { end, cursor } => cutoff_verdict(file, self.cutoff) == line_verdict(
                file,
                end,
            ) && reverse_scanner::line_start(file.take(cursor as int))
                == reverse_scanner::line_start(file.take(end - 1)),
            Phase::Record { start, end } => cutoff_verdict(file, self.cutoff) == (if is_envelope(
                file.subrange(start as int, end - 1),
            ) {
                EnvelopeVerdict::Complete { end }
            } else {
                EnvelopeVerdict::Invalid { start, end }
            }),
            Phase::Done { verdict } => verdict == cutoff_verdict(file, self.cutoff),
        }
    }

    /// The range of bytes that the check waits for, if it is not over.
    pub closed spec fn awaited(&self) -> Option<(int, int)> {
        match self.phase {
            Phase::Terminator { end } => Some((end - 1, end as int)),
            Phase::FindStart { cursor, .. } => Some((chunk_start(cursor), cursor as int)),
            Phase::Record { start, end } => Some((start as int, end - 1)),
            Phase::Done { .. } => None,
        }
    }

    /// A bound on how often the check still has to be handed bytes.
    pub closed spec fn remaining(&self) -> nat {
        match self.phase {
            Phase::Terminator { .. } => (self.file_len + 3) as nat,
            Phase::FindStart { cursor, .. } => (cursor + 2) as nat,
            Phase::Record { .. } => 1,
            Phase::Done { .. } => 0,
        }
    }

    /// Starts a check of a cutoff of a rollout of `file_len` bytes.
    pub fn new(file_len: u64, cutoff: u64) -> (check: Self)
        ensures
            check.wf(),
            check.cutoff() == cutoff,
            forall|file: Seq<u8>| file.len() == file_len ==> #[trigger] check.agrees(file),
    {
        let phase: Phase = if cutoff == 0 || cutoff > file_len {
            Phase::Done { verdict: EnvelopeVerdict::Incomplete }
        } else {
            Phase::Terminator { end: cutoff }
        };
        EnvelopeCheck { cutoff, file_len, phase }
    }

    /// Says which bytes the check needs next, or its verdict.
    pub fn next(&self) -> (step: EnvelopeStep)
        requires
            self.wf(),
        ensures
            match step {
                EnvelopeStep::Read { offset, len } => len > 0 && self.awaited() == Some(
                    (offset as int, offset + len),
                ) && forall|file: Seq<u8>| #[trigger]
                    self.agrees(file) ==> offset + len <= file.len(),
                EnvelopeStep::Done { verdict } => self.awaited() is None && forall|file: Seq<u8>|
                    #[trigger] self.agrees(file) ==> verdict == cutoff_verdict(
                        file,
                        self.cutoff(),
                    ),
            },
    {
        match self.phase {
            Phase::Terminator { end } => EnvelopeStep::Read { offset: end - 1, len: 1 },
            Phase::FindStart { cursor, .. } => {
                let offset: u64 = chunk_offset(cursor);
                EnvelopeStep::Read { offset, len: cursor - offset }
            },
            Phase::Record { start, end } => EnvelopeStep::Read {
                offset: start,
                len: end - 1 - start,
            },
            Phase::Done { verdict } => EnvelopeStep::Done { verdict },
        }
    }

    /// The phase once it is known where the line with its newline at `end - 1` starts.
    fn line_found(start: u64, end: u64) -> (phase: Phase)
        requires
            0 < end,
            start < end,
        ensures
            phase == (if start >= end - 1 {
                Phase::Done { verdict: EnvelopeVerdict::Incomplete }
            } else {
                Phase::Record { start, end }
            }),
    {
        if start >= end - 1 {
            Phase::Done { verdict: EnvelopeVerdict::Incomplete }
        } else {
            Phase::Record { start, end }
        }
    }

    /// The phase once it is known that a newline stands at `end - 1`.
    fn end_found(end: u64) -> (phase: Phase)
        requires
            0 < end,
        ensures
            phase == (if end == 1 {
                Phase::Done { verdict: EnvelopeVerdict::Incomplete }
            } else {
                Phase::FindStart { end, cursor: (end - 1) as u64 }
            }),
    {
        if end == 1 {
            Phase::Done { verdict: EnvelopeVerdict::Incomplete }
        } else {
            Phase::FindStart { end, cursor: end - 1 }
        }
    }

    /// Hands the check the bytes that it asked for.
    pub fn supply(&mut self, bytes: &[u8])
        requires
            old(self).wf(),
            old(self).awaited() matches Some((from, to)) && bytes@.len() == to - from,
        ensures
            final(self).wf(),
            final(self).cutoff() == old(self).cutoff(),
            final(self).remaining() < old(self).remaining(),
            forall|file: Seq<u8>|
                #![trigger old(self).agrees(file)]
                #![trigger final(self).agrees(file)]
                old(self).agrees(file) && bytes@ == file.subrange(
                    old(self).awaited()->Some_0.0,
                    old(self).awaited()->Some_0.1,
                ) ==> final(self).agrees(file),
    {
        let ghost before = *self;
        match self.phase {
            Phase::Terminator { end } => {
                if bytes[0] != 10 {
                    self.phase = Phase::Done { verdict: EnvelopeVerdict::Incomplete };
                } else {
                    self.phase = Self::end_found(end);
                }
                assert forall|file: Seq<u8>|
                    #![trigger self.agrees(file)]
                    before.agrees(file) && bytes@ == file.subrange(end - 1, end as int) implies self.agrees(
                    file,
                ) by {
                    assert(bytes@[0] == file[end - 1]);
                    assert(file.take(0).len() == 0);
                }
            },
            Phase::FindStart { end, cursor } => {
                let offset: u64 = chunk_offset(cursor);
                let found: usize = find_line_start(bytes);
                if found > 0 {
                    self.phase = Self::line_found(offset + found as u64, end);
                } else if offset == 0 {
                    self.phase = Self::line_found(0, end);
                } else {
                    self.phase = Phase::FindStart { end, cursor: offset };
                }
                assert forall|file: Seq<u8>|
                    #![trigger self.agrees(file)]
                    before.agrees(file) && bytes@ == file.subrange(
                        offset as int,
                        cursor as int,
                    ) implies self.agrees(file) by {
                    lemma_search_step(file, offset as int, cursor as int);
                    assert(file.take(0).len() == 0);
                }
            },
            Phase::Record { start, end } => {
                let verdict: EnvelopeVerdict = if is_rollout_envelope(bytes) {
                    EnvelopeVerdict::Complete { end }
                } else {
                    EnvelopeVerdict::Invalid { start, end }
                };
                self.phase = Phase::Done { verdict };
            },
            Phase::Done { .. } => {},
        }
    }
}

/// The answer to whether a cutoff ends a complete record: a line that is no record has none, for
/// this reason.
pub open spec fn answer_to(verdict: EnvelopeVerdict, reason: String) -> Result<
    bool,
    InvalidEnvelope,
> {
    match verdict {
        EnvelopeVerdict::Complete { .. } => Ok(true),
        EnvelopeVerdict::Incomplete => Ok(false),
        EnvelopeVerdict::Invalid { .. } => Err(InvalidEnvelope { reason }),
    }
}

/// The answer to whether a cutoff ends a complete record; `reason` says why its line is none, and
/// is of no account otherwise.
pub fn cutoff_answer(verdict: EnvelopeVerdict, reason: String) -> (answer: Result<
    bool,
    InvalidEnvelope,
>)
    ensures
        answer == answer_to(verdict, reason),
{
    match verdict {
        EnvelopeVerdict::Complete { .. } => Ok(true),
        EnvelopeVerdict::Incomplete => Ok(false),
        EnvelopeVerdict::Invalid { .. } => Err(InvalidEnvelope { reason }),
    }
}

/// A record has a valid envelope exactly where it is one JSON object that has a `timestamp`, a
/// `type` and a `payload`, where every `timestamp` and every `type` is a string, whatever its
/// characters, and every `payload` is an object, whatever its members. Nothing else counts.
pub proof fn law_envelopes_are_objects_with_their_three_members(record: Seq<u8>)
    ensures
        json::object_members(record) is None ==> !is_envelope(record),
        json::object_members(record) matches Some(members) ==> (is_envelope(record) <==> {
            &&& forall|i: int|
                0 <= i < members.len() && ((#[trigger] members[i]).key == "timestamp"@
                    || members[i].key == "type"@) ==> json::json_string_prefix(
                    record.subrange(members[i].start, members[i].end),
                ) is Some
            &&& forall|i: int|
                0 <= i < members.len() && (#[trigger] members[i]).key == "payload"@
                    ==> json::object_members(record.subrange(members[i].start, members[i].end))
                    is Some
            &&& exists|i: int| 0 <= i < members.len() && (#[trigger] members[i]).key == "timestamp"@
            &&& exists|i: int| 0 <= i < members.len() && (#[trigger] members[i]).key == "type"@
            &&& exists|i: int| 0 <= i < members.len() && (#[trigger] members[i]).key == "payload"@
        }),
{
    envelope::law_record_fields(record, 0);
    if let Some(members) = json::object_members(record) {
        let fields = envelope::envelope_fields(record)->Some_0;
        assert forall|i: int| 0 <= i < members.len() implies {
            let value = record.subrange(members[i].start, members[i].end);
            let key = (#[trigger] members[i]).key;
            &&& (key == "timestamp"@ <==> fields[i] is Timestamp)
            &&& (key == "type"@ <==> fields[i] is Kind)
            &&& (key == "payload"@ <==> fields[i] is Payload)
            &&& (key == "timestamp"@ || key == "type"@ ==> (loosely_typed(fields[i])
                <==> json::json_string_prefix(value) is Some))
            &&& (key == "payload"@ ==> (loosely_typed(fields[i]) <==> json::object_members(
                value,
            ) is Some))
            &&& (key != "timestamp"@ && key != "type"@ && key != "payload"@ ==> loosely_typed(
                fields[i],
            ))
        } by {
            envelope::law_record_fields(record, i);
            envelope::law_fields_by_key(record, members[i]);
            reveal_strlit("timestamp");
            reveal_strlit("type");
            reveal_strlit("payload");
            assert("timestamp"@.len() == 9 && "type"@.len() == 4 && "payload"@.len() == 7);
        }
        assert(fields.len() == members.len());
        if is_envelope(record) {
            let t = choose|i: int| 0 <= i < fields.len() && (#[trigger] fields[i]) is Timestamp;
            let k = choose|i: int| 0 <= i < fields.len() && (#[trigger] fields[i]) is Kind;
            let p = choose|i: int| 0 <= i < fields.len() && (#[trigger] fields[i]) is Payload;
            assert(members[t].key == "timestamp"@);
            assert(members[k].key == "type"@);
            assert(members[p].key == "payload"@);
            assert forall|i: int|
                0 <= i < members.len() && ((#[trigger] members[i]).key == "timestamp"@
                    || members[i].key == "type"@) implies json::json_string_prefix(
                record.subrange(members[i].start, members[i].end),
            ) is Some by {
                assert(loosely_typed(fields[i]));
            }
            assert forall|i: int|
                0 <= i < members.len() && (#[trigger] members[i]).key
                    == "payload"@ implies json::object_members(
                record.subrange(members[i].start, members[i].end),
            ) is Some by {
                assert(loosely_typed(fields[i]));
            }
        }
        if (forall|i: int|
            0 <= i < members.len() && ((#[trigger] members[i]).key == "timestamp"@ || members[i].key
                == "type"@) ==> json::json_string_prefix(
                record.subrange(members[i].start, members[i].end),
            ) is Some) && (forall|i: int|
            0 <= i < members.len() && (#[trigger] members[i]).key == "payload"@
                ==> json::object_members(record.subrange(members[i].start, members[i].end))
                is Some) {
            assert forall|i: int| 0 <= i < fields.len() implies loosely_typed(
                #[trigger] fields[i],
            ) by {
                let key = members[i].key;
            }
            if (exists|i: int| 0 <= i < members.len() && (#[trigger] members[i]).key == "timestamp"@)
                && (exists|i: int| 0 <= i < members.len() && (#[trigger] members[i]).key == "type"@)
                && (exists|i: int|
                0 <= i < members.len() && (#[trigger] members[i]).key == "payload"@) {
                let t = choose|i: int|
                    0 <= i < members.len() && (#[trigger] members[i]).key == "timestamp"@;
                let k = choose|i: int|
                    0 <= i < members.len() && (#[trigger] members[i]).key == "type"@;
                let p = choose|i: int|
                    0 <= i < members.len() && (#[trigger] members[i]).key == "payload"@;
                assert(fields[t] is Timestamp);
                assert(fields[k] is Kind);
                assert(fields[p] is Payload);
            }
        }
    }
}

/// A record is recognised by its envelope exactly where it has a valid one.
pub proof fn law_envelopes_are_recognised(record: &[u8], valid: bool)
    requires
        call_ensures(is_rollout_envelope, (record,), valid),
    ensures
        valid ==> json::object_members(record@) is Some,
        json::object_members(record@) matches Some(members) ==> (valid <==> {
            &&& forall|i: int|
                0 <= i < members.len() && ((#[trigger] members[i]).key == "timestamp"@
                    || members[i].key == "type"@) ==> json::json_string_prefix(
                    record@.subrange(members[i].start, members[i].end),
                ) is Some
            &&& forall|i: int|
                0 <= i < members.len() && (#[trigger] members[i]).key == "payload"@
                    ==> json::object_members(record@.subrange(members[i].start, members[i].end))
                    is Some
            &&& exists|i: int| 0 <= i < members.len() && (#[trigger] members[i]).key == "timestamp"@
            &&& exists|i: int| 0 <= i < members.len() && (#[trigger] members[i]).key == "type"@
            &&& exists|i: int| 0 <= i < members.len() && (#[trigger] members[i]).key == "payload"@
        }),
{
    law_envelopes_are_objects_with_their_three_members(record@);
}

/// Whether a line of a file starts at `start` and has its newline just before `end`.
pub open spec fn is_whole_line(file: Seq<u8>, start: int, end: int) -> bool {
    &&& 0 <= start < end <= file.len()
    &&& file[end - 1] == 10
    &&& start > 0 ==> file[start - 1] == 10
    &&& forall|i: int| start <= i < end - 1 ==> #[trigger] file[i] != 10
}

/// A cutoff holds exactly behind the newline of a nonempty line that is a record with a valid
/// envelope. Behind any other nonempty line it is invalid, and everywhere else it ends no line.
pub proof fn law_cutoffs_are_judged_by_the_line_before_them(file: Seq<u8>, start: int, end: u64)
    requires
        file.len() <= u64::MAX,
    ensures
        is_whole_line(file, start, end as int) ==> cutoff_verdict(file, end) == (if start == end
            - 1 {
            EnvelopeVerdict::Incomplete
        } else if is_envelope(file.subrange(start, end - 1)) {
            EnvelopeVerdict::Complete { end }
        } else {
            EnvelopeVerdict::Invalid { start: start as u64, end }
        }),
        end == 0 || end > file.len() || file[end - 1] != 10 ==> cutoff_verdict(file, end)
            == EnvelopeVerdict::Incomplete,
{
    if is_whole_line(file, start, end as int) {
        let before = file.take(end - 1);
        let prefix = file.take(start);
        let line = file.subrange(start, end - 1);
        assert forall|i: int| 0 <= i < line.len() implies !reverse_scanner::is_newline(
            #[trigger] line[i],
        ) by {
            assert(line[i] == file[start + i]);
        }
        assert(before =~= prefix + line);
        reverse_scanner::lemma_line_start_extends(prefix, line);
        if start > 0 {
            assert(prefix.last() == file[start - 1]);
        }
    }
}

/// A check of a cutoff ends with what the line before the cutoff is.
pub proof fn law_checks_judge_the_line_before_the_cutoff(
    check: &EnvelopeCheck,
    verdict: EnvelopeVerdict,
    file: Seq<u8>,
    start: int,
)
    requires
        check.wf(),
        call_ensures(EnvelopeCheck::next, (check,), EnvelopeStep::Done { verdict }),
        check.agrees(file),
        file.len() <= u64::MAX,
    ensures
        is_whole_line(file, start, check.cutoff() as int) ==> verdict == (if start
            == check.cutoff() - 1 {
            EnvelopeVerdict::Incomplete
        } else if is_envelope(file.subrange(start, check.cutoff() - 1)) {
            EnvelopeVerdict::Complete { end: check.cutoff() }
        } else {
            EnvelopeVerdict::Invalid { start: start as u64, end: check.cutoff() }
        }),
        check.cutoff() == 0 || check.cutoff() > file.len() || file[check.cutoff() - 1] != 10
            ==> verdict == EnvelopeVerdict::Incomplete,
{
    law_cutoffs_are_judged_by_the_line_before_them(file, start, check.cutoff());
}

/// A check is about the cutoff that it was started with, in every file of the given length.
pub proof fn law_checks_are_about_their_cutoff(
    file_len: u64,
    cutoff: u64,
    check: EnvelopeCheck,
    file: Seq<u8>,
)
    requires
        call_ensures(EnvelopeCheck::new, (file_len, cutoff), check),
        file.len() == file_len,
    ensures
        check.cutoff() == cutoff,
        check.agrees(file),
{
}

/// The answer on a cutoff is yes behind a record, no where no nonempty line ends, and an error with
/// its reason behind a line that is no record.
pub proof fn law_answers_follow_verdicts(
    verdict: EnvelopeVerdict,
    reason: String,
    answer: Result<bool, InvalidEnvelope>,
)
    requires
        call_ensures(cutoff_answer, (verdict, reason), answer),
    ensures
        answer == Ok::<bool, InvalidEnvelope>(true) <==> verdict is Complete,
        answer == Ok::<bool, InvalidEnvelope>(false) <==> verdict is Incomplete,
        answer is Err <==> verdict is Invalid,
        answer matches Err(invalid) ==> invalid.reason@ == reason@,
{
}

/// The cutoff that a rollout offers lies behind a whole line that is a record with a valid
/// envelope, and behind no later line stands another one; where it offers none, no whole line is
/// such a record.
pub proof fn law_offered_cutoff_is_behind_the_last_record(file: Seq<u8>, start: int, end: int)
    requires
        file.len() <= u64::MAX,
        is_whole_line(file, start, end),
        start < end - 1,
    ensures
        is_envelope(file.subrange(start, end - 1)) ==> end <= last_envelope_offset(file),
        end == last_envelope_offset(file) ==> is_envelope(file.subrange(start, end - 1)),
{
    law_last_envelope_is_the_greatest_cutoff(file, end as u64);
    law_cutoffs_are_judged_by_the_line_before_them(file, start, end as u64);
}

/// A check asks for bytes within the file, and goes on about the same cutoff of the same file once
/// it has them.
pub proof fn law_checks_go_on_with_what_they_asked_for(
    check: &mut EnvelopeCheck,
    offset: u64,
    len: u64,
    bytes: &[u8],
    file: Seq<u8>,
)
    requires
        old(check).wf(),
        old(check).agrees(file),
        call_ensures(EnvelopeCheck::next, (&*old(check),), EnvelopeStep::Read { offset, len }),
        bytes@ == file.subrange(offset as int, offset + len),
        call_ensures(EnvelopeCheck::supply, (check, bytes), ()),
    ensures
        0 < len,
        offset + len <= file.len(),
        final(check).wf(),
        final(check).agrees(file),
        final(check).cutoff() == old(check).cutoff(),
        final(check).remaining() < old(check).remaining(),
{
}

} // verus!
