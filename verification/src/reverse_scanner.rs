//! Newline-delimited JSON records, read from the end of a file towards its start.

use vstd::prelude::*;

verus! {

/// How many bytes one request asks for at most.
pub const READ_CHUNK_SIZE: u64 = 8192;

/// One nonblank record of a file.
pub struct JsonlRecord {
    /// The record without its newline.
    pub bytes: Seq<u8>,
    /// The offset just behind the record, and behind its newline if it has one.
    pub end_offset: int,
    /// Whether the record ends at a newline.
    pub terminated: bool,
}

/// The byte that ends a record.
pub open spec fn is_newline(byte: u8) -> bool {
    byte == 10
}

/// Space, tab, line feed, form feed or carriage return.
pub open spec fn is_whitespace(byte: u8) -> bool {
    byte == 32 || byte == 9 || byte == 10 || byte == 12 || byte == 13
}

/// Whether a record holds nothing but white space.
pub open spec fn is_blank(bytes: Seq<u8>) -> bool {
    forall|i: int| 0 <= i < bytes.len() ==> is_whitespace(#[trigger] bytes[i])
}

/// Whether no newline occurs in the bytes.
pub open spec fn single_line(bytes: Seq<u8>) -> bool {
    forall|i: int| 0 <= i < bytes.len() ==> !is_newline(#[trigger] bytes[i])
}

/// Where the last line of the bytes starts: just behind their last newline, or at zero.
pub open spec fn line_start(bytes: Seq<u8>) -> int
    decreases bytes.len(),
{
    if bytes.len() == 0 {
        0
    } else if is_newline(bytes.last()) {
        bytes.len() as int
    } else {
        line_start(bytes.drop_last())
    }
}

/// The nonblank records of the bytes, last one first, where the last line ends at `end_offset` and
/// is terminated or not as `terminated` says. Every earlier line ends at its own newline.
pub open spec fn records_before(bytes: Seq<u8>, end_offset: int, terminated: bool) -> Seq<
    JsonlRecord,
>
    decreases bytes.len(),
    via records_before_decreases
{
    let start = line_start(bytes);
    let earlier = if start <= 0 {
        Seq::<JsonlRecord>::empty()
    } else {
        records_before(bytes.take(start - 1), start, true)
    };
    let line = bytes.skip(start);
    if is_blank(line) {
        earlier
    } else {
        seq![JsonlRecord { bytes: line, end_offset, terminated }] + earlier
    }
}

#[via_fn]
proof fn records_before_decreases(bytes: Seq<u8>, end_offset: int, terminated: bool) {
    lemma_line_start(bytes);
}

/// The nonblank records of the first `end` bytes of a file, last one first.
pub open spec fn records_from_end(file: Seq<u8>, end: int) -> Seq<JsonlRecord> {
    records_before(file.take(end), end, false)
}

/// What [`line_start`] is: behind it no newline, and just before it one unless it is zero.
pub proof fn lemma_line_start(bytes: Seq<u8>)
    ensures
        0 <= line_start(bytes) <= bytes.len(),
        single_line(bytes.skip(line_start(bytes))),
        line_start(bytes) > 0 ==> is_newline(bytes[line_start(bytes) - 1]),
    decreases bytes.len(),
{
    if bytes.len() > 0 && !is_newline(bytes.last()) {
        let shorter = bytes.drop_last();
        lemma_line_start(shorter);
        let start = line_start(shorter);
        assert forall|i: int| 0 <= i < bytes.skip(start).len() implies !is_newline(
            #[trigger] bytes.skip(start)[i],
        ) by {
            if i < shorter.skip(start).len() {
                assert(bytes.skip(start)[i] == shorter.skip(start)[i]);
            }
        }
    }
}

/// Bytes without a newline, put behind others, do not move where the last line starts.
pub proof fn lemma_line_start_extends(bytes: Seq<u8>, line: Seq<u8>)
    requires
        single_line(line),
    ensures
        line_start(bytes + line) == line_start(bytes),
    decreases line.len(),
{
    if line.len() == 0 {
        assert(bytes + line =~= bytes);
    } else {
        let whole = bytes + line;
        assert(whole.last() == line.last());
        assert(!is_newline(line[line.len() - 1]));
        assert(whole.drop_last() =~= bytes + line.drop_last());
        assert forall|i: int| 0 <= i < line.drop_last().len() implies !is_newline(
            #[trigger] line.drop_last()[i],
        ) by {
            assert(line.drop_last()[i] == line[i]);
        }
        lemma_line_start_extends(bytes, line.drop_last());
    }
}

/// Where a record's own bytes end: before its newline, if it has one.
pub open spec fn content_end(record: JsonlRecord) -> int {
    if record.terminated {
        record.end_offset - 1
    } else {
        record.end_offset
    }
}

/// Where a record starts.
pub open spec fn content_start(record: JsonlRecord) -> int {
    content_end(record) - record.bytes.len()
}

/// Whether a record is a whole nonblank line of the bytes, and stands where it says.
pub open spec fn is_line_of(record: JsonlRecord, bytes: Seq<u8>) -> bool {
    &&& 0 <= content_start(record)
    &&& content_end(record) <= bytes.len()
    &&& record.bytes == bytes.subrange(content_start(record), content_end(record))
    &&& single_line(record.bytes)
    &&& !is_blank(record.bytes)
    &&& content_start(record) > 0 ==> is_newline(bytes[content_start(record) - 1])
}

proof fn lemma_records_are_lines(bytes: Seq<u8>, end_offset: int, terminated: bool, i: int)
    requires
        end_offset == bytes.len() + (if terminated { 1int } else { 0int }),
        0 <= i < records_before(bytes, end_offset, terminated).len(),
    ensures
        ({
            let record = records_before(bytes, end_offset, terminated)[i];
            &&& is_line_of(record, bytes)
            &&& record.end_offset <= end_offset
            &&& content_end(record) < bytes.len() ==> record.terminated && is_newline(
                bytes[content_end(record)],
            )
            &&& content_end(record) == bytes.len() ==> record.end_offset == end_offset
                && record.terminated == terminated
        }),
    decreases bytes.len(),
{
    lemma_line_start(bytes);
    let start = line_start(bytes);
    let line = bytes.skip(start);
    let first: int = if is_blank(line) { 0 } else { 1 };
    if i < first {
        assert(line =~= bytes.subrange(start, bytes.len() as int));
    } else {
        let shorter = bytes.take(start - 1);
        lemma_records_are_lines(shorter, start, true, i - first);
        let record = records_before(shorter, start, true)[i - first];
        assert(records_before(bytes, end_offset, terminated)[i] == record);
        assert(shorter.subrange(content_start(record), content_end(record)) =~= bytes.subrange(
            content_start(record),
            content_end(record),
        ));
    }
}

/// Every record that a scan returns is a whole nonblank line of the scanned prefix. It is reported
/// as terminated exactly when a newline of that prefix follows it, and its end offset lies just
/// behind that newline, or at the end of the prefix.
pub proof fn law_records_are_lines(file: Seq<u8>, end: int, i: int)
    requires
        0 <= end <= file.len(),
        0 <= i < records_from_end(file, end).len(),
    ensures
        is_line_of(records_from_end(file, end)[i], file),
        records_from_end(file, end)[i].end_offset <= end,
        records_from_end(file, end)[i].terminated <==> content_end(
            records_from_end(file, end)[i],
        ) < end,
        records_from_end(file, end)[i].terminated ==> is_newline(
            file[records_from_end(file, end)[i].end_offset - 1],
        ),
{
    let prefix = file.take(end);
    lemma_records_are_lines(prefix, end, false, i);
    let record = records_from_end(file, end)[i];
    assert(prefix.subrange(content_start(record), content_end(record)) =~= file.subrange(
        content_start(record),
        content_end(record),
    ));
}

proof fn lemma_records_ordered(bytes: Seq<u8>, end_offset: int, terminated: bool, i: int, j: int)
    requires
        end_offset == bytes.len() + (if terminated { 1int } else { 0int }),
        0 <= i < j < records_before(bytes, end_offset, terminated).len(),
    ensures
        records_before(bytes, end_offset, terminated)[j].end_offset <= content_start(
            records_before(bytes, end_offset, terminated)[i],
        ),
    decreases bytes.len(),
{
    lemma_line_start(bytes);
    let start = line_start(bytes);
    let line = bytes.skip(start);
    let first: int = if is_blank(line) { 0 } else { 1 };
    let shorter = bytes.take(start - 1);
    if i >= first {
        lemma_records_ordered(shorter, start, true, i - first, j - first);
    } else {
        lemma_records_are_lines(shorter, start, true, j - first);
        assert(records_before(bytes, end_offset, terminated)[j] == records_before(
            shorter,
            start,
            true,
        )[j - first]);
    }
}

/// A scan walks backwards: each record ends at or before the start of the one returned before it.
pub proof fn law_records_come_last_first(file: Seq<u8>, end: int, i: int, j: int)
    requires
        0 <= end <= file.len(),
        0 <= i < j < records_from_end(file, end).len(),
    ensures
        records_from_end(file, end)[j].end_offset <= content_start(records_from_end(file, end)[i]),
{
    lemma_records_ordered(file.take(end), end, false, i, j);
}

proof fn lemma_line_is_recorded(
    bytes: Seq<u8>,
    end_offset: int,
    terminated: bool,
    line_from: int,
    line_to: int,
) -> (i: int)
    requires
        0 <= line_from <= line_to <= bytes.len(),
        line_from > 0 ==> is_newline(bytes[line_from - 1]),
        line_to < bytes.len() ==> is_newline(bytes[line_to]),
        single_line(bytes.subrange(line_from, line_to)),
        !is_blank(bytes.subrange(line_from, line_to)),
    ensures
        0 <= i < records_before(bytes, end_offset, terminated).len(),
        records_before(bytes, end_offset, terminated)[i] == (JsonlRecord {
            bytes: bytes.subrange(line_from, line_to),
            end_offset: if line_to < bytes.len() { line_to + 1 } else { end_offset },
            terminated: line_to < bytes.len() || terminated,
        }),
    decreases bytes.len(),
{
    lemma_line_start(bytes);
    let start = line_start(bytes);
    let line = bytes.skip(start);
    let wanted = bytes.subrange(line_from, line_to);
    let first: int = if is_blank(line) { 0 } else { 1 };
    if line_to == bytes.len() {
        if line_from < start {
            assert(wanted[start - 1 - line_from] == bytes[start - 1]);
        }
        if line_from > start {
            assert(line[line_from - 1 - start] == bytes[line_from - 1]);
        }
        assert(wanted =~= line);
        0
    } else {
        if line_to >= start {
            assert(line[line_to - start] == bytes[line_to]);
        }
        let shorter = bytes.take(start - 1);
        assert(shorter.subrange(line_from, line_to) =~= wanted);
        let k = lemma_line_is_recorded(shorter, start, true, line_from, line_to);
        assert(records_before(bytes, end_offset, terminated)[k + first] == records_before(
            shorter,
            start,
            true,
        )[k]);
        k + first
    }
}

/// A scan misses nothing: every whole nonblank line of the scanned prefix is among its records.
pub proof fn law_every_line_is_recorded(file: Seq<u8>, end: int, line_from: int, line_to: int)
    requires
        0 <= line_from <= line_to <= end <= file.len(),
        line_from > 0 ==> is_newline(file[line_from - 1]),
        line_to < end ==> is_newline(file[line_to]),
        single_line(file.subrange(line_from, line_to)),
        !is_blank(file.subrange(line_from, line_to)),
    ensures
        records_from_end(file, end).contains(
            JsonlRecord {
                bytes: file.subrange(line_from, line_to),
                end_offset: if line_to < end { line_to + 1 } else { end },
                terminated: line_to < end,
            },
        ),
{
    let prefix = file.take(end);
    assert(prefix.subrange(line_from, line_to) =~= file.subrange(line_from, line_to));
    let i = lemma_line_is_recorded(prefix, end, false, line_from, line_to);
}

/// What lies behind the end of a scan has no part in it.
pub proof fn law_scan_ignores_what_was_appended(file: Seq<u8>, appended: Seq<u8>, end: int)
    requires
        0 <= end <= file.len(),
    ensures
        records_from_end(file + appended, end) == records_from_end(file, end),
{
    assert((file + appended).take(end) =~= file.take(end));
}

/// A line appended to complete lines is the first record of a scan from the new end; the records
/// of the file before it follow.
pub proof fn law_appended_line_comes_first(file: Seq<u8>, line: Seq<u8>)
    requires
        file.len() > 0 ==> is_newline(file.last()),
        single_line(line),
        !is_blank(line),
    ensures
        records_from_end(file + line.push(10), (file.len() + line.len() + 1) as int) == seq![
            JsonlRecord {
                bytes: line,
                end_offset: (file.len() + line.len() + 1) as int,
                terminated: true,
            },
        ] + records_from_end(file, file.len() as int),
{
    let whole = file + line.push(10);
    let end: int = (file.len() + line.len() + 1) as int;
    let first = whole.take(end);
    assert(first =~= whole);
    assert(whole.last() == 10);
    assert(line_start(whole) == end);
    assert(is_blank(whole.skip(end)));
    let second = whole.take(end - 1);
    assert(second =~= file + line);
    lemma_line_start_extends(file, line);
    assert(file.take(file.len() as int) =~= file);
    let start = line_start(file);
    lemma_line_start(file);
    assert(start == file.len());
    assert(second.skip(start) =~= line);
    assert(is_blank(file.skip(start)));
    if start > 0 {
        assert(second.take(start - 1) =~= file.take(start - 1));
    }
    assert(records_before(first, end, false) == records_before(second, end, true));
}

/// Why a scan could not be started.
#[derive(Clone, Copy, Debug, PartialEq, Eq, Structural)]
pub enum ScanStartError {
    /// The requested end lies behind the end of the file.
    EndPastFile,
}

impl ScanStartError {
    /// The message of this error.
    pub fn message(&self) -> (message: String)
        ensures
            message@ == "reverse JSONL scan end is past the file"@,
    {
        "reverse JSONL scan end is past the file".to_owned()
    }
}

/// What a scanner needs or found.
#[derive(Debug)]
pub enum ScanStep {
    /// The scanner needs these bytes of the file: hand them to
    /// [`ReverseJsonlScanner::supply_chunk`].
    Read { offset: u64, len: usize },
    /// The next nonblank record, without its newline.
    Record { bytes: Vec<u8> },
    /// No record is left.
    Finished,
}

/// Scanner for newline-delimited JSON records, starting from the end.
#[derive(Debug)]
pub struct ReverseJsonlScanner {
    next_chunk_end: u64,
    record_end_offset: u64,
    record_terminated_by_newline: bool,
    chunk_position: usize,
    chunk: Vec<u8>,
    record_reversed: Vec<u8>,
    last_record_end_offset: Option<u64>,
    last_record_terminated_by_newline: Option<bool>,
}

/// Whether every byte is ASCII white space.
pub fn all_whitespace(bytes: &[u8]) -> (blank: bool)
    ensures
        blank == is_blank(bytes@),
{
    let mut i: usize = 0;
    while i < bytes.len()
        invariant
            i <= bytes@.len(),
            forall|j: int| 0 <= j < i ==> is_whitespace(#[trigger] bytes@[j]),
        decreases bytes@.len() - i,
    {
        let byte: u8 = bytes[i];
        if !(byte == 32 || byte == 9 || byte == 10 || byte == 12 || byte == 13) {
            assert(!is_whitespace(bytes@[i as int]));
            return false;
        }
        i = i + 1;
    }
    true
}

/// The bytes in reverse order.
fn reversed(bytes: &Vec<u8>) -> (result: Vec<u8>)
    ensures
        result@ == bytes@.reverse(),
{
    let mut result: Vec<u8> = Vec::new();
    let mut left: usize = bytes.len();
    while left > 0
        invariant
            left <= bytes@.len(),
            result@ == bytes@.reverse().take(bytes@.len() - left),
        decreases left,
    {
        left = left - 1;
        result.push(bytes[left]);
        assert(bytes@.reverse().take(bytes@.len() - left) =~= bytes@.reverse().take(
            bytes@.len() - left - 1,
        ).push(bytes@[left as int]));
    }
    assert(bytes@.reverse().take(bytes@.len() as int) =~= bytes@.reverse());
    result
}

/// Reversal turns the last byte into the first.
proof fn lemma_reverse_push(bytes: Seq<u8>, byte: u8)
    ensures
        bytes.push(byte).reverse() == seq![byte] + bytes.reverse(),
{
    assert(bytes.push(byte).reverse() =~= seq![byte] + bytes.reverse());
}

proof fn lemma_reverse_single_line(bytes: Seq<u8>)
    requires
        single_line(bytes),
    ensures
        single_line(bytes.reverse()),
{
    assert forall|i: int| 0 <= i < bytes.reverse().len() implies !is_newline(
        #[trigger] bytes.reverse()[i],
    ) by {
        assert(bytes.reverse()[i] == bytes[bytes.len() - 1 - i]);
    }
}

/// Moving one byte from the chunk to the record changes nothing of what is still to come.
proof fn lemma_byte_joins_record(
    before: ReverseJsonlScanner,
    after: ReverseJsonlScanner,
    byte: u8,
)
    requires
        before.wf(),
        before.chunk_position > 0,
        after == (ReverseJsonlScanner {
            chunk_position: after.chunk_position,
            record_reversed: after.record_reversed,
            ..before
        }),
        after.chunk_position == before.chunk_position - 1,
        byte == before.chunk@[after.chunk_position as int],
        !is_newline(byte),
        after.record_reversed@ == before.record_reversed@.push(byte),
    ensures
        after.wf(),
        forall|file: Seq<u8>|
            #![trigger before.agrees(file)]
            #![trigger after.agrees(file)]
            before.agrees(file) ==> after.agrees(file) && after.upcoming(file)
                == before.upcoming(file),
{
    assert forall|file: Seq<u8>|
        #![trigger before.agrees(file)]
        before.agrees(file) implies after.agrees(file) && after.upcoming(file) == before.upcoming(
        file,
    ) by {
        lemma_shorter_chunk_agrees(before, after, file);
        lemma_reverse_push(before.record_reversed@, byte);
        let position = before.position();
        assert(file.take(position) + before.record_reversed@.reverse() =~= file.take(position - 1)
            + after.record_reversed@.reverse());
    }
}

proof fn lemma_shorter_chunk_agrees(
    before: ReverseJsonlScanner,
    after: ReverseJsonlScanner,
    file: Seq<u8>,
)
    requires
        before.wf(),
        before.chunk_position > 0,
        after.next_chunk_end == before.next_chunk_end,
        after.chunk == before.chunk,
        after.chunk_position == before.chunk_position - 1,
        before.agrees(file),
    ensures
        after.agrees(file),
        before.chunk@[after.chunk_position as int] == file[after.position()],
{
    let chunk = before.chunk@;
    let seen = chunk.take(before.chunk_position as int);
    assert(seen == file.subrange(before.next_chunk_end as int, before.position()));
    assert forall|i: int| 0 <= i < before.chunk_position implies chunk[i] == file[
        before.next_chunk_end + i
    ] by {
        assert(chunk[i] == seen[i]);
    }
    assert(chunk.take(after.chunk_position as int) =~= file.subrange(
        after.next_chunk_end as int,
        after.position(),
    ));
}

/// A newline ends the collected record and starts an empty one before it.
proof fn lemma_newline_ends_record(before: ReverseJsonlScanner, after: ReverseJsonlScanner)
    requires
        before.wf(),
        before.chunk_position > 0,
        after.next_chunk_end == before.next_chunk_end,
        after.chunk == before.chunk,
        after.chunk_position == before.chunk_position - 1,
        is_newline(before.chunk@[after.chunk_position as int]),
        after.record_reversed@.len() == 0,
        after.record_end_offset == before.position(),
        after.record_terminated_by_newline,
    ensures
        forall|file: Seq<u8>|
            #![trigger before.agrees(file)]
            #![trigger after.agrees(file)]
            before.agrees(file) ==> after.agrees(file) && before.upcoming(file) == (if is_blank(
                before.record_reversed@.reverse(),
            ) {
                after.upcoming(file)
            } else {
                seq![
                    JsonlRecord {
                        bytes: before.record_reversed@.reverse(),
                        end_offset: before.record_end_offset as int,
                        terminated: before.record_terminated_by_newline,
                    },
                ] + after.upcoming(file)
            }),
{
    assert forall|file: Seq<u8>|
        #![trigger before.agrees(file)]
        before.agrees(file) implies after.agrees(file) && before.upcoming(file) == (if is_blank(
        before.record_reversed@.reverse(),
    ) {
        after.upcoming(file)
    } else {
        seq![
            JsonlRecord {
                bytes: before.record_reversed@.reverse(),
                end_offset: before.record_end_offset as int,
                terminated: before.record_terminated_by_newline,
            },
        ] + after.upcoming(file)
    }) by {
        lemma_shorter_chunk_agrees(before, after, file);
        let position = before.position();
        let prefix = file.take(position);
        let line = before.record_reversed@.reverse();
        let whole = prefix + line;
        lemma_reverse_single_line(before.record_reversed@);
        lemma_line_start_extends(prefix, line);
        assert(prefix.last() == file[position - 1]);
        assert(line_start(whole) == position);
        assert(whole.skip(position) =~= line);
        assert(whole.take(position - 1) =~= file.take(position - 1)
            + after.record_reversed@.reverse());
    }
}

/// At the start of the file the collected record is the only one left.
proof fn lemma_start_ends_record(before: ReverseJsonlScanner, after: ReverseJsonlScanner)
    requires
        before.wf(),
        before.position() == 0,
        after.next_chunk_end == before.next_chunk_end,
        after.chunk == before.chunk,
        after.chunk_position == before.chunk_position,
        after.record_reversed@.len() == 0,
    ensures
        forall|file: Seq<u8>|
            #![trigger before.agrees(file)]
            #![trigger after.agrees(file)]
            before.agrees(file) ==> after.agrees(file) && after.upcoming(file) == Seq::<
                JsonlRecord,
            >::empty() && before.upcoming(file) == (if is_blank(
                before.record_reversed@.reverse(),
            ) {
                Seq::<JsonlRecord>::empty()
            } else {
                seq![
                    JsonlRecord {
                        bytes: before.record_reversed@.reverse(),
                        end_offset: before.record_end_offset as int,
                        terminated: before.record_terminated_by_newline,
                    },
                ]
            }),
{
    assert forall|file: Seq<u8>|
        #![trigger before.agrees(file)]
        before.agrees(file) implies after.agrees(file) && after.upcoming(file) == Seq::<
        JsonlRecord,
    >::empty() && before.upcoming(file) == (if is_blank(before.record_reversed@.reverse()) {
        Seq::<JsonlRecord>::empty()
    } else {
        seq![
            JsonlRecord {
                bytes: before.record_reversed@.reverse(),
                end_offset: before.record_end_offset as int,
                terminated: before.record_terminated_by_newline,
            },
        ]
    }) by {
        let line = before.record_reversed@.reverse();
        let prefix = file.take(0);
        lemma_reverse_single_line(before.record_reversed@);
        lemma_line_start_extends(prefix, line);
        assert((prefix + line).skip(0) =~= line);
        let nothing = prefix + after.record_reversed@.reverse();
        assert(nothing.len() == 0);
        assert(is_blank(nothing.skip(0)));
    }
}

impl ReverseJsonlScanner {
    /// The offset of the byte that the scanner looks at next, plus one.
    pub closed spec fn position(&self) -> int {
        self.next_chunk_end + self.chunk_position
    }

    /// A bound on how much the scanner still has to do: it shrinks with every record that is
    /// returned and with every chunk that is supplied.
    pub closed spec fn remaining(&self) -> nat {
        (2 * self.position() + self.record_reversed@.len() + if self.chunk_position == 0 {
            1int
        } else {
            0int
        }) as nat
    }

    /// What every scanner keeps.
    pub closed spec fn wf(&self) -> bool {
        &&& self.chunk_position <= self.chunk@.len()
        &&& self.next_chunk_end + self.chunk_position <= u64::MAX
        &&& single_line(self.record_reversed@)
    }

    /// Whether the bytes seen so far are those of this file.
    pub closed spec fn agrees(&self, file: Seq<u8>) -> bool {
        &&& self.position() <= file.len()
        &&& self.chunk@.take(self.chunk_position as int) == file.subrange(
            self.next_chunk_end as int,
            self.position(),
        )
    }

    /// The records of this file that are still to come.
    pub closed spec fn upcoming(&self, file: Seq<u8>) -> Seq<JsonlRecord> {
        records_before(
            file.take(self.position()) + self.record_reversed@.reverse(),
            self.record_end_offset as int,
            self.record_terminated_by_newline,
        )
    }

    /// The offset that [`ReverseJsonlScanner::last_record_end_offset`] returns.
    pub closed spec fn last_end(&self) -> Option<u64> {
        self.last_record_end_offset
    }

    /// The flag that [`ReverseJsonlScanner::last_record_terminated_by_newline`] returns.
    pub closed spec fn last_terminated(&self) -> Option<bool> {
        self.last_record_terminated_by_newline
    }

    /// The number of bytes that the scanner waits for: zero while it still has some.
    pub closed spec fn awaited(&self) -> int {
        if self.chunk_position > 0 {
            0
        } else if self.next_chunk_end < READ_CHUNK_SIZE {
            self.next_chunk_end as int
        } else {
            READ_CHUNK_SIZE as int
        }
    }

    /// A scanner over a whole file of `file_len` bytes, whose last byte is `last_byte`.
    pub fn new(file_len: u64, last_byte: Option<u8>) -> (scanner: Self)
        requires
            file_len > 0 ==> last_byte is Some,
        ensures
            scanner.wf(),
            scanner.last_end() is None,
            scanner.last_terminated() is None,
            forall|file: Seq<u8>|
                #![trigger scanner.agrees(file)]
                #![trigger scanner.upcoming(file)]
                file.len() == file_len && (file_len > 0 ==> last_byte == Some(file.last()))
                    ==> scanner.agrees(file) && scanner.upcoming(file)
                    == records_from_end(file, file_len as int),
    {
        match Self::new_at(file_len, file_len, last_byte) {
            Ok(scanner) => scanner,
            Err(_) => Self::start(file_len, false),
        }
    }

    /// A scanner whose logical end is the given byte offset of a file of `file_len` bytes;
    /// `byte_before_end` is the byte just before that offset.
    ///
    /// This lets callers scan a frozen JSONL prefix without reading records appended after that
    /// prefix was captured.
    pub fn new_at(file_len: u64, end_byte_offset: u64, byte_before_end: Option<u8>) -> (result:
        Result<Self, ScanStartError>)
        requires
            0 < end_byte_offset <= file_len ==> byte_before_end is Some,
        ensures
            result is Err <==> end_byte_offset > file_len,
            result matches Ok(scanner) ==> {
                &&& scanner.wf()
                &&& scanner.last_end() is None
                &&& scanner.last_terminated() is None
                &&& forall|file: Seq<u8>|
                    #![trigger scanner.agrees(file)]
                    #![trigger scanner.upcoming(file)]
                    file.len() == file_len && (end_byte_offset > 0 ==> byte_before_end == Some(
                        file[end_byte_offset - 1],
                    )) ==> scanner.agrees(file) && scanner.upcoming(file)
                        == records_from_end(file, end_byte_offset as int)
            },
    {
        if end_byte_offset > file_len {
            return Err(ScanStartError::EndPastFile);
        }
        let terminated: bool = match byte_before_end {
            Some(byte) => end_byte_offset > 0 && byte == 10,
            None => false,
        };
        let scanner = Self::start(end_byte_offset, terminated);
        proof {
            assert forall|file: Seq<u8>|
                #![trigger scanner.agrees(file)]
                #![trigger scanner.upcoming(file)]
                file.len() == file_len && (end_byte_offset > 0 ==> byte_before_end == Some(
                    file[end_byte_offset - 1],
                )) implies scanner.agrees(file) && scanner.upcoming(file)
                == records_from_end(file, end_byte_offset as int) by {
                let prefix = file.take(end_byte_offset as int);
                assert(scanner.chunk@.take(0) =~= file.subrange(
                    end_byte_offset as int,
                    end_byte_offset as int,
                ));
                assert(prefix + scanner.record_reversed@.reverse() =~= prefix);
                if terminated {
                    assert(prefix.last() == file[end_byte_offset - 1]);
                    assert(line_start(prefix) == prefix.len());
                    assert(is_blank(prefix.skip(line_start(prefix))));
                }
            }
        }
        Ok(scanner)
    }

    fn start(end_byte_offset: u64, terminated: bool) -> (scanner: Self)
        ensures
            scanner.wf(),
            scanner.next_chunk_end == end_byte_offset,
            scanner.chunk_position == 0,
            scanner.chunk@.len() == 0,
            scanner.record_reversed@.len() == 0,
            scanner.record_end_offset == end_byte_offset,
            scanner.record_terminated_by_newline == terminated,
            scanner.last_record_end_offset is None,
            scanner.last_record_terminated_by_newline is None,
    {
        ReverseJsonlScanner {
            next_chunk_end: end_byte_offset,
            record_end_offset: end_byte_offset,
            record_terminated_by_newline: terminated,
            chunk_position: 0,
            chunk: Vec::new(),
            record_reversed: Vec::new(),
            last_record_end_offset: None,
            last_record_terminated_by_newline: None,
        }
    }

    /// The byte offset immediately after the most recently returned record.
    pub fn last_record_end_offset(&self) -> (offset: Option<u64>)
        ensures
            offset == self.last_end(),
    {
        self.last_record_end_offset
    }

    /// Whether the most recently returned record ended at a JSONL newline.
    pub fn last_record_terminated_by_newline(&self) -> (terminated: Option<bool>)
        ensures
            terminated == self.last_terminated(),
    {
        self.last_record_terminated_by_newline
    }

    /// Hands the scanner the bytes that its last [`ScanStep::Read`] asked for.
    pub fn supply_chunk(&mut self, bytes: Vec<u8>)
        requires
            old(self).wf(),
            bytes@.len() == old(self).awaited(),
            bytes@.len() > 0,
        ensures
            final(self).wf(),
            final(self).position() == old(self).position(),
            final(self).remaining() < old(self).remaining(),
            final(self).awaited() == 0,
            final(self).last_end() == old(self).last_end(),
            final(self).last_terminated() == old(self).last_terminated(),
            forall|file: Seq<u8>|
                #![trigger old(self).agrees(file)]
                #![trigger final(self).agrees(file)]
                old(self).agrees(file) && bytes@ == file.subrange(
                    old(self).position() - bytes@.len(),
                    old(self).position(),
                ) ==> final(self).agrees(file) && final(self).upcoming(file) == old(self).upcoming(
                    file,
                ),
    {
        let len: usize = bytes.len();
        self.next_chunk_end = self.next_chunk_end - len as u64;
        self.chunk_position = len;
        self.chunk = bytes;
        assert(self.chunk@.take(len as int) =~= bytes@);
    }

    /// Finds the next nonblank record, or says which bytes it needs first.
    pub fn scan_next(&mut self) -> (step: ScanStep)
        requires
            old(self).wf(),
        ensures
            final(self).wf(),
            final(self).position() <= old(self).position(),
            match step {
                ScanStep::Read { offset, len } => {
                    &&& len > 0
                    &&& len == final(self).awaited()
                    &&& offset + len == final(self).position()
                    &&& final(self).remaining() <= old(self).remaining()
                    &&& final(self).last_end() == old(self).last_end()
                    &&& final(self).last_terminated() == old(self).last_terminated()
                    &&& forall|file: Seq<u8>|
                        #![trigger old(self).agrees(file)]
                        #![trigger final(self).agrees(file)]
                        old(self).agrees(file) ==> {
                            &&& final(self).agrees(file)
                            &&& final(self).upcoming(file) == old(self).upcoming(file)
                            &&& offset + len <= file.len()
                        }
                },
                ScanStep::Record { bytes } => {
                    &&& final(self).last_end() is Some
                    &&& final(self).last_terminated() is Some
                    &&& final(self).remaining() < old(self).remaining()
                    &&& forall|file: Seq<u8>|
                        #![trigger old(self).agrees(file)]
                        #![trigger final(self).agrees(file)]
                        old(self).agrees(file) ==> {
                            &&& final(self).agrees(file)
                            &&& old(self).upcoming(file) == seq![
                                JsonlRecord {
                                    bytes: bytes@,
                                    end_offset: final(self).last_end()->Some_0 as int,
                                    terminated: final(self).last_terminated()->Some_0,
                                },
                            ] + final(self).upcoming(file)
                        }
                },
                ScanStep::Finished => {
                    &&& final(self).position() == 0
                    &&& final(self).last_end() == old(self).last_end()
                    &&& final(self).last_terminated() == old(self).last_terminated()
                    &&& forall|file: Seq<u8>|
                        #![trigger old(self).agrees(file)]
                        #![trigger final(self).agrees(file)]
                        old(self).agrees(file) ==> {
                            &&& final(self).agrees(file)
                            &&& old(self).upcoming(file) == Seq::<JsonlRecord>::empty()
                            &&& final(self).upcoming(file) == Seq::<JsonlRecord>::empty()
                        }
                },
            },
    {
        loop
            invariant
                self.wf(),
                self.next_chunk_end == old(self).next_chunk_end,
                self.chunk_position <= old(self).chunk_position,
                2 * self.chunk_position + self.record_reversed@.len() <= 2
                    * old(self).chunk_position + old(self).record_reversed@.len(),
                *self == *old(self) || 2 * self.chunk_position + self.record_reversed@.len() < 2
                    * old(self).chunk_position + old(self).record_reversed@.len(),
                self.last_end() == old(self).last_end(),
                self.last_terminated() == old(self).last_terminated(),
                forall|file: Seq<u8>|
                    #![trigger self.agrees(file)]
                    #![trigger old(self).agrees(file)]
                    old(self).agrees(file) ==> {
                        &&& self.agrees(file)
                        &&& self.upcoming(file) == old(self).upcoming(file)
                    },
            decreases self.chunk_position,
        {
            if self.chunk_position == 0 {
                if self.next_chunk_end == 0 {
                    return self.finish_file();
                }
                let len: u64 = if self.next_chunk_end < READ_CHUNK_SIZE {
                    self.next_chunk_end
                } else {
                    READ_CHUNK_SIZE
                };
                return ScanStep::Read { offset: self.next_chunk_end - len, len: len as usize };
            }
            let ghost before = *self;
            self.chunk_position = self.chunk_position - 1;
            let byte: u8 = self.chunk[self.chunk_position];
            if byte != 10 {
                self.record_reversed.push(byte);
                proof {
                    lemma_byte_joins_record(before, *self, byte);
                }
                continue;
            }
            let record_end_offset: u64 = self.record_end_offset;
            let terminated: bool = self.record_terminated_by_newline;
            self.record_end_offset = self.next_chunk_end + self.chunk_position as u64 + 1;
            self.record_terminated_by_newline = true;
            let finished: Option<Vec<u8>> = self.finish_record();
            proof {
                lemma_newline_ends_record(before, *self);
            }
            if let Some(bytes) = finished {
                self.last_record_end_offset = Some(record_end_offset);
                self.last_record_terminated_by_newline = Some(terminated);
                assert forall|file: Seq<u8>| #[trigger] old(self).agrees(file) implies {
                    &&& self.agrees(file)
                    &&& old(self).upcoming(file) == seq![
                        JsonlRecord {
                            bytes: bytes@,
                            end_offset: record_end_offset as int,
                            terminated,
                        },
                    ] + self.upcoming(file)
                } by {
                    assert(before.agrees(file));
                }
                return ScanStep::Record { bytes };
            }
        }
    }

    /// Ends the scan at the start of the file: the first line of the file is the last record.
    fn finish_file(&mut self) -> (step: ScanStep)
        requires
            old(self).wf(),
            old(self).position() == 0,
        ensures
            final(self).wf(),
            final(self).position() == 0,
            match step {
                ScanStep::Read { .. } => false,
                ScanStep::Record { bytes } => {
                    &&& final(self).last_end() is Some
                    &&& final(self).last_terminated() is Some
                    &&& final(self).remaining() < old(self).remaining()
                    &&& forall|file: Seq<u8>|
                        #[trigger] old(self).agrees(file) ==> {
                            &&& final(self).agrees(file)
                            &&& old(self).upcoming(file) == seq![
                                JsonlRecord {
                                    bytes: bytes@,
                                    end_offset: final(self).last_end()->Some_0 as int,
                                    terminated: final(self).last_terminated()->Some_0,
                                },
                            ] + final(self).upcoming(file)
                        }
                },
                ScanStep::Finished => {
                    &&& final(self).last_end() == old(self).last_end()
                    &&& final(self).last_terminated() == old(self).last_terminated()
                    &&& forall|file: Seq<u8>|
                        #[trigger] old(self).agrees(file) ==> {
                            &&& final(self).agrees(file)
                            &&& old(self).upcoming(file) == Seq::<JsonlRecord>::empty()
                            &&& final(self).upcoming(file) == Seq::<JsonlRecord>::empty()
                        }
                },
            },
    {
        let ghost before = *self;
        let finished: Option<Vec<u8>> = self.finish_record();
        proof {
            lemma_start_ends_record(before, *self);
        }
        match finished {
            Some(bytes) => {
                self.last_record_end_offset = Some(self.record_end_offset);
                self.last_record_terminated_by_newline = Some(self.record_terminated_by_newline);
                ScanStep::Record { bytes }
            },
            None => ScanStep::Finished,
        }
    }

    /// Takes the collected bytes as a record, or drops them when they are blank.
    fn finish_record(&mut self) -> (record: Option<Vec<u8>>)
        ensures
            final(self).record_reversed@.len() == 0,
            final(self).next_chunk_end == old(self).next_chunk_end,
            final(self).record_end_offset == old(self).record_end_offset,
            final(self).record_terminated_by_newline == old(self).record_terminated_by_newline,
            final(self).chunk_position == old(self).chunk_position,
            final(self).chunk == old(self).chunk,
            final(self).last_record_end_offset == old(self).last_record_end_offset,
            final(self).last_record_terminated_by_newline
                == old(self).last_record_terminated_by_newline,
            record is None <==> is_blank(old(self).record_reversed@.reverse()),
            record matches Some(bytes) ==> bytes@ == old(self).record_reversed@.reverse(),
    {
        let bytes: Vec<u8> = reversed(&self.record_reversed);
        self.record_reversed.clear();
        if all_whitespace(bytes.as_slice()) {
            None
        } else {
            Some(bytes)
        }
    }
}

/// Records end at line feeds and at nothing else; a record is blank where it holds nothing but
/// tabs, line feeds, form feeds, carriage returns and spaces.
pub proof fn law_blank_records_hold_only_white_space(bytes: Seq<u8>, byte: u8)
    ensures
        is_newline(byte) <==> byte == 10,
        is_blank(bytes) <==> (forall|i: int|
            0 <= i < bytes.len() ==> (#[trigger] bytes[i]) == 9 || bytes[i] == 10 || bytes[i] == 12
                || bytes[i] == 13 || bytes[i] == 32),
{
    if forall|i: int|
        0 <= i < bytes.len() ==> (#[trigger] bytes[i]) == 9 || bytes[i] == 10 || bytes[i] == 12
            || bytes[i] == 13 || bytes[i] == 32 {
        assert forall|i: int| 0 <= i < bytes.len() implies is_whitespace(#[trigger] bytes[i]) by {}
    }
    if is_blank(bytes) {
        assert forall|i: int| 0 <= i < bytes.len() implies (#[trigger] bytes[i]) == 9 || bytes[i]
            == 10 || bytes[i] == 12 || bytes[i] == 13 || bytes[i] == 32 by {
            assert(is_whitespace(bytes[i]));
        }
    }
}

/// A scan starts at every offset within the file, and at no other.
pub proof fn law_scans_start_within_the_file(
    file_len: u64,
    end: u64,
    byte_before_end: Option<u8>,
    started: Result<ReverseJsonlScanner, ScanStartError>,
)
    requires
        0 < end <= file_len ==> byte_before_end is Some,
        call_ensures(ReverseJsonlScanner::new_at, (file_len, end, byte_before_end), started),
    ensures
        started is Ok <==> end <= file_len,
{
}

/// A scan has every line of the file still to come that ends before its start and holds anything
/// but white space, and the line that its start cuts off; and what it has to come are whole lines,
/// the last one first.
pub proof fn law_scans_have_every_line_to_come(
    file: Seq<u8>,
    end: u64,
    byte_before_end: Option<u8>,
    scanner: ReverseJsonlScanner,
    line_from: int,
    line_to: int,
    at: int,
    i: int,
    j: int,
)
    requires
        end <= file.len() <= u64::MAX,
        end > 0 ==> byte_before_end == Some(file[end - 1]),
        call_ensures(
            ReverseJsonlScanner::new_at,
            (file.len() as u64, end, byte_before_end),
            Ok(scanner),
        ),
        0 <= line_from <= at < line_to <= end,
        line_from > 0 ==> file[line_from - 1] == 10,
        line_to < end ==> file[line_to] == 10,
        forall|k: int| line_from <= k < line_to ==> #[trigger] file[k] != 10,
        file[at] != 9 && file[at] != 12 && file[at] != 13 && file[at] != 32,
        0 <= i < j < scanner.upcoming(file).len(),
    ensures
        exists|k: int|
            0 <= k < scanner.upcoming(file).len() && (#[trigger] scanner.upcoming(file)[k]).bytes
                == file.subrange(line_from, line_to) && scanner.upcoming(file)[k].terminated == (
            line_to < end) && scanner.upcoming(file)[k].end_offset == (if line_to < end {
                line_to + 1
            } else {
                line_to
            }),
        scanner.upcoming(file)[j].end_offset < scanner.upcoming(file)[i].end_offset,
{
    let line = file.subrange(line_from, line_to);
    assert forall|k: int| 0 <= k < line.len() implies !is_newline(#[trigger] line[k]) by {
        assert(line[k] == file[line_from + k]);
    }
    assert(!is_blank(line)) by {
        assert(line[at - line_from] == file[at]);
        assert(!is_whitespace(line[at - line_from]));
    }
    assert(scanner.agrees(file));
    law_every_line_is_recorded(file, end as int, line_from, line_to);
    law_records_come_last_first(file, end as int, i, j);
    law_records_are_lines(file, end as int, i);
}

/// A scan of a whole file starts at its end.
pub proof fn law_whole_scans_start_at_the_end(
    file: Seq<u8>,
    last_byte: Option<u8>,
    scanner: ReverseJsonlScanner,
    end: u64,
    other: ReverseJsonlScanner,
)
    requires
        file.len() <= u64::MAX,
        end == file.len(),
        end > 0 ==> last_byte == Some(file[end - 1]),
        call_ensures(ReverseJsonlScanner::new, (end, last_byte), scanner),
        call_ensures(ReverseJsonlScanner::new_at, (end, end, last_byte), Ok(other)),
    ensures
        scanner.agrees(file),
        scanner.upcoming(file) == other.upcoming(file),
{
    if end > 0 {
        assert(file.last() == file[end - 1]);
    }
    assert(scanner.agrees(file) && other.agrees(file));
}

/// A scan hands out the record that comes next and no other, says where it ends and whether at a
/// newline, and is over exactly when none is left.
pub proof fn law_scans_hand_out_the_next_record(
    scanner: &mut ReverseJsonlScanner,
    step: ScanStep,
    file: Seq<u8>,
)
    requires
        old(scanner).wf(),
        old(scanner).agrees(file),
        call_ensures(ReverseJsonlScanner::scan_next, (scanner,), step),
    ensures
        final(scanner).agrees(file),
        step matches ScanStep::Record { bytes } ==> {
            &&& old(scanner).upcoming(file).len() > 0
            &&& old(scanner).upcoming(file)[0].bytes == bytes@
            &&& final(scanner).last_end() == Some(
                old(scanner).upcoming(file)[0].end_offset as u64,
            )
            &&& final(scanner).last_terminated() == Some(old(scanner).upcoming(file)[0].terminated)
            &&& final(scanner).upcoming(file) == old(scanner).upcoming(file).drop_first()
        },
        step is Finished ==> old(scanner).upcoming(file).len() == 0,
        step is Read ==> final(scanner).upcoming(file) == old(scanner).upcoming(file),
{
    if let ScanStep::Record { bytes } = step {
        assert(old(scanner).upcoming(file).drop_first() =~= final(scanner).upcoming(file));
    }
}

/// A scan that would start behind the end of the file says so.
pub proof fn law_refused_scans_say_why(error: &ScanStartError, message: String)
    requires
        call_ensures(ScanStartError::message, (error,), message),
    ensures
        message@ == "reverse JSONL scan end is past the file"@,
{
}

/// A scan reads backwards, each piece right before what it has read, in pieces of 8192 bytes but
/// for the first one of the file.
pub proof fn law_scans_read_in_pieces(
    scanner: &mut ReverseJsonlScanner,
    offset: u64,
    len: usize,
)
    requires
        old(scanner).wf(),
        call_ensures(ReverseJsonlScanner::scan_next, (scanner,), ScanStep::Read { offset, len }),
    ensures
        offset + len == final(scanner).position(),
        len == 8192 || (offset == 0 && len < 8192),
        len > 0,
        final(scanner).last_end() == old(scanner).last_end(),
        final(scanner).last_terminated() == old(scanner).last_terminated(),
{
}

/// A scan that was given the bytes that it asked for has the same records to come as before.
pub proof fn law_scans_go_on_with_what_they_asked_for(
    asking: &mut ReverseJsonlScanner,
    scanner: &mut ReverseJsonlScanner,
    offset: u64,
    len: usize,
    bytes: Vec<u8>,
    file: Seq<u8>,
)
    requires
        old(asking).wf(),
        old(asking).agrees(file),
        call_ensures(ReverseJsonlScanner::scan_next, (asking,), ScanStep::Read { offset, len }),
        *old(scanner) == *final(asking),
        bytes@ == file.subrange(offset as int, offset + len),
        call_ensures(ReverseJsonlScanner::supply_chunk, (scanner, bytes), ()),
    ensures
        offset + len <= file.len(),
        final(scanner).wf(),
        final(scanner).agrees(file),
        final(scanner).upcoming(file) == old(asking).upcoming(file),
        final(scanner).last_end() == old(asking).last_end(),
        final(scanner).last_terminated() == old(asking).last_terminated(),
        final(scanner).remaining() < old(asking).remaining(),
{
}

/// A scanner says of the last record where it ended and whether at a newline.
pub proof fn law_scanners_tell_of_the_last_record(
    scanner: &mut ReverseJsonlScanner,
    bytes: Vec<u8>,
    file: Seq<u8>,
    end: Option<u64>,
    terminated: Option<bool>,
)
    requires
        old(scanner).wf(),
        old(scanner).agrees(file),
        call_ensures(ReverseJsonlScanner::scan_next, (scanner,), ScanStep::Record { bytes }),
        call_ensures(ReverseJsonlScanner::last_record_end_offset, (&*final(scanner),), end),
        call_ensures(
            ReverseJsonlScanner::last_record_terminated_by_newline,
            (&*final(scanner),),
            terminated,
        ),
    ensures
        end matches Some(end) && end == old(scanner).upcoming(file)[0].end_offset,
        terminated == Some(old(scanner).upcoming(file)[0].terminated),
{
}

} // verus!
