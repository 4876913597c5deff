//! Searches of a legacy rollout, from its end, for its last complete record of some sort.
//!
//! A search asks for byte ranges of the rollout, is handed the bytes, and ends with the offset just
//! behind the record, or zero. What it finds holds of every file that agrees with the bytes that
//! were handed over.

use crate::json;
use crate::legacy_envelope;
use crate::legacy_fork;
use crate::reverse_scanner;
use crate::reverse_scanner::ReverseJsonlScanner;
use crate::reverse_scanner::ScanStep;
use vstd::prelude::*;

verus! {

/// What a search is for.
#[derive(Clone, Copy, Debug, PartialEq, Eq, Structural)]
pub enum SoughtRecord {
    /// A record that can bound a history.
    Boundary,
    /// A record with a valid envelope.
    Envelope,
}

/// Whether a record is one that the search is for.
pub open spec fn is_sought(sought: SoughtRecord, record: Seq<u8>) -> bool {
    match sought {
        SoughtRecord::Boundary => legacy_fork::is_boundary(record),
        SoughtRecord::Envelope => legacy_envelope::is_envelope(record),
    }
}

/// The end of the first of these records that ends at a newline and is sought, or zero.
pub open spec fn first_sought(
    sought: SoughtRecord,
    records: Seq<reverse_scanner::JsonlRecord>,
) -> int
    decreases records.len(),
{
    if records.len() == 0 {
        0
    } else if records.first().terminated && is_sought(sought, records.first().bytes) {
        records.first().end_offset
    } else {
        first_sought(sought, records.drop_first())
    }
}

/// The offset just behind the last complete record of a file that is sought, or zero where there
/// is none.
pub open spec fn sought_offset(sought: SoughtRecord, file: Seq<u8>) -> int {
    first_sought(sought, reverse_scanner::records_from_end(file, file.len() as int))
}

/// What a search of a file has to find.
pub open spec fn offset_to_find(sought: SoughtRecord, file: Seq<u8>) -> int {
    match sought {
        SoughtRecord::Boundary => legacy_fork::boundary_offset(file),
        SoughtRecord::Envelope => legacy_envelope::last_envelope_offset(file),
    }
}

/// The line of a file whose newline is the byte just before `end`.
pub open spec fn line_before(file: Seq<u8>, end: int) -> Seq<u8> {
    file.subrange(reverse_scanner::line_start(file.take(end - 1)), end - 1)
}

proof fn lemma_first_sought(
    sought: SoughtRecord,
    records: Seq<reverse_scanner::JsonlRecord>,
) -> (k: int)
    requires
        first_sought(sought, records) != 0,
    ensures
        0 <= k < records.len(),
        records[k].terminated,
        is_sought(sought, records[k].bytes),
        records[k].end_offset == first_sought(sought, records),
    decreases records.len(),
{
    if records.first().terminated && is_sought(sought, records.first().bytes) {
        0
    } else {
        let k = lemma_first_sought(sought, records.drop_first());
        k + 1
    }
}

/// A sought record at `i` means that the first one stands at or before `i`.
proof fn lemma_first_sought_index(
    sought: SoughtRecord,
    records: Seq<reverse_scanner::JsonlRecord>,
    i: int,
) -> (k: int)
    requires
        0 <= i < records.len(),
        records[i].terminated,
        is_sought(sought, records[i].bytes),
    ensures
        0 <= k <= i,
        records[k].terminated,
        first_sought(sought, records) == records[k].end_offset,
    decreases records.len(),
{
    if records.first().terminated && is_sought(sought, records.first().bytes) {
        0
    } else {
        let k = lemma_first_sought_index(sought, records.drop_first(), i - 1);
        k + 1
    }
}

/// What is found lies just behind the newline of a nonempty line that is sought.
pub proof fn law_sought_offset_ends_a_record(sought: SoughtRecord, file: Seq<u8>)
    requires
        sought_offset(sought, file) != 0,
    ensures
        0 < sought_offset(sought, file) <= file.len(),
        reverse_scanner::is_newline(file[sought_offset(sought, file) - 1]),
        is_sought(sought, line_before(file, sought_offset(sought, file))),
        reverse_scanner::line_start(file.take(sought_offset(sought, file) - 1)) < sought_offset(
            sought,
            file,
        ) - 1,
{
    let end = file.len() as int;
    let records = reverse_scanner::records_from_end(file, end);
    let k = lemma_first_sought(sought, records);
    reverse_scanner::law_records_are_lines(file, end, k);
    let record = records[k];
    let cutoff = record.end_offset;
    let start = reverse_scanner::content_start(record);
    let prefix = file.take(start);
    reverse_scanner::lemma_line_start(prefix);
    if start > 0 {
        assert(prefix.last() == file[start - 1]);
    }
    reverse_scanner::lemma_line_start_extends(prefix, record.bytes);
    assert(file.take(cutoff - 1) =~= prefix + record.bytes);
    assert(line_before(file, cutoff) =~= record.bytes);
}

/// No complete record behind what is found is sought.
pub proof fn law_sought_offset_is_the_last(
    sought: SoughtRecord,
    file: Seq<u8>,
    line_from: int,
    line_to: int,
)
    requires
        sought_offset(sought, file) <= line_from <= line_to < file.len(),
        0 <= line_from,
        line_from > 0 ==> reverse_scanner::is_newline(file[line_from - 1]),
        reverse_scanner::is_newline(file[line_to]),
        reverse_scanner::single_line(file.subrange(line_from, line_to)),
        !reverse_scanner::is_blank(file.subrange(line_from, line_to)),
    ensures
        !is_sought(sought, file.subrange(line_from, line_to)),
{
    let end = file.len() as int;
    reverse_scanner::law_every_line_is_recorded(file, end, line_from, line_to);
    let records = reverse_scanner::records_from_end(file, end);
    let record = reverse_scanner::JsonlRecord {
        bytes: file.subrange(line_from, line_to),
        end_offset: line_to + 1,
        terminated: true,
    };
    let i = choose|i: int| 0 <= i < records.len() && records[i] == record;
    if is_sought(sought, record.bytes) {
        let k = lemma_first_sought_index(sought, records, i);
        if k < i {
            reverse_scanner::law_records_come_last_first(file, end, k, i);
            reverse_scanner::law_records_are_lines(file, end, k);
        }
    }
}

proof fn lemma_skip_space_goes_on(bytes: Seq<u8>, at: int)
    ensures
        json::skip_space(bytes, at) >= at,
    decreases bytes.len() - at,
{
    if 0 <= at < bytes.len() && json::is_json_space(bytes[at]) {
        lemma_skip_space_goes_on(bytes, at + 1);
    }
}

/// A record with a valid envelope opens with a brace behind white space, so it is not blank.
proof fn lemma_envelope_is_not_blank(record: Seq<u8>)
    requires
        legacy_envelope::is_envelope(record),
    ensures
        !reverse_scanner::is_blank(record),
{
    lemma_skip_space_goes_on(record, 0);
    assert(!reverse_scanner::is_whitespace(record[json::skip_space(record, 0)]));
}

/// The last complete record with a valid envelope is what lies before the greatest cutoff that a
/// legacy rollout accepts.
pub proof fn law_last_envelope_ends_at_the_last_cutoff(file: Seq<u8>)
    requires
        file.len() <= u64::MAX,
    ensures
        sought_offset(SoughtRecord::Envelope, file) == legacy_envelope::last_envelope_offset(file),
{
    let sought = SoughtRecord::Envelope;
    let found = sought_offset(sought, file);
    let last = legacy_envelope::last_envelope_offset(file);
    if found != 0 {
        law_sought_offset_ends_a_record(sought, file);
        assert(legacy_envelope::accepts_cutoff(file, found as u64));
        legacy_envelope::law_last_envelope_is_the_greatest_cutoff(file, found as u64);
    } else {
        legacy_envelope::law_last_envelope_is_the_greatest_cutoff(file, 0);
    }
    if found < last {
        let before = file.take(last - 1);
        reverse_scanner::lemma_line_start(before);
        let from = reverse_scanner::line_start(before);
        let line = file.subrange(from, last - 1);
        assert(line =~= before.skip(from));
        if from > 0 {
            assert(file[from - 1] == before[from - 1]);
        }
        if from < found {
            assert(line[found - 1 - from] == file[found - 1]);
        }
        lemma_envelope_is_not_blank(line);
        law_sought_offset_is_the_last(sought, file, from, last - 1);
    }
}

/// Whether a record is one that the search is for.
fn matches_sought(sought: SoughtRecord, record: &[u8]) -> (matched: bool)
    ensures
        matched == is_sought(sought, record@),
{
    match sought {
        SoughtRecord::Boundary => legacy_fork::bounds_history(record),
        SoughtRecord::Envelope => legacy_envelope::is_rollout_envelope(record),
    }
}

/// What a search needs or found.
#[derive(Clone, Copy, Debug, PartialEq, Eq, Structural)]
pub enum SearchStep {
    /// The search needs these bytes of the rollout: hand them to [`RecordSearch::supply`].
    Read { offset: u64, len: usize },
    /// The offset just behind the record, or zero.
    Done { end: u64 },
}

/// A search of a legacy rollout under way, or over.
#[derive(Debug)]
pub struct RecordSearch {
    sought: SoughtRecord,
    scanner: ReverseJsonlScanner,
    file_len: u64,
    found: Option<u64>,
}

impl RecordSearch {
    /// What every search keeps.
    pub closed spec fn wf(&self) -> bool {
        self.scanner.wf()
    }

    /// What the search is for.
    pub closed spec fn sought(&self) -> SoughtRecord {
        self.sought
    }

    /// What the search found, once it is over.
    pub closed spec fn found(&self) -> Option<u64> {
        self.found
    }

    /// Whether the bytes seen so far are those of this file.
    pub closed spec fn agrees(&self, file: Seq<u8>) -> bool {
        &&& file.len() == self.file_len
        &&& match self.found {
            Some(end) => end == offset_to_find(self.sought, file),
            None => self.scanner.agrees(file) && first_sought(
                self.sought,
                self.scanner.upcoming(file),
            ) == offset_to_find(self.sought, file),
        }
    }

    /// The offset behind the bytes that the search waits for.
    pub closed spec fn position(&self) -> int {
        self.scanner.position()
    }

    /// The number of bytes that the search waits for.
    pub closed spec fn awaited(&self) -> int {
        self.scanner.awaited()
    }

    /// A bound on how often the search still has to be handed bytes.
    pub closed spec fn remaining(&self) -> nat {
        self.scanner.remaining()
    }

    /// A search that is over found what there is to find.
    pub proof fn lemma_found(&self, file: Seq<u8>)
        requires
            self.agrees(file),
        ensures
            self.found() matches Some(end) ==> end == offset_to_find(self.sought(), file),
    {
    }

    /// Starts a search in a rollout of `file_len` bytes, whose last byte is `last_byte`.
    pub fn new(sought: SoughtRecord, file_len: u64, last_byte: Option<u8>) -> (search: Self)
        requires
            file_len > 0 ==> last_byte is Some,
        ensures
            search.wf(),
            search.sought() == sought,
            search.found() is None,
            forall|file: Seq<u8>|
                file.len() == file_len && (file_len > 0 ==> last_byte == Some(file.last()))
                    ==> #[trigger] search.agrees(file),
    {
        let search = RecordSearch {
            sought,
            scanner: ReverseJsonlScanner::new(file_len, last_byte),
            file_len,
            found: None,
        };
        assert forall|file: Seq<u8>|
            file.len() == file_len && (file_len > 0 ==> last_byte == Some(
                file.last(),
            )) implies #[trigger] search.agrees(file) by {
            law_last_envelope_ends_at_the_last_cutoff(file);
        }
        search
    }

    /// What the search found, once it is over.
    pub fn found_offset(&self) -> (found: Option<u64>)
        ensures
            found == self.found(),
    {
        self.found
    }

    /// Goes on until bytes are needed or the record is known.
    pub fn next(&mut self) -> (step: SearchStep)
        requires
            old(self).wf(),
        ensures
            final(self).wf(),
            final(self).sought() == old(self).sought(),
            match step {
                SearchStep::Read { offset, len } => {
                    &&& len > 0
                    &&& len == final(self).awaited()
                    &&& offset + len == final(self).position()
                    &&& final(self).found() is None
                    &&& final(self).remaining() <= old(self).remaining()
                    &&& forall|file: Seq<u8>|
                        #![trigger old(self).agrees(file)]
                        #![trigger final(self).agrees(file)]
                        old(self).agrees(file) ==> final(self).agrees(file) && offset + len
                            <= file.len()
                },
                SearchStep::Done { end } => {
                    &&& final(self).found() == Some(end)
                    &&& forall|file: Seq<u8>|
                        #![trigger old(self).agrees(file)]
                        #![trigger final(self).agrees(file)]
                        old(self).agrees(file) ==> final(self).agrees(file) && end
                            == offset_to_find(old(self).sought(), file)
                },
            },
    {
        if let Some(end) = self.found {
            return SearchStep::Done { end };
        }
        loop
            invariant
                self.wf(),
                self.sought == old(self).sought,
                self.found is None,
                old(self).found is None,
                self.remaining() <= old(self).remaining(),
                forall|file: Seq<u8>|
                    #![trigger self.agrees(file)]
                    #![trigger old(self).agrees(file)]
                    old(self).agrees(file) ==> self.agrees(file),
            decreases self.remaining(),
        {
            let ghost before = *self;
            match self.scanner.scan_next() {
                ScanStep::Read { offset, len } => {
                    assert forall|file: Seq<u8>|
                        #![trigger self.agrees(file)]
                        old(self).agrees(file) implies self.agrees(file) && offset + len
                        <= file.len() by {
                        assert(before.agrees(file));
                        assert(self.scanner.agrees(file));
                    }
                    return SearchStep::Read { offset, len };
                },
                ScanStep::Record { bytes } => {
                    let terminated: bool = self.scanner.last_record_terminated_by_newline() == Some(
                        true,
                    );
                    let matched: bool = terminated && matches_sought(self.sought, bytes.as_slice());
                    if matched {
                        if let Some(end) = self.scanner.last_record_end_offset() {
                            self.found = Some(end);
                            assert forall|file: Seq<u8>|
                                #![trigger old(self).agrees(file)]
                                #![trigger self.agrees(file)]
                                old(self).agrees(file) implies self.agrees(file) && end
                                == offset_to_find(old(self).sought, file) by {
                                assert(before.agrees(file));
                                assert(self.scanner.agrees(file));
                                assert(before.scanner.upcoming(file).first().bytes == bytes@);
                            }
                            return SearchStep::Done { end };
                        }
                    }
                    assert forall|file: Seq<u8>|
                        #![trigger self.agrees(file)]
                        #![trigger old(self).agrees(file)]
                        old(self).agrees(file) implies self.agrees(file) by {
                        assert(before.agrees(file));
                        assert(self.scanner.agrees(file));
                        assert(before.scanner.upcoming(file).drop_first() =~= self.scanner.upcoming(
                            file,
                        ));
                    }
                },
                ScanStep::Finished => {
                    self.found = Some(0);
                    assert forall|file: Seq<u8>|
                        #![trigger old(self).agrees(file)]
                        #![trigger self.agrees(file)]
                        old(self).agrees(file) implies self.agrees(file) && 0 == offset_to_find(
                        old(self).sought,
                        file,
                    ) by {
                        assert(before.agrees(file));
                        assert(self.scanner.agrees(file));
                    }
                    return SearchStep::Done { end: 0 };
                },
            }
        }
    }

    /// Hands the search the bytes that it asked for.
    pub fn supply(&mut self, bytes: Vec<u8>)
        requires
            old(self).wf(),
            old(self).found() is None,
            bytes@.len() == old(self).awaited(),
            bytes@.len() > 0,
        ensures
            final(self).wf(),
            final(self).sought() == old(self).sought(),
            final(self).found() is None,
            final(self).remaining() < old(self).remaining(),
            forall|file: Seq<u8>|
                #![trigger old(self).agrees(file)]
                #![trigger final(self).agrees(file)]
                old(self).agrees(file) && bytes@ == file.subrange(
                    old(self).position() - bytes@.len(),
                    old(self).position(),
                ) ==> final(self).agrees(file),
    {
        self.scanner.supply_chunk(bytes);
    }
}

/// A search finds the end of the last whole line that it is for: what it finds is zero or lies just
/// behind such a line, and no such line ends behind it.
pub proof fn law_searches_find_the_last_line(
    search: &mut RecordSearch,
    end: u64,
    file: Seq<u8>,
    start: int,
    line_end: int,
)
    requires
        old(search).wf(),
        old(search).agrees(file),
        file.len() <= u64::MAX,
        call_ensures(RecordSearch::next, (search,), SearchStep::Done { end }),
        legacy_envelope::is_whole_line(file, start, line_end),
        !reverse_scanner::is_blank(file.subrange(start, line_end - 1)),
    ensures
        old(search).sought() == SoughtRecord::Boundary && legacy_fork::is_boundary(
            file.subrange(start, line_end - 1),
        ) ==> line_end <= end,
        old(search).sought() == SoughtRecord::Envelope && legacy_envelope::is_envelope(
            file.subrange(start, line_end - 1),
        ) ==> line_end <= end,
        old(search).sought() == SoughtRecord::Boundary && end == line_end
            ==> legacy_fork::is_boundary(file.subrange(start, line_end - 1)),
        old(search).sought() == SoughtRecord::Envelope && end == line_end
            ==> legacy_envelope::is_envelope(file.subrange(start, line_end - 1)),
        end > 0 ==> end <= file.len() && file[end - 1] == 10,
{
    let sought = old(search).sought();
    law_last_envelope_ends_at_the_last_cutoff(file);
    assert(end == sought_offset(sought, file));
    let line = file.subrange(start, line_end - 1);
    assert forall|i: int| 0 <= i < line.len() implies !reverse_scanner::is_newline(
        #[trigger] line[i],
    ) by {
        assert(line[i] == file[start + i]);
    }
    if end > 0 {
        law_sought_offset_ends_a_record(sought, file);
    }
    if is_sought(sought, line) && end < line_end {
        if end > start {
            assert(file[end - 1] == 10);
            assert(false);
        }
        law_sought_offset_is_the_last(sought, file, start, line_end - 1);
    }
    if end == line_end {
        let prefix = file.take(start);
        assert(file.take(end - 1) =~= prefix + line);
        reverse_scanner::lemma_line_start_extends(prefix, line);
        reverse_scanner::lemma_line_start(prefix);
        if start > 0 {
            assert(prefix.last() == file[start - 1]);
        }
        assert(line_before(file, end as int) =~= line);
    }
}

/// A search is for what it was started for, in every file with that length and last byte.
pub proof fn law_searches_are_for_what_they_were_started_for(
    sought: SoughtRecord,
    file: Seq<u8>,
    last_byte: Option<u8>,
    search: RecordSearch,
)
    requires
        file.len() <= u64::MAX,
        file.len() > 0 ==> last_byte == Some(file.last()),
        call_ensures(RecordSearch::new, (sought, file.len() as u64, last_byte), search),
    ensures
        search.wf(),
        search.sought() == sought,
        search.agrees(file),
        search.found() is None,
{
}

/// A search that was given the bytes that it asked for goes on for the same record of the same
/// file, and remembers what it has found.
pub proof fn law_searches_go_on_with_what_they_asked_for(
    asking: &mut RecordSearch,
    search: &mut RecordSearch,
    offset: u64,
    len: usize,
    bytes: Vec<u8>,
    ending: &mut RecordSearch,
    end: u64,
    found: Option<u64>,
    file: Seq<u8>,
)
    requires
        old(asking).wf(),
        old(asking).agrees(file),
        call_ensures(RecordSearch::next, (asking,), SearchStep::Read { offset, len }),
        *old(search) == *final(asking),
        bytes@ == file.subrange(offset as int, offset + len),
        call_ensures(RecordSearch::supply, (search, bytes), ()),
        old(ending).wf(),
        old(ending).agrees(file),
        call_ensures(RecordSearch::next, (ending,), SearchStep::Done { end }),
        call_ensures(RecordSearch::found_offset, (&*final(ending),), found),
    ensures
        offset + len <= file.len(),
        final(search).wf(),
        final(search).agrees(file),
        final(search).sought() == old(asking).sought(),
        final(search).remaining() < old(asking).remaining(),
        found == Some(end),
        final(ending).agrees(file),
        final(ending).sought() == old(ending).sought(),
{
}

} // verus!
