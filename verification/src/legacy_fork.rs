//! Forks that refer to a legacy history: where the history is cut off, and when a fork is refused.

use crate::envelope;
use crate::envelope::EnvelopeField;
use crate::error::ThreadStoreError;
use crate::error::ThreadStoreResult;
use crate::history::HistoryPosition;
use crate::json;
use crate::legacy_envelope;
use crate::record_search;
use crate::record_search::RecordSearch;
use crate::record_search::SoughtRecord;
use crate::reverse_scanner;
use crate::text;
use crate::thread_id::ThreadId;
use vstd::prelude::*;

verus! {

/// Whether `serde_json` reads the bytes as an array of two strings and an object.
pub uninterp spec fn json_boundary_array(bytes: Seq<u8>) -> bool;

/// Whether `serde_json::from_slice` succeeds on the bytes as a tuple of two `String`s and a
/// `Map<String, Value>`.
#[verifier::external_body]
fn reads_as_boundary_array(bytes: &[u8]) -> (reads: bool)
    ensures
        reads == json_boundary_array(bytes@),
{
    serde_json::from_slice::<(String, String, serde_json::Map<String, serde_json::Value>)>(bytes).is_ok()
}

/// How many of the fields are timestamps.
pub open spec fn timestamps(fields: Seq<envelope::FieldView>) -> nat
    decreases fields.len(),
{
    if fields.len() == 0 {
        0
    } else {
        timestamps(fields.drop_last()) + (if fields.last() is Timestamp { 1nat } else { 0nat })
    }
}

/// How many of the fields are types.
pub open spec fn kinds(fields: Seq<envelope::FieldView>) -> nat
    decreases fields.len(),
{
    if fields.len() == 0 {
        0
    } else {
        kinds(fields.drop_last()) + (if fields.last() is Kind { 1nat } else { 0nat })
    }
}

/// How many of the fields are payloads.
pub open spec fn payloads(fields: Seq<envelope::FieldView>) -> nat
    decreases fields.len(),
{
    if fields.len() == 0 {
        0
    } else {
        payloads(fields.drop_last()) + (if fields.last() is Payload { 1nat } else { 0nat })
    }
}

/// The range of the last payload among the fields.
pub open spec fn payload_range(fields: Seq<envelope::FieldView>) -> Option<(int, int)>
    decreases fields.len(),
{
    if fields.len() == 0 {
        None
    } else {
        match fields.last() {
            envelope::FieldView::Payload { start, end, .. } => Some((start, end)),
            _ => payload_range(fields.drop_last()),
        }
    }
}

/// Whether a record with these fields can bound a legacy history as far as its envelope goes:
/// `timestamp`, `type` and `payload` occur once each, and have their types.
pub open spec fn boundary_fields(fields: Seq<envelope::FieldView>) -> bool {
    &&& forall|i: int|
        0 <= i < fields.len() ==> legacy_envelope::loosely_typed(#[trigger] fields[i])
    &&& timestamps(fields) == 1
    &&& kinds(fields) == 1
    &&& payloads(fields) == 1
}

/// A payload as the last element of an array, behind two strings.
pub open spec fn in_boundary_array(payload: Seq<u8>) -> Seq<u8> {
    seq![91u8, 34u8, 34u8, 44u8, 34u8, 34u8, 44u8] + payload + seq![93u8]
}

/// Whether a record is an object that can bound a legacy history; its payload has to be an object
/// that `serde_json` reads, values and all.
pub open spec fn is_boundary_object(record: Seq<u8>) -> bool {
    match envelope::envelope_fields(record) {
        Some(fields) => boundary_fields(fields) && match payload_range(fields) {
            Some((start, end)) => json_boundary_array(
                in_boundary_array(record.subrange(start, end)),
            ),
            None => false,
        },
        None => false,
    }
}

/// Whether a record can bound a legacy history: an object with a `timestamp`, a `type` and a
/// `payload`, or the three values in an array.
pub open spec fn is_boundary(record: Seq<u8>) -> bool {
    json_boundary_array(record) || is_boundary_object(record)
}

/// Where a legacy history is cut off: behind its last complete record that can bound it, or zero
/// where there is none.
pub open spec fn boundary_offset(file: Seq<u8>) -> int {
    record_search::sought_offset(SoughtRecord::Boundary, file)
}

proof fn lemma_counted(fields: Seq<envelope::FieldView>)
    ensures
        timestamps(fields) > 0 ==> exists|i: int|
            0 <= i < fields.len() && (#[trigger] fields[i]) is Timestamp,
        kinds(fields) > 0 ==> exists|i: int| 0 <= i < fields.len() && (#[trigger] fields[i]) is Kind,
        payloads(fields) > 0 ==> exists|i: int|
            0 <= i < fields.len() && (#[trigger] fields[i]) is Payload,
    decreases fields.len(),
{
    if fields.len() > 0 {
        let earlier = fields.drop_last();
        lemma_counted(earlier);
        assert(forall|i: int| 0 <= i < earlier.len() ==> earlier[i] == #[trigger] fields[i]);
        assert(fields[fields.len() - 1] == fields.last());
        if timestamps(earlier) > 0 {
            let i = choose|i: int| 0 <= i < earlier.len() && (#[trigger] earlier[i]) is Timestamp;
            assert(fields[i] is Timestamp);
        }
        if kinds(earlier) > 0 {
            let i = choose|i: int| 0 <= i < earlier.len() && (#[trigger] earlier[i]) is Kind;
            assert(fields[i] is Kind);
        }
        if payloads(earlier) > 0 {
            let i = choose|i: int| 0 <= i < earlier.len() && (#[trigger] earlier[i]) is Payload;
            assert(fields[i] is Payload);
        }
    }
}

/// The cutoff of a legacy history lies just behind the newline of a record that can bound it.
pub proof fn law_cutoff_ends_a_boundary(file: Seq<u8>)
    requires
        boundary_offset(file) != 0,
    ensures
        0 < boundary_offset(file) <= file.len(),
        reverse_scanner::is_newline(file[boundary_offset(file) - 1]),
        is_boundary(record_search::line_before(file, boundary_offset(file))),
        reverse_scanner::line_start(file.take(boundary_offset(file) - 1)) < boundary_offset(file)
            - 1,
{
    record_search::law_sought_offset_ends_a_record(SoughtRecord::Boundary, file);
}

/// No complete record behind the cutoff of a legacy history could have bounded it.
pub proof fn law_cutoff_is_the_last_boundary(file: Seq<u8>, line_from: int, line_to: int)
    requires
        boundary_offset(file) <= line_from <= line_to < file.len(),
        0 <= line_from,
        line_from > 0 ==> reverse_scanner::is_newline(file[line_from - 1]),
        reverse_scanner::is_newline(file[line_to]),
        reverse_scanner::single_line(file.subrange(line_from, line_to)),
        !reverse_scanner::is_blank(file.subrange(line_from, line_to)),
    ensures
        !is_boundary(file.subrange(line_from, line_to)),
{
    record_search::law_sought_offset_is_the_last(SoughtRecord::Boundary, file, line_from, line_to);
}

/// The cutoff of a legacy history is one that the history accepts, unless the record before it is
/// written as an array.
pub proof fn law_cutoff_is_accepted(file: Seq<u8>)
    requires
        file.len() <= u64::MAX,
        boundary_offset(file) != 0,
        !json_boundary_array(record_search::line_before(file, boundary_offset(file))),
    ensures
        legacy_envelope::cutoff_verdict(file, boundary_offset(file) as u64) == (
        legacy_envelope::EnvelopeVerdict::Complete { end: boundary_offset(file) as u64 }),
{
    law_cutoff_ends_a_boundary(file);
    let line = record_search::line_before(file, boundary_offset(file));
    let fields = envelope::envelope_fields(line)->Some_0;
    lemma_counted(fields);
}

/// The range of a record's only payload, if the record's fields let it bound a history.
pub fn boundary_payload(fields: &Vec<EnvelopeField>) -> (range: Option<(usize, usize)>)
    ensures
        match range {
            Some((start, end)) => boundary_fields(envelope::field_views(fields@)) && payload_range(
                envelope::field_views(fields@),
            ) == Some((start as int, end as int)),
            None => !boundary_fields(envelope::field_views(fields@)),
        },
        forall|len: nat| #[trigger]
            envelope::payloads_within(fields@, len) ==> (range matches Some((start, end)) ==> start
                <= end <= len),
{
    let ghost views = envelope::field_views(fields@);
    let mut timestamp_count: usize = 0;
    let mut kind_count: usize = 0;
    let mut payload_count: usize = 0;
    let mut range: Option<(usize, usize)> = None;
    let mut i: usize = 0;
    while i < fields.len()
        invariant
            i <= fields@.len(),
            views == envelope::field_views(fields@),
            forall|j: int| 0 <= j < i ==> legacy_envelope::loosely_typed(#[trigger] views[j]),
            timestamp_count == timestamps(views.take(i as int)),
            kind_count == kinds(views.take(i as int)),
            payload_count == payloads(views.take(i as int)),
            timestamp_count <= i,
            kind_count <= i,
            payload_count <= i,
            payload_count > 0 ==> range is Some,
            match range {
                Some((start, end)) => payload_range(views.take(i as int)) == Some(
                    (start as int, end as int),
                ),
                None => payload_range(views.take(i as int)) is None,
            },
            forall|len: nat| #[trigger]
                envelope::payloads_within(fields@, len) ==> (range matches Some((start, end))
                    ==> start <= end <= len),
        decreases fields@.len() - i,
    {
        assert(views.take(i + 1).drop_last() =~= views.take(i as int));
        assert(views.take(i + 1).last() == views[i as int]);
        assert(views[i as int] == fields@[i as int]@);
        let typed: bool = match &fields[i] {
            EnvelopeField::Timestamp { is_text } => {
                timestamp_count = timestamp_count + 1;
                *is_text
            },
            EnvelopeField::Kind { text } => {
                kind_count = kind_count + 1;
                text.is_some()
            },
            EnvelopeField::Payload { object, start, end } => {
                payload_count = payload_count + 1;
                range = Some((*start, *end));
                assert forall|len: nat| #[trigger]
                    envelope::payloads_within(fields@, len) implies *start <= *end <= len by {
                    assert(envelope::payload_within(fields@[i as int], len));
                }
                object.is_some()
            },
            EnvelopeField::Other => true,
        };
        if !typed {
            assert(!legacy_envelope::loosely_typed(views[i as int]));
            return None;
        }
        i = i + 1;
    }
    assert(views.take(i as int) =~= views);
    if timestamp_count == 1 && kind_count == 1 && payload_count == 1 {
        range
    } else {
        None
    }
}

/// A payload as the last element of an array, behind two strings.
fn boundary_array(payload: &[u8]) -> (array: Vec<u8>)
    ensures
        array@ == in_boundary_array(payload@),
{
    let mut array: Vec<u8> = vec![91, 34, 34, 44, 34, 34, 44];
    array.extend_from_slice(payload);
    array.push(93);
    assert(array@ =~= in_boundary_array(payload@));
    array
}

/// Whether a record can bound a legacy history.
pub fn bounds_history(record: &[u8]) -> (bounds: bool)
    ensures
        bounds == is_boundary(record@),
{
    if reads_as_boundary_array(record) {
        return true;
    }
    match envelope::read_fields(record) {
        Some(fields) => match boundary_payload(&fields) {
            Some((start, end)) => {
                let payload: &[u8] = vstd::slice::slice_subrange(record, start, end);
                reads_as_boundary_array(boundary_array(payload).as_slice())
            },
            None => false,
        },
        None => false,
    }
}

/// Where a fork leaves the history of its source.
#[derive(Clone, Copy, Debug, PartialEq, Eq, Structural)]
pub enum ForkBoundary {
    /// Behind everything that the source holds.
    Latest,
    /// At an earlier point of the source.
    Earlier,
}

/// Whether a request to store what the writer of a thread holds succeeded, or found no writer.
pub open spec fn tolerable(outcome: ThreadStoreResult<()>) -> bool {
    match outcome {
        Ok(()) => true,
        Err(ThreadStoreError::ThreadNotFound { .. }) => true,
        Err(_) => false,
    }
}

/// What a request to store what the writer of a thread holds comes to: a thread without a writer
/// has nothing to store.
pub fn tolerate_missing_writer(outcome: ThreadStoreResult<()>) -> (tolerated: ThreadStoreResult<()>)
    ensures
        match tolerated {
            Ok(()) => tolerable(outcome),
            Err(kept) => !tolerable(outcome) && (outcome matches Err(error) && kept == error),
        },
{
    match outcome {
        Ok(()) => Ok(()),
        Err(ThreadStoreError::ThreadNotFound { .. }) => Ok(()),
        Err(error) => Err(error),
    }
}

/// A fork of a legacy history whose boundary was accepted.
#[derive(Debug)]
pub struct LegacyForkRequest {
    thread_id: ThreadId,
}

/// A fork of a legacy history under way, with a guard that keeps the history from being removed
/// until the fork is stored.
#[derive(Debug)]
pub struct LegacyFork<G> {
    thread_id: ThreadId,
    reservation: G,
    progress: ForkProgress,
}

/// How far a fork of a legacy history has come.
#[derive(Clone, Copy, Debug, PartialEq, Eq, Structural)]
pub enum ForkProgress {
    /// The thread is reserved.
    Reserved,
    /// The writer of the thread has persisted it.
    Persisted,
    /// The writer of the thread has flushed it.
    Flushed,
    /// The source is known to be a plain rollout.
    Located,
}

/// A fork of a legacy history that is ready: the position that it refers to, and the guard.
#[derive(Debug)]
pub struct PreparedLegacyFork<G> {
    pub thread_id: ThreadId,
    pub history_base: HistoryPosition,
    pub reservation: G,
}

impl LegacyForkRequest {
    /// The thread to fork.
    pub closed spec fn thread_id(&self) -> ThreadId {
        self.thread_id
    }

    /// Accepts the only boundary that a legacy fork offers.
    pub fn new(thread_id: ThreadId, boundary: ForkBoundary) -> (request: ThreadStoreResult<Self>)
        ensures
            match request {
                Ok(request) => boundary == ForkBoundary::Latest && request.thread_id()
                    == thread_id,
                Err(error) => boundary != ForkBoundary::Latest && error@ == (
                crate::error::ErrorView::Unsupported { operation: "legacy fork boundary"@ }),
            },
    {
        match boundary {
            ForkBoundary::Latest => Ok(LegacyForkRequest { thread_id }),
            ForkBoundary::Earlier => Err(
                ThreadStoreError::Unsupported { operation: "legacy fork boundary" },
            ),
        }
    }

    /// Goes on with a guard on the life of the thread.
    pub fn reserved<G>(self, reservation: G) -> (fork: LegacyFork<G>)
        ensures
            fork.thread_id() == self.thread_id(),
            fork.reservation() == reservation,
            fork.progress() == ForkProgress::Reserved,
    {
        LegacyFork { thread_id: self.thread_id, reservation, progress: ForkProgress::Reserved }
    }
}

impl<G> LegacyFork<G> {
    /// The thread to fork.
    pub closed spec fn thread_id(&self) -> ThreadId {
        self.thread_id
    }

    /// The guard on the life of the thread.
    pub closed spec fn reservation(&self) -> G {
        self.reservation
    }

    /// How far the fork has come.
    pub closed spec fn progress(&self) -> ForkProgress {
        self.progress
    }

    /// Goes on after the writer of the thread was told to persist it.
    pub fn persisted(self, outcome: ThreadStoreResult<()>) -> (fork: ThreadStoreResult<Self>)
        requires
            self.progress() == ForkProgress::Reserved,
        ensures
            match fork {
                Ok(fork) => {
                    &&& tolerable(outcome)
                    &&& fork.thread_id() == self.thread_id()
                    &&& fork.reservation() == self.reservation()
                    &&& fork.progress() == ForkProgress::Persisted
                },
                Err(error) => !tolerable(outcome) && (outcome matches Err(kept) && error == kept),
            },
    {
        match tolerate_missing_writer(outcome) {
            Ok(()) => Ok(
                LegacyFork {
                    thread_id: self.thread_id,
                    reservation: self.reservation,
                    progress: ForkProgress::Persisted,
                },
            ),
            Err(error) => Err(error),
        }
    }

    /// Goes on after the writer of the thread was told to flush it.
    pub fn flushed(self, outcome: ThreadStoreResult<()>) -> (fork: ThreadStoreResult<Self>)
        requires
            self.progress() == ForkProgress::Persisted,
        ensures
            match fork {
                Ok(fork) => {
                    &&& tolerable(outcome)
                    &&& fork.thread_id() == self.thread_id()
                    &&& fork.reservation() == self.reservation()
                    &&& fork.progress() == ForkProgress::Flushed
                },
                Err(error) => !tolerable(outcome) && (outcome matches Err(kept) && error == kept),
            },
    {
        match tolerate_missing_writer(outcome) {
            Ok(()) => Ok(
                LegacyFork {
                    thread_id: self.thread_id,
                    reservation: self.reservation,
                    progress: ForkProgress::Flushed,
                },
            ),
            Err(error) => Err(error),
        }
    }

    /// Goes on with the source that was found; `extension` is the extension of its file name. A
    /// compressed source cannot be referred to.
    pub fn with_source(self, found: bool, extension: Option<&str>) -> (fork: ThreadStoreResult<Self>)
        requires
            self.progress() == ForkProgress::Flushed,
        ensures
            match fork {
                Ok(fork) => {
                    &&& found
                    &&& extension matches Some(text) ==> text@ != "zst"@
                    &&& fork.thread_id() == self.thread_id()
                    &&& fork.reservation() == self.reservation()
                    &&& fork.progress() == ForkProgress::Located
                },
                Err(error) => if found {
                    extension matches Some(text) && text@ == "zst"@ && error@ == (
                    crate::error::ErrorView::Unsupported {
                        operation: "compressed legacy reference fork"@,
                    })
                } else {
                    error@ == (crate::error::ErrorView::ThreadNotFound {
                        thread_id: self.thread_id(),
                    })
                },
            },
    {
        if !found {
            return Err(ThreadStoreError::ThreadNotFound { thread_id: self.thread_id });
        }
        if let Some(extension) = extension {
            if text::same_text(extension, "zst") {
                return Err(
                    ThreadStoreError::Unsupported { operation: "compressed legacy reference fork" },
                );
            }
        }
        Ok(
            LegacyFork {
                thread_id: self.thread_id,
                reservation: self.reservation,
                progress: ForkProgress::Located,
            },
        )
    }

    /// Ends with the position that the fork refers to, given the search of the source for its last
    /// complete record that can bound it.
    pub fn cut_off(self, search: &RecordSearch) -> (prepared: ThreadStoreResult<
        PreparedLegacyFork<G>,
    >)
        requires
            self.progress() == ForkProgress::Located,
            search.sought() == SoughtRecord::Boundary,
            search.found() is Some,
        ensures
            match prepared {
                Ok(prepared) => {
                    &&& search.found() != Some(0u64)
                    &&& prepared.thread_id == self.thread_id()
                    &&& prepared.reservation == self.reservation()
                    &&& prepared.history_base == (HistoryPosition {
                        thread_id: self.thread_id(),
                        end_ordinal_exclusive: 0,
                        end_byte_offset: search.found()->Some_0,
                    })
                    &&& forall|file: Seq<u8>| #[trigger]
                        search.agrees(file) ==> prepared.history_base.end_byte_offset
                            == boundary_offset(file)
                },
                Err(error) => {
                    &&& search.found() == Some(0u64)
                    &&& error@ == (crate::error::ErrorView::Unsupported {
                        operation: "legacy reference fork without complete rollout envelope"@,
                    })
                    &&& forall|file: Seq<u8>| #[trigger]
                        search.agrees(file) ==> boundary_offset(file) == 0
                },
            },
    {
        assert forall|file: Seq<u8>| #[trigger] search.agrees(file) implies search.found() == Some(
            boundary_offset(file) as u64,
        ) && search.found()->Some_0 == boundary_offset(file) by {
            search.lemma_found(file);
        }
        match search.found_offset() {
            Some(end_byte_offset) if end_byte_offset != 0 => Ok(
                PreparedLegacyFork {
                    thread_id: self.thread_id,
                    history_base: HistoryPosition {
                        thread_id: self.thread_id,
                        end_ordinal_exclusive: 0,
                        end_byte_offset,
                    },
                    reservation: self.reservation,
                },
            ),
            _ => Err(
                ThreadStoreError::Unsupported {
                    operation: "legacy reference fork without complete rollout envelope",
                },
            ),
        }
    }
}

/// Whether a key occurs in an object at `i` and nowhere else.
pub open spec fn occurs_once(members: Seq<json::MemberView>, key: Seq<char>, i: int) -> bool {
    &&& 0 <= i < members.len()
    &&& members[i].key == key
    &&& forall|j: int| 0 <= j < members.len() && j != i ==> (#[trigger] members[j]).key != key
}

proof fn lemma_counts(fields: Seq<envelope::FieldView>)
    ensures
        (timestamps(fields) == 0) <==> (forall|i: int|
            0 <= i < fields.len() ==> (#[trigger] fields[i]) !is Timestamp),
        (kinds(fields) == 0) <==> (forall|i: int|
            0 <= i < fields.len() ==> (#[trigger] fields[i]) !is Kind),
        (payloads(fields) == 0) <==> (forall|i: int|
            0 <= i < fields.len() ==> (#[trigger] fields[i]) !is Payload),
    decreases fields.len(),
{
    if fields.len() > 0 {
        let earlier = fields.drop_last();
        lemma_counts(earlier);
        lemma_counted(fields);
        assert(forall|i: int| 0 <= i < earlier.len() ==> earlier[i] == #[trigger] fields[i]);
        assert(fields[fields.len() - 1] == fields.last());
    }
}

/// A field that is the only one of its sort is counted once, and one of two is counted twice.
proof fn lemma_one_of_its_sort(fields: Seq<envelope::FieldView>, i: int)
    requires
        0 <= i < fields.len(),
    ensures
        fields[i] is Timestamp ==> ((timestamps(fields) == 1) <==> (forall|j: int|
            0 <= j < fields.len() && j != i ==> (#[trigger] fields[j]) !is Timestamp)),
        fields[i] is Kind ==> ((kinds(fields) == 1) <==> (forall|j: int|
            0 <= j < fields.len() && j != i ==> (#[trigger] fields[j]) !is Kind)),
        fields[i] is Payload ==> ((payloads(fields) == 1) <==> (forall|j: int|
            0 <= j < fields.len() && j != i ==> (#[trigger] fields[j]) !is Payload)),
        fields[i] is Payload && (forall|j: int|
            0 <= j < fields.len() && j != i ==> (#[trigger] fields[j]) !is Payload)
            ==> payload_range(fields) == Some((fields[i]->start, fields[i]->end)),
    decreases fields.len(),
{
    let earlier = fields.drop_last();
    let last = fields.len() - 1;
    lemma_counts(earlier);
    lemma_counts(fields);
    assert(forall|j: int| 0 <= j < earlier.len() ==> earlier[j] == #[trigger] fields[j]);
    assert(fields[last] == fields.last());
    if i < last {
        lemma_one_of_its_sort(earlier, i);
        assert(earlier[i] == fields[i]);
        assert(timestamps(earlier) > 0 <== fields[i] is Timestamp);
        assert(kinds(earlier) > 0 <== fields[i] is Kind);
        assert(payloads(earlier) > 0 <== fields[i] is Payload);
    }
}

/// A record that is one object bounds a history exactly where `timestamp`, `type` and `payload`
/// each occur once, the first two are strings, whatever their characters, and the payload is an
/// object that can be read whole, as the last element of an array behind two strings.
pub proof fn law_boundaries_are_whole_records(record: Seq<u8>, t: int, k: int, p: int)
    requires
        json::object_members(record) is Some,
        ({
            let members = json::object_members(record)->Some_0;
            &&& occurs_once(members, "timestamp"@, t)
            &&& occurs_once(members, "type"@, k)
            &&& occurs_once(members, "payload"@, p)
        }),
    ensures
        ({
            let members = json::object_members(record)->Some_0;
            let payload = record.subrange(members[p].start, members[p].end);
            is_boundary(record) <==> json_boundary_array(record) || {
                &&& json::json_string_prefix(
                    record.subrange(members[t].start, members[t].end),
                ) is Some
                &&& json::json_string_prefix(
                    record.subrange(members[k].start, members[k].end),
                ) is Some
                &&& json::object_members(payload) is Some
                &&& json_boundary_array(
                    seq![91u8, 34u8, 34u8, 44u8, 34u8, 34u8, 44u8] + payload + seq![93u8],
                )
            }
        }),
{
    let members = json::object_members(record)->Some_0;
    let fields = envelope::envelope_fields(record)->Some_0;
    lemma_fields_of_members(record);
    lemma_one_of_its_sort(fields, t);
    lemma_one_of_its_sort(fields, k);
    lemma_one_of_its_sort(fields, p);
    assert(fields[t] is Timestamp && fields[k] is Kind && fields[p] is Payload);
    assert(fields[p]->start == members[p].start && fields[p]->end == members[p].end);
    assert(timestamps(fields) == 1);
    assert(kinds(fields) == 1);
    assert(payloads(fields) == 1);
    let typed = legacy_envelope::loosely_typed(fields[t]) && legacy_envelope::loosely_typed(
        fields[k],
    ) && legacy_envelope::loosely_typed(fields[p]);
    assert(typed ==> boundary_fields(fields)) by {
        if typed {
            assert forall|i: int| 0 <= i < fields.len() implies legacy_envelope::loosely_typed(
                #[trigger] fields[i],
            ) by {
                let key = members[i].key;
            }
        }
    }
}

/// What is known of the fields of a record by the keys of its members.
proof fn lemma_fields_of_members(record: Seq<u8>)
    requires
        json::object_members(record) is Some,
    ensures
        envelope::envelope_fields(record) is Some,
        ({
            let members = json::object_members(record)->Some_0;
            let fields = envelope::envelope_fields(record)->Some_0;
            &&& fields.len() == members.len()
            &&& forall|i: int|
                0 <= i < members.len() ==> ((#[trigger] members[i]).key == "timestamp"@
                    <==> fields[i] is Timestamp) && (members[i].key == "type"@ <==> fields[i] is Kind)
                    && (members[i].key == "payload"@ <==> fields[i] is Payload)
            &&& forall|i: int|
                0 <= i < members.len() && (#[trigger] fields[i]) is Payload ==> fields[i]->start
                    == members[i].start && fields[i]->end == members[i].end
            &&& forall|i: int|
                #![trigger members[i]]
                #![trigger fields[i]]
                0 <= i < members.len() ==> (legacy_envelope::loosely_typed(fields[i]) <==> if fields[i]
                    is Timestamp || fields[i] is Kind {
                    json::json_string_prefix(record.subrange(members[i].start, members[i].end))
                        is Some
                } else {
                    fields[i] is Payload ==> json::object_members(
                        record.subrange(members[i].start, members[i].end),
                    ) is Some
                })
        }),
{
    envelope::law_record_fields(record, 0);
    let members = json::object_members(record)->Some_0;
    let fields = envelope::envelope_fields(record)->Some_0;
    assert forall|i: int| 0 <= i < members.len() implies ((#[trigger] members[i]).key == "timestamp"@
        <==> fields[i] is Timestamp) && (members[i].key == "type"@ <==> fields[i] is Kind) && (
    members[i].key == "payload"@ <==> fields[i] is Payload) by {
        lemma_field_of_member(record, i);
    }
    assert forall|i: int| 0 <= i < members.len() && (#[trigger] fields[i]) is Payload implies fields[i]->start
        == members[i].start && fields[i]->end == members[i].end by {
        lemma_field_of_member(record, i);
    }
    assert forall|i: int|
        #![trigger members[i]]
        #![trigger fields[i]]
        0 <= i < members.len() implies (legacy_envelope::loosely_typed(fields[i]) <==> if fields[i]
        is Timestamp || fields[i] is Kind {
        json::json_string_prefix(record.subrange(members[i].start, members[i].end)) is Some
    } else {
        fields[i] is Payload ==> json::object_members(
            record.subrange(members[i].start, members[i].end),
        ) is Some
    }) by {
        lemma_field_of_member(record, i);
    }
}

proof fn lemma_field_of_member(record: Seq<u8>, i: int)
    requires
        json::object_members(record) is Some,
        0 <= i < json::object_members(record)->Some_0.len(),
    ensures
        ({
            let member = json::object_members(record)->Some_0[i];
            let field = envelope::envelope_fields(record)->Some_0[i];
            let value = record.subrange(member.start, member.end);
            &&& (member.key == "timestamp"@ <==> field is Timestamp)
            &&& (member.key == "type"@ <==> field is Kind)
            &&& (member.key == "payload"@ <==> field is Payload)
            &&& field is Payload ==> field->start == member.start && field->end == member.end
            &&& (legacy_envelope::loosely_typed(field) <==> if field is Timestamp || field is Kind {
                json::json_string_prefix(value) is Some
            } else {
                field is Payload ==> json::object_members(value) is Some
            })
        }),
{
    envelope::law_record_fields(record, i);
    envelope::law_fields_by_key(record, json::object_members(record)->Some_0[i]);
    reveal_strlit("timestamp");
    reveal_strlit("type");
    reveal_strlit("payload");
    assert("timestamp"@.len() == 9 && "type"@.len() == 4 && "payload"@.len() == 7);
}

/// A record in which `timestamp`, `type` or `payload` is missing or repeated bounds no history
/// unless it is written as an array; nor does one that is no object at all.
pub proof fn law_boundaries_have_each_member_once(record: Seq<u8>)
    requires
        is_boundary(record),
        !json_boundary_array(record),
    ensures
        json::object_members(record) is Some,
        ({
            let members = json::object_members(record)->Some_0;
            &&& exists|t: int| #[trigger] occurs_once(members, "timestamp"@, t)
            &&& exists|k: int| #[trigger] occurs_once(members, "type"@, k)
            &&& exists|p: int| #[trigger] occurs_once(members, "payload"@, p)
        }),
{
    envelope::law_record_fields(record, 0);
    let members = json::object_members(record)->Some_0;
    let fields = envelope::envelope_fields(record)->Some_0;
    lemma_fields_of_members(record);
    lemma_counted(fields);
    let t = choose|i: int| 0 <= i < fields.len() && (#[trigger] fields[i]) is Timestamp;
    let k = choose|i: int| 0 <= i < fields.len() && (#[trigger] fields[i]) is Kind;
    let p = choose|i: int| 0 <= i < fields.len() && (#[trigger] fields[i]) is Payload;
    lemma_one_of_its_sort(fields, t);
    lemma_one_of_its_sort(fields, k);
    lemma_one_of_its_sort(fields, p);
    assert(members[t].key == "timestamp"@ && members[k].key == "type"@ && members[p].key
        == "payload"@);
    assert(occurs_once(members, "timestamp"@, t)) by {
        assert forall|j: int| 0 <= j < members.len() && j != t implies (#[trigger] members[j]).key
            != "timestamp"@ by {
            assert(fields[j] !is Timestamp);
        }
    }
    assert(occurs_once(members, "type"@, k)) by {
        assert forall|j: int| 0 <= j < members.len() && j != k implies (#[trigger] members[j]).key
            != "type"@ by {
            assert(fields[j] !is Kind);
        }
    }
    assert(occurs_once(members, "payload"@, p)) by {
        assert forall|j: int| 0 <= j < members.len() && j != p implies (#[trigger] members[j]).key
            != "payload"@ by {
            assert(fields[j] !is Payload);
        }
    }
}

/// A record that `serde_json` reads as an array of two strings and an object bounds a history too.
pub proof fn law_arrays_bound_histories(record: Seq<u8>)
    requires
        json_boundary_array(record),
    ensures
        is_boundary(record),
{
}

/// Whether a record bounds a history is what is said of it.
pub proof fn law_boundaries_are_recognised(record: &[u8], t: int, k: int, p: int, bounds: bool)
    requires
        call_ensures(bounds_history, (record,), bounds),
        json::object_members(record@) is Some,
        ({
            let members = json::object_members(record@)->Some_0;
            &&& occurs_once(members, "timestamp"@, t)
            &&& occurs_once(members, "type"@, k)
            &&& occurs_once(members, "payload"@, p)
        }),
    ensures
        ({
            let members = json::object_members(record@)->Some_0;
            let payload = record@.subrange(members[p].start, members[p].end);
            bounds <==> json_boundary_array(record@) || {
                &&& json::json_string_prefix(
                    record@.subrange(members[t].start, members[t].end),
                ) is Some
                &&& json::json_string_prefix(
                    record@.subrange(members[k].start, members[k].end),
                ) is Some
                &&& json::object_members(payload) is Some
                &&& json_boundary_array(
                    seq![91u8, 34u8, 34u8, 44u8, 34u8, 34u8, 44u8] + payload + seq![93u8],
                )
            }
        }),
{
    law_boundaries_are_whole_records(record@, t, k, p);
}

/// A fork of a legacy history refers to its source behind the last whole line that bounds a
/// history, and to ordinal zero; where no line does, there is no fork.
pub proof fn law_forks_refer_to_the_last_boundary<G>(
    fork: LegacyFork<G>,
    search: &RecordSearch,
    prepared: ThreadStoreResult<PreparedLegacyFork<G>>,
    file: Seq<u8>,
    start: int,
    end: int,
)
    requires
        fork.progress() == ForkProgress::Located,
        search.sought() == SoughtRecord::Boundary,
        search.found() is Some,
        search.agrees(file),
        call_ensures(LegacyFork::<G>::cut_off, (fork, search), prepared),
        legacy_envelope::is_whole_line(file, start, end),
        is_boundary(file.subrange(start, end - 1)),
        !reverse_scanner::is_blank(file.subrange(start, end - 1)),
    ensures
        prepared matches Ok(prepared) && prepared.thread_id == fork.thread_id()
            && prepared.reservation == fork.reservation() && prepared.history_base.thread_id
            == fork.thread_id() && prepared.history_base.end_ordinal_exclusive == 0
            && prepared.history_base.end_byte_offset >= end,
        prepared matches Ok(prepared) ==> is_boundary(
            record_search::line_before(file, prepared.history_base.end_byte_offset as int),
        ),
{
    let line = file.subrange(start, end - 1);
    assert forall|i: int| 0 <= i < line.len() implies !reverse_scanner::is_newline(
        #[trigger] line[i],
    ) by {
        assert(line[i] == file[start + i]);
    }
    let cutoff = boundary_offset(file);
    if cutoff <= start {
        law_cutoff_is_the_last_boundary(file, start, end - 1);
    }
    law_cutoff_ends_a_boundary(file);
    if start < cutoff < end {
        assert(file[cutoff - 1] == 10);
        assert(false);
    }
}

/// A thread without a writer has nothing to store; every other failure to store is passed on as it
/// is.
pub proof fn law_only_missing_writers_are_tolerated(
    outcome: ThreadStoreResult<()>,
    tolerated: ThreadStoreResult<()>,
)
    requires
        call_ensures(tolerate_missing_writer, (outcome,), tolerated),
    ensures
        tolerated is Ok <==> outcome is Ok || (outcome matches Err(error)
            && error is ThreadNotFound),
        tolerated is Err ==> tolerated == outcome,
{
}

/// A fork goes from reserved over persisted and flushed to located and keeps its thread and its
/// guard, whatever the thread; a writer that fails to store ends it with the writer's error.
pub proof fn law_forks_keep_their_thread_and_guard<G>(
    reserved: LegacyFork<G>,
    persist: ThreadStoreResult<()>,
    persisted: ThreadStoreResult<LegacyFork<G>>,
    flushing: LegacyFork<G>,
    flush: ThreadStoreResult<()>,
    flushed: ThreadStoreResult<LegacyFork<G>>,
)
    requires
        reserved.progress() == ForkProgress::Reserved,
        flushing.progress() == ForkProgress::Persisted,
        call_ensures(LegacyFork::<G>::persisted, (reserved, persist), persisted),
        call_ensures(LegacyFork::<G>::flushed, (flushing, flush), flushed),
    ensures
        persist is Ok || (persist matches Err(error) && error is ThreadNotFound) ==> (
        persisted matches Ok(fork) && fork.thread_id() == reserved.thread_id() && fork.reservation()
            == reserved.reservation() && fork.progress() == ForkProgress::Persisted),
        persist matches Err(error) && error !is ThreadNotFound ==> persisted == Err::<
            LegacyFork<G>,
            ThreadStoreError,
        >(persist->Err_0),
        flush is Ok || (flush matches Err(error) && error is ThreadNotFound) ==> (
        flushed matches Ok(fork) && fork.thread_id() == flushing.thread_id() && fork.reservation()
            == flushing.reservation() && fork.progress() == ForkProgress::Flushed),
        flush matches Err(error) && error !is ThreadNotFound ==> flushed == Err::<
            LegacyFork<G>,
            ThreadStoreError,
        >(flush->Err_0),
{
}

/// A fork takes every source that was found but a compressed one: only the extension `zst` is
/// refused.
pub proof fn law_only_compressed_sources_are_refused<G>(
    fork: LegacyFork<G>,
    found: bool,
    extension: Option<&str>,
    located: ThreadStoreResult<LegacyFork<G>>,
)
    requires
        fork.progress() == ForkProgress::Flushed,
        call_ensures(LegacyFork::<G>::with_source, (fork, found, extension), located),
    ensures
        located is Ok <==> found && (extension matches Some(text) ==> text@ != "zst"@),
        located matches Ok(next) ==> next.thread_id() == fork.thread_id() && next.reservation()
            == fork.reservation() && next.progress() == ForkProgress::Located,
        !found ==> (located matches Err(error) && error is ThreadNotFound && error->thread_id
            == fork.thread_id()),
        found && located is Err ==> (located matches Err(error) && error is Unsupported),
{
}

/// Only a fork of the latest history can be made of a legacy thread, whatever the thread.
pub proof fn law_legacy_forks_are_of_the_latest_history(
    thread_id: ThreadId,
    boundary: ForkBoundary,
    request: ThreadStoreResult<LegacyForkRequest>,
)
    requires
        call_ensures(LegacyForkRequest::new, (thread_id, boundary), request),
    ensures
        request is Ok <==> boundary is Latest,
        request matches Ok(request) ==> request.thread_id() == thread_id,
        request matches Err(error) ==> error is Unsupported,
{
}

/// A fork of a rollout in which no boundary was found is refused, and so is every other fork that
/// cannot be made; each says what is not offered.
pub proof fn law_refused_forks_say_what_is_not_offered<G>(
    thread_id: ThreadId,
    boundary: ForkBoundary,
    request_error: ThreadStoreError,
    flushed: LegacyFork<G>,
    extension: Option<&str>,
    source_error: ThreadStoreError,
    located: LegacyFork<G>,
    search: &RecordSearch,
    found: Option<u64>,
    prepared: ThreadStoreResult<PreparedLegacyFork<G>>,
)
    requires
        call_ensures(
            LegacyForkRequest::new,
            (thread_id, boundary),
            Err::<LegacyForkRequest, ThreadStoreError>(request_error),
        ),
        flushed.progress() == ForkProgress::Flushed,
        call_ensures(
            LegacyFork::<G>::with_source,
            (flushed, true, extension),
            Err::<LegacyFork<G>, ThreadStoreError>(source_error),
        ),
        located.progress() == ForkProgress::Located,
        search.sought() == SoughtRecord::Boundary,
        call_ensures(RecordSearch::found_offset, (search,), found),
        found is Some,
        call_ensures(LegacyFork::<G>::cut_off, (located, search), prepared),
    ensures
        request_error@ == (crate::error::ErrorView::Unsupported {
            operation: "legacy fork boundary"@,
        }),
        source_error@ == (crate::error::ErrorView::Unsupported {
            operation: "compressed legacy reference fork"@,
        }),
        prepared is Err <==> found == Some(0u64),
        prepared matches Err(error) ==> error@ == (crate::error::ErrorView::Unsupported {
            operation: "legacy reference fork without complete rollout envelope"@,
        }),
        prepared matches Ok(prepared) ==> found == Some(prepared.history_base.end_byte_offset),
{
}

} // verus!
