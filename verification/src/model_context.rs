//! Loading the latest context of a model from the end of a history.

use crate::error::ThreadStoreError;
use crate::error::ThreadStoreResult;
use crate::history::HistoryPosition;
use crate::history::ThreadHistoryMode;
use crate::lineage::RolloutLineage;
use crate::reverse_scanner;
use crate::reverse_scanner::ReverseJsonlScanner;
use crate::reverse_scanner::ScanStartError;
use crate::reverse_scanner::ScanStep;
use crate::text;
use crate::thread_id::ThreadId;
use vstd::prelude::*;

verus! {

/// How the context of a thread is read.
#[derive(Clone, Copy, Debug, PartialEq, Eq, Structural)]
pub enum ContextPlan {
    /// From the end of a referenced history, under the writer locks of its threads.
    LockedLineage,
    /// From the whole rollout, which is compressed.
    WholeRollout,
    /// From the end of the thread's own rollout.
    Rollout,
    /// From the end of the thread's history.
    Lineage,
}

/// Whether a file name is that of a compressed rollout.
pub open spec fn is_compressed_name(name: Seq<char>) -> bool {
    text::before_suffix(name, ".jsonl.zst"@) is Some
}

/// Whether a rollout is compressed; `file_name` is its file name if that is a text.
pub fn is_compressed(file_name: Option<&str>) -> (compressed: bool)
    ensures
        compressed == (match file_name {
            Some(name) => is_compressed_name(name@),
            None => false,
        }),
{
    match file_name {
        Some(name) => text::strip_suffix(name, ".jsonl.zst").is_some(),
        None => false,
    }
}

/// The rollout that was found for a thread.
pub fn found_rollout<P>(thread_id: ThreadId, rollout: Option<P>) -> (found: ThreadStoreResult<P>)
    ensures
        match rollout {
            Some(rollout) => found matches Ok(path) && path == rollout,
            None => found matches Err(error) && error@ == (
            crate::error::ErrorView::InvalidRequest {
                message: "no rollout found for thread id "@ + thread_id.text(),
            }),
        },
{
    match rollout {
        Some(rollout) => Ok(rollout),
        None => Err(
            ThreadStoreError::InvalidRequest {
                message: text::join("no rollout found for thread id ", thread_id.to_text().as_str()),
            },
        ),
    }
}

/// How the context of a thread is read, given the metadata of its rollout: whose it is, whether it
/// refers to another history, and how it is stored. A reference is resolved even where the rollout
/// is compressed, so that what it inherits is never left out.
pub fn context_plan(
    thread_id: ThreadId,
    path: &str,
    owner: ThreadId,
    has_history_base: bool,
    compressed: bool,
    mode: ThreadHistoryMode,
) -> (plan: ThreadStoreResult<ContextPlan>)
    ensures
        match plan {
            Ok(plan) => owner == thread_id && plan == (if has_history_base {
                ContextPlan::LockedLineage
            } else if compressed {
                ContextPlan::WholeRollout
            } else {
                match mode {
                    ThreadHistoryMode::Legacy => ContextPlan::Rollout,
                    ThreadHistoryMode::Paginated => ContextPlan::Lineage,
                }
            }),
            Err(error) => owner != thread_id && error@ == (
            crate::error::ErrorView::InvalidRequest {
                message: "rollout at "@ + path@ + " belongs to thread "@ + owner.text() + ", not "@
                    + thread_id.text(),
            }),
        },
{
    if owner != thread_id {
        let message: String = text::join3("rollout at ", path, " belongs to thread ").concat(
            owner.to_text().as_str(),
        ).concat(", not ").concat(thread_id.to_text().as_str());
        return Err(ThreadStoreError::InvalidRequest { message });
    }
    if has_history_base {
        return Ok(ContextPlan::LockedLineage);
    }
    if compressed {
        return Ok(ContextPlan::WholeRollout);
    }
    match mode {
        ThreadHistoryMode::Legacy => Ok(ContextPlan::Rollout),
        ThreadHistoryMode::Paginated => Ok(ContextPlan::Lineage),
    }
}

/// What a record of a rollout turned out to be.
#[derive(Clone, Copy, Debug, PartialEq, Eq, Structural)]
pub enum ContextRecord {
    /// Not a JSON value.
    Rejected,
    /// A ghost snapshot of an old rollout.
    GhostSnapshot,
    /// A JSON value, but not a line of a rollout.
    NotALine,
    /// Metadata of a session.
    SessionMeta,
    /// Any other item.
    Item,
}

/// What becomes of a record of a segment.
#[derive(Clone, Copy, Debug, PartialEq, Eq, Structural)]
pub enum ContextAction {
    /// It is pushed to the context: tell [`ContextSegmentScan::pushed`] what that came to.
    Push,
    /// It has no part in the context.
    Skip,
}

/// What becomes of a record that turned out to be this. Metadata can be appended at the end of a
/// rollout; the metadata at the head of the requested thread are put in front at the end instead.
pub open spec fn action_on(record: ContextRecord) -> ContextAction {
    if record == ContextRecord::Item {
        ContextAction::Push
    } else {
        ContextAction::Skip
    }
}

/// A record that a scan has dealt with: what it turned out to be, and whether the context was
/// complete once it was pushed.
pub struct SeenRecord {
    pub record: reverse_scanner::JsonlRecord,
    pub kind: ContextRecord,
    pub completed: bool,
}

/// Whether a scan that dealt with these records, and ended with this answer, is a scan of the
/// records of a segment: it deals with them in their order, and stops where the context is
/// complete, or else behind the last of them.
pub open spec fn is_scan_of(
    seen: Seq<SeenRecord>,
    records: Seq<reverse_scanner::JsonlRecord>,
    complete: bool,
) -> bool {
    &&& seen.len() <= records.len()
    &&& forall|i: int| 0 <= i < seen.len() ==> (#[trigger] seen[i]).record == records[i]
    &&& forall|i: int|
        0 <= i < seen.len() && (#[trigger] seen[i]).completed ==> i == seen.len() - 1 && action_on(
            seen[i].kind,
        ) == ContextAction::Push
    &&& complete == (seen.len() > 0 && seen.last().completed)
    &&& !complete ==> seen.len() == records.len()
}

/// A scan pushes the items of a segment from the newest to the oldest. It pushes nothing once the
/// context is complete, and says so exactly then; a context that is not complete has been handed
/// every item.
pub proof fn law_items_are_pushed_newest_first(
    seen: Seq<SeenRecord>,
    file: Seq<u8>,
    end: int,
    complete: bool,
    i: int,
    j: int,
)
    requires
        0 <= end <= file.len(),
        is_scan_of(seen, reverse_scanner::records_from_end(file, end), complete),
    ensures
        0 <= i < j < seen.len() ==> seen[j].record.end_offset < seen[i].record.end_offset,
        0 <= i < seen.len() && seen[i].completed ==> complete && !(i < j < seen.len()),
        complete ==> exists|k: int|
            0 <= k < seen.len() && (#[trigger] seen[k]).completed && action_on(seen[k].kind)
                == ContextAction::Push,
        !complete && 0 <= i < reverse_scanner::records_from_end(file, end).len() ==> i < seen.len()
            && seen[i].record == reverse_scanner::records_from_end(file, end)[i]
            && !seen[i].completed,
{
    if 0 <= i < j < seen.len() {
        reverse_scanner::law_records_come_last_first(file, end, i, j);
        reverse_scanner::law_records_are_lines(file, end, i);
        assert(seen[i].record == reverse_scanner::records_from_end(file, end)[i]);
        assert(seen[j].record == reverse_scanner::records_from_end(file, end)[j]);
    }
    if complete {
        assert(seen[seen.len() - 1].completed);
    }
}

#[derive(Clone, Copy, Debug, PartialEq, Eq, Structural)]
enum SegmentPhase {
    /// The next record is to be found.
    Scanning,
    /// It is to be said what the record is.
    Judging,
    /// The record is to be pushed.
    Pushing,
    /// The context is complete.
    Complete,
}

/// What the scan of a segment needs or found.
#[derive(Debug)]
pub enum SegmentStep {
    /// The scan needs these bytes of the rollout: hand them to [`ContextSegmentScan::supply`].
    Read { offset: u64, len: usize },
    /// The next record: tell [`ContextSegmentScan::judge`] what it is.
    Record { bytes: Vec<u8> },
    /// The scan is over; whether the context is complete.
    Done { complete: bool },
}

/// The scan of one segment for a context, from its end.
pub struct ContextSegmentScan {
    scanner: ReverseJsonlScanner,
    phase: SegmentPhase,
    file_len: u64,
    end: u64,
    seen: Ghost<Seq<SeenRecord>>,
    current: Ghost<reverse_scanner::JsonlRecord>,
}

impl ContextSegmentScan {
    /// What every scan keeps.
    pub closed spec fn wf(&self) -> bool {
        &&& self.scanner.wf()
        &&& self.end <= self.file_len
        &&& forall|i: int|
            0 <= i < self.seen@.len() && (#[trigger] self.seen@[i]).completed ==> i
                == self.seen@.len() - 1 && action_on(self.seen@[i].kind) == ContextAction::Push
        &&& self.phase == SegmentPhase::Complete <==> self.seen@.len() > 0
            && self.seen@.last().completed
    }

    /// The records that the scan has dealt with.
    pub closed spec fn seen(&self) -> Seq<SeenRecord> {
        self.seen@
    }

    /// The record that the scan handed out last.
    pub closed spec fn current(&self) -> reverse_scanner::JsonlRecord {
        self.current@
    }

    /// Whether the scan waits to be told what a record is.
    pub closed spec fn is_judging(&self) -> bool {
        self.phase == SegmentPhase::Judging
    }

    /// Whether the scan waits to be told what pushing a record came to.
    pub closed spec fn is_pushing(&self) -> bool {
        self.phase == SegmentPhase::Pushing
    }

    /// Whether the context is complete.
    pub closed spec fn is_complete(&self) -> bool {
        self.phase == SegmentPhase::Complete
    }

    /// The offset where the scanned part of the rollout ends.
    pub closed spec fn end(&self) -> int {
        self.end as int
    }

    /// The records that the scan has handed out.
    spec fn handed_out(&self) -> Seq<reverse_scanner::JsonlRecord> {
        let seen = self.seen@.map_values(|seen: SeenRecord| seen.record);
        if self.is_judging() || self.is_pushing() {
            seen.push(self.current@)
        } else {
            seen
        }
    }

    /// Whether the bytes seen so far are those of this file.
    pub closed spec fn agrees(&self, file: Seq<u8>) -> bool {
        &&& file.len() == self.file_len
        &&& self.scanner.agrees(file)
        &&& self.handed_out() + self.scanner.upcoming(file) == reverse_scanner::records_from_end(
            file,
            self.end as int,
        )
    }

    /// The offset behind the bytes that the scan waits for.
    pub closed spec fn position(&self) -> int {
        self.scanner.position()
    }

    /// The number of bytes that the scan waits for.
    pub closed spec fn awaited(&self) -> int {
        self.scanner.awaited()
    }

    /// A bound on how often the scan still has to be handed bytes or hands out records.
    pub closed spec fn remaining(&self) -> nat {
        self.scanner.remaining()
    }

    /// Starts at the end of a segment: at `end_byte_offset`, or else at the end of its rollout of
    /// `file_len` bytes; `byte_before_end` is the byte just before that.
    pub fn new(file_len: u64, end_byte_offset: Option<u64>, byte_before_end: Option<u8>) -> (result:
        Result<Self, ScanStartError>)
        requires
            (match end_byte_offset {
                Some(end) => 0 < end <= file_len,
                None => 0 < file_len,
            }) ==> byte_before_end is Some,
        ensures
            result is Err <==> (end_byte_offset matches Some(end) && end > file_len),
            result matches Ok(scan) ==> {
                &&& scan.wf()
                &&& scan.seen().len() == 0
                &&& !scan.is_judging()
                &&& !scan.is_pushing()
                &&& !scan.is_complete()
                &&& scan.end() == (match end_byte_offset {
                    Some(end) => end,
                    None => file_len,
                })
                &&& forall|file: Seq<u8>|
                    file.len() == file_len && (scan.end() > 0 ==> byte_before_end == Some(
                        file[scan.end() - 1],
                    )) ==> #[trigger] scan.agrees(file)
            },
    {
        let end: u64 = match end_byte_offset {
            Some(end) => end,
            None => file_len,
        };
        let scanner: ReverseJsonlScanner = match ReverseJsonlScanner::new_at(
            file_len,
            end,
            byte_before_end,
        ) {
            Ok(scanner) => scanner,
            Err(error) => {
                return Err(error);
            },
        };
        let scan = ContextSegmentScan {
            scanner,
            phase: SegmentPhase::Scanning,
            file_len,
            end,
            seen: Ghost(Seq::empty()),
            current: Ghost(arbitrary()),
        };
        assert forall|file: Seq<u8>|
            file.len() == file_len && (scan.end() > 0 ==> byte_before_end == Some(
                file[scan.end() - 1],
            )) implies #[trigger] scan.agrees(file) by {
            assert(scan.scanner.agrees(file));
            assert(scan.handed_out() + scan.scanner.upcoming(file) =~= scan.scanner.upcoming(file));
        }
        Ok(scan)
    }

    /// Finds the next record, says which bytes it needs first, or ends the scan.
    pub fn next(&mut self) -> (step: SegmentStep)
        requires
            old(self).wf(),
            !old(self).is_judging(),
            !old(self).is_pushing(),
        ensures
            final(self).wf(),
            final(self).seen() == old(self).seen(),
            final(self).end() == old(self).end(),
            final(self).is_complete() == old(self).is_complete(),
            final(self).position() <= old(self).position(),
            !final(self).is_pushing(),
            forall|file: Seq<u8>|
                #![trigger old(self).agrees(file)]
                #![trigger final(self).agrees(file)]
                old(self).agrees(file) ==> final(self).agrees(file),
            match step {
                SegmentStep::Read { offset, len } => {
                    &&& len > 0
                    &&& len == final(self).awaited()
                    &&& offset + len == final(self).position()
                    &&& !final(self).is_judging()
                    &&& final(self).remaining() <= old(self).remaining()
                    &&& forall|file: Seq<u8>| #[trigger]
                        old(self).agrees(file) ==> offset + len <= file.len()
                },
                SegmentStep::Record { bytes } => {
                    &&& final(self).is_judging()
                    &&& final(self).current().bytes == bytes@
                    &&& final(self).remaining() < old(self).remaining()
                },
                SegmentStep::Done { complete } => {
                    &&& !final(self).is_judging()
                    &&& complete == final(self).is_complete()
                    &&& !complete ==> final(self).position() == 0
                    &&& forall|file: Seq<u8>| #[trigger]
                        old(self).agrees(file) ==> is_scan_of(
                            final(self).seen(),
                            reverse_scanner::records_from_end(file, final(self).end()),
                            complete,
                        )
                },
            },
    {
        let ghost before = *self;
        if self.phase == SegmentPhase::Complete {
            assert forall|file: Seq<u8>| #[trigger] before.agrees(file) implies is_scan_of(
                self.seen(),
                reverse_scanner::records_from_end(file, self.end()),
                true,
            ) by {
                lemma_scanned(before, file);
            }
            return SegmentStep::Done { complete: true };
        }
        match self.scanner.scan_next() {
            ScanStep::Read { offset, len } => {
                assert forall|file: Seq<u8>|
                    #![trigger before.agrees(file)]
                    #![trigger self.agrees(file)]
                    before.agrees(file) implies self.agrees(file) && offset + len <= file.len() by {
                    assert(self.scanner.agrees(file));
                }
                SegmentStep::Read { offset, len }
            },
            ScanStep::Record { bytes } => {
                let ghost record = reverse_scanner::JsonlRecord {
                    bytes: bytes@,
                    end_offset: self.scanner.last_end()->Some_0 as int,
                    terminated: self.scanner.last_terminated()->Some_0,
                };
                self.current = Ghost(record);
                self.phase = SegmentPhase::Judging;
                assert forall|file: Seq<u8>|
                    #![trigger before.agrees(file)]
                    #![trigger self.agrees(file)]
                    before.agrees(file) implies self.agrees(file) by {
                    assert(self.scanner.agrees(file));
                    assert(self.handed_out() + self.scanner.upcoming(file) =~= before.handed_out()
                        + before.scanner.upcoming(file));
                }
                SegmentStep::Record { bytes }
            },
            ScanStep::Finished => {
                assert forall|file: Seq<u8>|
                    #![trigger before.agrees(file)]
                    #![trigger self.agrees(file)]
                    before.agrees(file) implies self.agrees(file) && is_scan_of(
                    self.seen(),
                    reverse_scanner::records_from_end(file, self.end()),
                    false,
                ) by {
                    assert(self.scanner.agrees(file));
                    lemma_scanned(before, file);
                }
                SegmentStep::Done { complete: false }
            },
        }
    }

    /// Hands the scan the bytes that it asked for.
    pub fn supply(&mut self, bytes: Vec<u8>)
        requires
            old(self).wf(),
            !old(self).is_judging(),
            !old(self).is_pushing(),
            bytes@.len() == old(self).awaited(),
            bytes@.len() > 0,
        ensures
            final(self).wf(),
            final(self).seen() == old(self).seen(),
            final(self).end() == old(self).end(),
            final(self).is_complete() == old(self).is_complete(),
            !final(self).is_judging(),
            !final(self).is_pushing(),
            final(self).remaining() < old(self).remaining(),
            forall|file: Seq<u8>|
                #![trigger old(self).agrees(file)]
                #![trigger final(self).agrees(file)]
                old(self).agrees(file) && bytes@ == file.subrange(
                    old(self).position() - bytes@.len(),
                    old(self).position(),
                ) ==> final(self).agrees(file),
    {
        self.scanner.supply_chunk(bytes);
    }

    /// Decides what becomes of the record that was handed out, which turned out to be this.
    pub fn judge(&mut self, kind: ContextRecord) -> (action: ContextAction)
        requires
            old(self).wf(),
            old(self).is_judging(),
        ensures
            final(self).wf(),
            action == action_on(kind),
            final(self).end() == old(self).end(),
            final(self).current() == old(self).current(),
            final(self).remaining() == old(self).remaining(),
            !final(self).is_judging(),
            !final(self).is_complete(),
            final(self).is_pushing() == (action == ContextAction::Push),
            final(self).seen() == (match action {
                ContextAction::Push => old(self).seen(),
                ContextAction::Skip => old(self).seen().push(
                    SeenRecord { record: old(self).current(), kind, completed: false },
                ),
            }),
            forall|file: Seq<u8>|
                #![trigger old(self).agrees(file)]
                #![trigger final(self).agrees(file)]
                old(self).agrees(file) ==> final(self).agrees(file),
    {
        if let ContextRecord::Item = kind {
            self.phase = SegmentPhase::Pushing;
            return ContextAction::Push;
        }
        self.dealt_with(kind, false);
        ContextAction::Skip
    }

    /// Takes up whether the context was complete once the record was pushed.
    pub fn pushed(&mut self, complete: bool)
        requires
            old(self).wf(),
            old(self).is_pushing(),
        ensures
            final(self).wf(),
            final(self).end() == old(self).end(),
            final(self).current() == old(self).current(),
            final(self).remaining() == old(self).remaining(),
            !final(self).is_judging(),
            !final(self).is_pushing(),
            final(self).is_complete() == complete,
            final(self).seen() == old(self).seen().push(
                SeenRecord {
                    record: old(self).current(),
                    kind: ContextRecord::Item,
                    completed: complete,
                },
            ),
            forall|file: Seq<u8>|
                #![trigger old(self).agrees(file)]
                #![trigger final(self).agrees(file)]
                old(self).agrees(file) ==> final(self).agrees(file),
    {
        self.dealt_with(ContextRecord::Item, complete);
    }

    fn dealt_with(&mut self, kind: ContextRecord, completed: bool)
        requires
            old(self).wf(),
            old(self).is_judging() || old(self).is_pushing(),
            completed ==> action_on(kind) == ContextAction::Push,
        ensures
            final(self).wf(),
            final(self).scanner == old(self).scanner,
            final(self).file_len == old(self).file_len,
            final(self).end == old(self).end,
            final(self).current == old(self).current,
            final(self).phase == (if completed {
                SegmentPhase::Complete
            } else {
                SegmentPhase::Scanning
            }),
            final(self).seen() == old(self).seen().push(
                SeenRecord { record: old(self).current(), kind, completed },
            ),
            forall|file: Seq<u8>|
                #![trigger old(self).agrees(file)]
                #![trigger final(self).agrees(file)]
                old(self).agrees(file) ==> final(self).agrees(file),
    {
        let ghost before = *self;
        self.seen = Ghost(
            before.seen@.push(SeenRecord { record: before.current@, kind, completed }),
        );
        self.phase = if completed {
            SegmentPhase::Complete
        } else {
            SegmentPhase::Scanning
        };
        proof {
            assert forall|i: int|
                0 <= i < self.seen@.len() && (#[trigger] self.seen@[i]).completed implies i
                == self.seen@.len() - 1 && action_on(self.seen@[i].kind) == ContextAction::Push by {
                if i < before.seen@.len() {
                    assert(before.seen@[i].completed);
                    assert(before.seen@.last() == before.seen@[i]);
                }
            }
            assert(self.handed_out() =~= before.handed_out());
        }
    }
}

/// A scan that waits for nothing and needs no more records is a scan of its segment.
proof fn lemma_scanned(scan: ContextSegmentScan, file: Seq<u8>)
    requires
        scan.wf(),
        scan.agrees(file),
        !scan.is_judging(),
        !scan.is_pushing(),
        scan.is_complete() || scan.scanner.upcoming(file).len() == 0,
    ensures
        is_scan_of(
            scan.seen(),
            reverse_scanner::records_from_end(file, scan.end()),
            scan.is_complete(),
        ),
{
    let records = reverse_scanner::records_from_end(file, scan.end());
    let whole = scan.handed_out() + scan.scanner.upcoming(file);
    assert forall|i: int| 0 <= i < scan.seen().len() implies (#[trigger] scan.seen()[i]).record
        == records[i] by {
        assert(whole[i] == scan.handed_out()[i]);
    }
}

/// The segment of a lineage to scan next, and up to where.
#[derive(Clone, Copy, Debug, PartialEq, Eq, Structural)]
pub struct SegmentScan {
    pub index: usize,
    pub end_byte_offset: Option<u64>,
}

/// The scan of a lineage from its last segment to its first.
#[derive(Debug)]
pub struct LineageScan {
    left: usize,
}

impl LineageScan {
    /// How many segments are still to be scanned: all before this index.
    pub closed spec fn left(&self) -> int {
        self.left as int
    }

    /// Starts behind the last segment.
    pub fn new(lineage: &RolloutLineage) -> (scan: Self)
        ensures
            scan.left() == lineage@.len(),
    {
        LineageScan { left: lineage.segments().len() }
    }

    /// The next segment, unless the context is complete or no segment is left.
    pub fn next(&mut self, lineage: &RolloutLineage, complete: bool) -> (segment: Option<SegmentScan>)
        requires
            old(self).left() <= lineage@.len(),
        ensures
            match segment {
                Some(segment) => {
                    &&& !complete
                    &&& old(self).left() > 0
                    &&& final(self).left() == old(self).left() - 1
                    &&& segment.index == final(self).left()
                    &&& segment.end_byte_offset == (match lineage@[segment.index as int].end {
                        Some(end) => Some(end.end_byte_offset),
                        None => None,
                    })
                },
                None => (complete || old(self).left() == 0) && final(self).left() == old(self).left(),
            },
    {
        if complete || self.left == 0 {
            return None;
        }
        self.left = self.left - 1;
        let end_byte_offset: Option<u64> = match lineage.segments()[self.left].end {
            Some(end) => Some(end.end_byte_offset),
            None => None,
        };
        Some(SegmentScan { index: self.left, end_byte_offset })
    }
}

/// The items of a context with the canonical metadata in front, unless metadata come first anyway.
pub fn with_canonical_meta<T>(items: Vec<T>, starts_with_meta: bool, canonical_meta: T) -> (all: Vec<
    T,
>)
    ensures
        all@ == (if starts_with_meta {
            items@
        } else {
            seq![canonical_meta] + items@
        }),
{
    if starts_with_meta {
        return items;
    }
    let mut all: Vec<T> = items;
    let ghost before = all@;
    all.insert(0, canonical_meta);
    assert(all@ =~= seq![canonical_meta] + before);
    all
}

/// What the context of a fork is read from.
#[derive(Clone, Copy, Debug, PartialEq, Eq, Structural)]
pub enum ForkContextPlan {
    /// The lineage, cut off at this position.
    Truncated { end: HistoryPosition },
    /// Nothing but the metadata of the source.
    MetaOnly,
}

/// What the context of a fork is read from: the rollout at this index of the lineage has the
/// metadata, and the lineage up to the fork's position has the items.
pub fn fork_context_plan(lineage: &RolloutLineage, history_base: Option<HistoryPosition>) -> (plan:
    ThreadStoreResult<(usize, ForkContextPlan)>)
    ensures
        match plan {
            Ok((index, plan)) => {
                &&& lineage@.len() > 0
                &&& index == lineage@.len() - 1
                &&& plan == (match history_base {
                    Some(end) => ForkContextPlan::Truncated { end },
                    None => ForkContextPlan::MetaOnly,
                })
            },
            Err(error) => lineage@.len() == 0 && error@ == (crate::error::ErrorView::Internal {
                message: "fork lineage has no source segment"@,
            }),
        },
{
    let count: usize = lineage.segments().len();
    if count == 0 {
        return Err(
            ThreadStoreError::Internal { message: "fork lineage has no source segment".to_owned() },
        );
    }
    let plan: ForkContextPlan = match history_base {
        Some(end) => ForkContextPlan::Truncated { end },
        None => ForkContextPlan::MetaOnly,
    };
    Ok((count - 1, plan))
}

/// The context of a thread is read from where its history lies: under locks from its lineage if it
/// refers to another history, from the whole rollout if that is compressed, and else from the end
/// of its own rollout or of its lineage. Only a rollout of another thread is refused.
pub proof fn law_contexts_are_read_from_where_they_lie(
    thread_id: ThreadId,
    path: &str,
    owner: ThreadId,
    has_history_base: bool,
    compressed: bool,
    mode: ThreadHistoryMode,
    plan: ThreadStoreResult<ContextPlan>,
)
    requires
        call_ensures(
            context_plan,
            (thread_id, path, owner, has_history_base, compressed, mode),
            plan,
        ),
    ensures
        plan is Ok <==> owner == thread_id,
        plan matches Err(error) ==> error is InvalidRequest,
        plan matches Ok(plan) ==> {
            &&& plan == ContextPlan::LockedLineage <==> has_history_base
            &&& plan == ContextPlan::WholeRollout <==> !has_history_base && compressed
            &&& plan == ContextPlan::Rollout <==> !has_history_base && !compressed && mode
                == ThreadHistoryMode::Legacy
            &&& plan == ContextPlan::Lineage <==> !has_history_base && !compressed && mode
                == ThreadHistoryMode::Paginated
        },
{
}

/// A rollout is compressed exactly where its file name ends with `.jsonl.zst`.
pub proof fn law_compressed_names_end_with_the_suffix(
    name: &str,
    stem: Seq<char>,
    compressed: bool,
    unnamed: bool,
)
    requires
        call_ensures(is_compressed, (Some(name),), compressed),
        call_ensures(is_compressed, (None::<&str>,), unnamed),
    ensures
        name@ == stem + ".jsonl.zst"@ ==> compressed,
        compressed ==> exists|prefix: Seq<char>| name@ == #[trigger] (prefix + ".jsonl.zst"@),
        !unnamed,
{
    let suffix = ".jsonl.zst"@;
    if name@ == stem + suffix {
        assert(name@.skip(name@.len() - suffix.len()) =~= suffix);
    }
    if compressed {
        let prefix = name@.take(name@.len() - suffix.len());
        assert(name@ =~= prefix + name@.skip(name@.len() - suffix.len()));
        assert(name@ == prefix + suffix);
    }
}

/// Every item is pushed to a context, and nothing else is: values that cannot be read, ghost
/// snapshots, values that are no lines, and metadata are passed over.
pub proof fn law_only_items_are_pushed(
    scan: &mut ContextSegmentScan,
    kind: ContextRecord,
    action: ContextAction,
)
    requires
        old(scan).wf(),
        old(scan).is_judging(),
        call_ensures(ContextSegmentScan::judge, (scan, kind), action),
    ensures
        action is Push <==> kind is Item,
        kind is Rejected || kind is GhostSnapshot || kind is NotALine || kind is SessionMeta
            <==> action is Skip,
        action is Push ==> final(scan).is_pushing() && final(scan).seen() == old(scan).seen(),
        action is Skip ==> {
            &&& final(scan).seen().len() == old(scan).seen().len() + 1
            &&& final(scan).seen().drop_last() == old(scan).seen()
            &&& final(scan).seen().last().record == old(scan).current()
            &&& final(scan).seen().last().kind == kind
            &&& !final(scan).seen().last().completed
        },
{
    if action is Skip {
        assert(final(scan).seen().drop_last() =~= old(scan).seen());
    }
}

/// What an item that was pushed came to is what the scan goes by: it is over exactly when the
/// context is complete.
pub proof fn law_scans_end_with_a_complete_context(
    scan: &mut ContextSegmentScan,
    complete: bool,
)
    requires
        old(scan).wf(),
        old(scan).is_pushing(),
        call_ensures(ContextSegmentScan::pushed, (scan, complete), ()),
    ensures
        final(scan).is_complete() <==> complete,
        final(scan).seen().len() == old(scan).seen().len() + 1,
        final(scan).seen().drop_last() == old(scan).seen(),
        final(scan).seen().last().record == old(scan).current(),
        final(scan).seen().last().completed == complete,
{
    assert(final(scan).seen().drop_last() =~= old(scan).seen());
}

/// The scan of a segment ends with a complete context, or behind its last record: it has then dealt
/// with every line of the segment, up to its cutoff, that holds anything but white space.
pub proof fn law_incomplete_scans_have_seen_every_line(
    scan: &mut ContextSegmentScan,
    file: Seq<u8>,
    line_from: int,
    line_to: int,
)
    requires
        old(scan).wf(),
        !old(scan).is_judging(),
        !old(scan).is_pushing(),
        old(scan).agrees(file),
        call_ensures(ContextSegmentScan::next, (scan,), SegmentStep::Done { complete: false }),
        0 <= line_from <= line_to <= old(scan).end() <= file.len(),
        line_from > 0 ==> file[line_from - 1] == 10,
        line_to < old(scan).end() ==> file[line_to] == 10,
        reverse_scanner::single_line(file.subrange(line_from, line_to)),
        !reverse_scanner::is_blank(file.subrange(line_from, line_to)),
    ensures
        exists|i: int|
            0 <= i < final(scan).seen().len() && (#[trigger] final(scan).seen()[i]).record.bytes
                == file.subrange(line_from, line_to) && !final(scan).seen()[i].completed,
{
    let end = old(scan).end();
    let records = reverse_scanner::records_from_end(file, end);
    reverse_scanner::law_every_line_is_recorded(file, end, line_from, line_to);
    let record = reverse_scanner::JsonlRecord {
        bytes: file.subrange(line_from, line_to),
        end_offset: if line_to < end {
            line_to + 1
        } else {
            end
        },
        terminated: line_to < end,
    };
    let i = choose|i: int| 0 <= i < records.len() && records[i] == record;
    assert(final(scan).seen()[i].record == records[i]);
    if final(scan).seen()[i].completed {
        assert(final(scan).seen().last() == final(scan).seen()[i]);
    }
}

/// The scan of a segment starts at its cutoff, or at the end of its rollout if it has none.
pub proof fn law_segments_are_scanned_from_their_cutoff(
    file_len: u64,
    end_byte_offset: Option<u64>,
    byte_before_end: Option<u8>,
    started: Result<ContextSegmentScan, ScanStartError>,
)
    requires
        (match end_byte_offset {
            Some(end) => 0 < end <= file_len,
            None => 0 < file_len,
        }) ==> byte_before_end is Some,
        call_ensures(
            ContextSegmentScan::new,
            (file_len, end_byte_offset, byte_before_end),
            started,
        ),
    ensures
        started is Ok <==> (end_byte_offset matches Some(end) ==> end <= file_len),
        started matches Ok(scan) ==> scan.seen().len() == 0 && (end_byte_offset matches Some(end)
            ==> scan.end() == end) && (end_byte_offset is None ==> scan.end() == file_len),
{
}

/// A lineage is scanned from its last segment to its first, each up to where it is cut off, until
/// the context is complete or no segment is left.
pub proof fn law_lineages_are_scanned_backwards(
    scan: &mut LineageScan,
    lineage: &RolloutLineage,
    complete: bool,
    segment: Option<SegmentScan>,
    started: LineageScan,
)
    requires
        old(scan).left() <= lineage@.len(),
        call_ensures(LineageScan::next, (scan, lineage, complete), segment),
        call_ensures(LineageScan::new, (lineage,), started),
    ensures
        started.left() == lineage@.len(),
        segment is Some <==> !complete && old(scan).left() > 0,
        segment matches Some(segment) ==> {
            &&& segment.index == old(scan).left() - 1
            &&& final(scan).left() == segment.index
            &&& segment.end_byte_offset is Some <==> lineage@[segment.index as int].end is Some
            &&& lineage@[segment.index as int].end matches Some(end) ==> segment.end_byte_offset
                == Some(end.end_byte_offset)
        },
{
}

/// The metadata at the head of a thread come first in its context, once; every other item stays, in
/// order.
pub proof fn law_contexts_start_with_the_metadata<T>(
    items: Vec<T>,
    starts_with_meta: bool,
    canonical_meta: T,
    all: Vec<T>,
    i: int,
)
    requires
        call_ensures(with_canonical_meta::<T>, (items, starts_with_meta, canonical_meta), all),
    ensures
        starts_with_meta ==> all@.len() == items@.len() && (0 <= i < items@.len() ==> all@[i]
            == items@[i]),
        !starts_with_meta ==> all@.len() == items@.len() + 1 && all@[0] == canonical_meta && (0 <= i
            < items@.len() ==> all@[i + 1] == items@[i]),
{
}

/// The context of a fork is read with the metadata of the last rollout of its lineage, from the
/// lineage cut off at the position of the fork; a fork of nothing has the metadata alone.
pub proof fn law_forks_read_their_source(
    lineage: &RolloutLineage,
    history_base: Option<HistoryPosition>,
    plan: ThreadStoreResult<(usize, ForkContextPlan)>,
)
    requires
        call_ensures(fork_context_plan, (lineage, history_base), plan),
    ensures
        plan is Ok <==> lineage@.len() > 0,
        plan matches Ok((index, plan)) ==> index == lineage@.len() - 1 && (
        history_base matches Some(end) ==> plan == (ForkContextPlan::Truncated { end })) && (
        history_base is None ==> plan == ForkContextPlan::MetaOnly),
{
}

/// What was found is handed on; what was not found, belongs to another thread or has no source is
/// refused with the threads and the path that it is about.
pub proof fn law_refused_contexts_say_why<P>(
    thread_id: ThreadId,
    rollout: Option<P>,
    found: ThreadStoreResult<P>,
    path: &str,
    owner: ThreadId,
    has_history_base: bool,
    compressed: bool,
    mode: ThreadHistoryMode,
    plan: ThreadStoreResult<ContextPlan>,
    lineage: &RolloutLineage,
    history_base: Option<HistoryPosition>,
    fork_plan: ThreadStoreResult<(usize, ForkContextPlan)>,
)
    requires
        call_ensures(found_rollout::<P>, (thread_id, rollout), found),
        call_ensures(
            context_plan,
            (thread_id, path, owner, has_history_base, compressed, mode),
            plan,
        ),
        call_ensures(fork_context_plan, (lineage, history_base), fork_plan),
    ensures
        found is Ok <==> rollout is Some,
        found matches Ok(path) ==> rollout == Some(path),
        found matches Err(error) ==> error@ == (crate::error::ErrorView::InvalidRequest {
            message: "no rollout found for thread id "@ + thread_id.text(),
        }),
        plan matches Err(error) ==> error@ == (crate::error::ErrorView::InvalidRequest {
            message: "rollout at "@ + path@ + " belongs to thread "@ + owner.text() + ", not "@
                + thread_id.text(),
        }),
        fork_plan matches Err(error) ==> error@ == (crate::error::ErrorView::Internal {
            message: "fork lineage has no source segment"@,
        }),
{
}

/// The scan of a segment hands out its records one after the other, the last one first, and none
/// twice: the next one is the one behind those that it has dealt with.
pub proof fn law_segments_hand_out_their_records_in_order(
    scan: &mut ContextSegmentScan,
    bytes: Vec<u8>,
    file: Seq<u8>,
)
    requires
        old(scan).wf(),
        !old(scan).is_judging(),
        !old(scan).is_pushing(),
        old(scan).agrees(file),
        call_ensures(ContextSegmentScan::next, (scan,), SegmentStep::Record { bytes }),
    ensures
        ({
            let records = reverse_scanner::records_from_end(file, old(scan).end());
            let dealt_with = old(scan).seen().len() as int;
            &&& dealt_with < records.len()
            &&& records[dealt_with].bytes == bytes@
            &&& final(scan).current() == records[dealt_with]
            &&& final(scan).is_judging()
            &&& final(scan).seen() == old(scan).seen()
            &&& final(scan).end() == old(scan).end()
            &&& final(scan).agrees(file)
        }),
{
    let after = *final(scan);
    let dealt_with = after.seen().len() as int;
    assert(after.agrees(file));
    assert(after.handed_out().len() == dealt_with + 1);
    assert((after.handed_out() + after.scanner.upcoming(file))[dealt_with] == after.current());
}

/// The scan of a segment that was given the bytes that it asked for goes on in the same segment,
/// with what it has dealt with.
pub proof fn law_segments_go_on_with_what_they_asked_for(
    asking: &mut ContextSegmentScan,
    scan: &mut ContextSegmentScan,
    offset: u64,
    len: usize,
    bytes: Vec<u8>,
    file: Seq<u8>,
)
    requires
        old(asking).wf(),
        !old(asking).is_judging(),
        !old(asking).is_pushing(),
        old(asking).agrees(file),
        call_ensures(ContextSegmentScan::next, (asking,), SegmentStep::Read { offset, len }),
        *old(scan) == *final(asking),
        bytes@ == file.subrange(offset as int, offset + len),
        call_ensures(ContextSegmentScan::supply, (scan, bytes), ()),
    ensures
        offset + len <= file.len(),
        final(scan).wf(),
        final(scan).agrees(file),
        final(scan).seen() == old(asking).seen(),
        final(scan).end() == old(asking).end(),
        final(scan).is_complete() == old(asking).is_complete(),
        final(scan).remaining() < old(asking).remaining(),
{
}

} // verus!
