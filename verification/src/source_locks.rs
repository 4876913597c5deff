//! Leases on the sources of forks within one process, on top of the cross-process writer locks.
//!
//! A process knows each of its homes and each of its held locks by a number. The registry says
//! which lock stands for the source of which thread; whether a lock is still held is found out
//! elsewhere and handed in.

use crate::error::ThreadStoreError;
use crate::error::ThreadStoreResult;
use crate::text;
use crate::thread_id::ThreadId;
use crate::writer_lock;
use crate::writer_lock::WriterLockError;
use vstd::prelude::*;

verus! {

/// A thread of a home.
#[derive(Clone, Copy, Debug, PartialEq, Eq, Structural)]
pub struct SourceLockKey {
    /// The number by which the process knows the home.
    pub home: u64,
    pub thread_id: ThreadId,
}

/// The lock that stands for the source of a thread.
#[derive(Clone, Copy, Debug, PartialEq, Eq, Structural)]
pub struct SourceLease {
    pub key: SourceLockKey,
    /// The number by which the process knows the lock.
    pub lock: u64,
}

/// The error of the store for a lock that was not obtained.
pub open spec fn lock_error(error: writer_lock::WriterLockErrorView, failed: Seq<char>) ->
    crate::error::ErrorView {
    match error {
        writer_lock::WriterLockErrorView::WouldBlock { message } =>
            crate::error::ErrorView::Conflict { message },
        writer_lock::WriterLockErrorView::Failed { message } => crate::error::ErrorView::Internal {
            message: failed + ": "@ + message,
        },
    }
}

/// The error of the store for a thread's writer lock that was not obtained.
pub fn acquire_error(thread_id: ThreadId, error: WriterLockError) -> (reported: ThreadStoreError)
    ensures
        reported@ == lock_error(
            error@,
            "failed to acquire thread writer lock for thread "@ + thread_id.text(),
        ),
{
    match error {
        WriterLockError::WouldBlock { message } => ThreadStoreError::Conflict { message },
        WriterLockError::Failed { message } => {
            let failed: String = text::join(
                "failed to acquire thread writer lock for thread ",
                thread_id.to_text().as_str(),
            );
            ThreadStoreError::Internal {
                message: text::join3(failed.as_str(), ": ", message.as_str()),
            }
        },
    }
}

/// The error of the store for a topology lock that was not obtained.
pub fn acquire_topology_error(error: WriterLockError) -> (reported: ThreadStoreError)
    ensures
        reported@ == lock_error(error@, "failed to acquire rollout topology lock"@),
{
    match error {
        WriterLockError::WouldBlock { message } => ThreadStoreError::Conflict { message },
        WriterLockError::Failed { message } => ThreadStoreError::Internal {
            message: text::join3(
                "failed to acquire rollout topology lock",
                ": ",
                message.as_str(),
            ),
        },
    }
}

/// A writer that finds the lock of its thread held is refused with a conflict that names the
/// thread, whoever holds the lock.
pub proof fn law_second_writer_gets_a_conflict(thread_id: ThreadId, failed: Seq<char>)
    ensures
        lock_error(
            writer_lock::event_error(thread_id, writer_lock::LockEvent::WouldBlock),
            failed,
        ) == (crate::error::ErrorView::Conflict {
            message: writer_lock::active_writer_message(thread_id),
        }),
{
}

/// Whether no thread of a home occurs twice among the leases.
pub open spec fn distinct_keys(leases: Seq<SourceLease>) -> bool {
    forall|i: int, j: int|
        0 <= i < j < leases.len() ==> (#[trigger] leases[i]).key != (#[trigger] leases[j]).key
}

/// The leases as a map from threads to locks.
pub open spec fn lease_map(leases: Seq<SourceLease>) -> Map<SourceLockKey, u64>
    decreases leases.len(),
{
    if leases.len() == 0 {
        Map::empty()
    } else {
        lease_map(leases.drop_last()).insert(leases.last().key, leases.last().lock)
    }
}

/// The leases whose locks are still held; `live` says so of each, in order.
pub open spec fn live_leases(leases: Seq<SourceLease>, live: Seq<bool>) -> Seq<SourceLease>
    decreases leases.len(),
{
    if leases.len() == 0 {
        Seq::empty()
    } else {
        let earlier = live_leases(leases.drop_last(), live);
        if live[leases.len() - 1] {
            earlier.push(leases.last())
        } else {
            earlier
        }
    }
}

proof fn lemma_lease_map(leases: Seq<SourceLease>, key: SourceLockKey)
    requires
        distinct_keys(leases),
    ensures
        forall|i: int|
            0 <= i < leases.len() && (#[trigger] leases[i]).key == key ==> lease_map(
                leases,
            ).contains_pair(key, leases[i].lock),
        lease_map(leases).contains_key(key) ==> exists|i: int|
            0 <= i < leases.len() && (#[trigger] leases[i]).key == key,
    decreases leases.len(),
{
    if leases.len() > 0 {
        let earlier = leases.drop_last();
        assert forall|i: int, j: int| 0 <= i < j < earlier.len() implies (
        #[trigger] earlier[i]).key != (#[trigger] earlier[j]).key by {
            assert(leases[i].key != leases[j].key);
        }
        lemma_lease_map(earlier, key);
        assert forall|i: int|
            0 <= i < leases.len() && (#[trigger] leases[i]).key == key implies lease_map(
            leases,
        ).contains_pair(key, leases[i].lock) by {
            if i < earlier.len() {
                assert(earlier[i] == leases[i]);
                assert(leases[i].key != leases[leases.len() - 1].key);
            }
        }
        if lease_map(leases).contains_key(key) && key != leases.last().key {
            let i = choose|i: int| 0 <= i < earlier.len() && (#[trigger] earlier[i]).key == key;
            assert(leases[i].key == key);
        } else if key == leases.last().key {
            assert(leases[leases.len() - 1].key == key);
        }
    }
}

/// Whether a lease is among the leases and live.
pub open spec fn is_live(leases: Seq<SourceLease>, live: Seq<bool>, lease: SourceLease) -> bool {
    exists|i: int| 0 <= i < leases.len() && (#[trigger] leases[i]) == lease && live[i]
}

/// What [`live_leases`] keeps: leases that were there, and were live.
proof fn lemma_live_leases(leases: Seq<SourceLease>, live: Seq<bool>)
    requires
        leases.len() <= live.len(),
    ensures
        forall|k: int|
            0 <= k < live_leases(leases, live).len() ==> is_live(
                leases,
                live,
                #[trigger] live_leases(leases, live)[k],
            ),
        forall|i: int|
            0 <= i < leases.len() && live[i] ==> live_leases(leases, live).contains(
                #[trigger] leases[i],
            ),
        distinct_keys(leases) ==> distinct_keys(live_leases(leases, live)),
    decreases leases.len(),
{
    if leases.len() > 0 {
        let earlier = leases.drop_last();
        let last = leases.len() - 1;
        lemma_live_leases(earlier, live);
        let kept = live_leases(earlier, live);
        let all = live_leases(leases, live);
        assert forall|k: int| 0 <= k < all.len() implies is_live(
            leases,
            live,
            #[trigger] all[k],
        ) by {
            if k < kept.len() {
                assert(is_live(earlier, live, kept[k]));
                let i = choose|i: int|
                    0 <= i < earlier.len() && (#[trigger] earlier[i]) == kept[k] && live[i];
                assert(leases[i] == all[k] && live[i]);
            } else {
                assert(leases[last] == all[k] && live[last]);
            }
        }
        assert forall|i: int| 0 <= i < leases.len() && live[i] implies all.contains(
            #[trigger] leases[i],
        ) by {
            if i < last {
                assert(earlier[i] == leases[i]);
                assert(kept.contains(earlier[i]));
                let k = choose|k: int| 0 <= k < kept.len() && kept[k] == earlier[i];
                assert(all[k] == leases[i]);
            } else {
                assert(all[all.len() - 1] == leases[i]);
            }
        }
        if distinct_keys(leases) {
            assert forall|i: int, j: int| 0 <= i < j < earlier.len() implies (
            #[trigger] earlier[i]).key != (#[trigger] earlier[j]).key by {
                assert(leases[i].key != leases[j].key);
            }
            assert forall|i: int, j: int| 0 <= i < j < all.len() implies (
            #[trigger] all[i]).key != (#[trigger] all[j]).key by {
                if j < kept.len() {
                    assert(kept[i].key != kept[j].key);
                } else {
                    assert(is_live(earlier, live, kept[i]));
                    let k = choose|k: int|
                        0 <= k < earlier.len() && (#[trigger] earlier[k]) == kept[i] && live[k];
                    assert(leases[k].key != leases[last].key);
                }
            }
        }
    }
}

/// How the source of a thread is obtained for reading.
#[derive(Clone, Copy, Debug, PartialEq, Eq, Structural)]
pub enum SourceDecision {
    /// Share the lock that is held already.
    Share { lock: u64 },
    /// Acquire the writer lock of the thread, then publish it.
    Acquire,
}

/// How the source of a thread is obtained for reading when these locks stand for sources.
pub open spec fn source_decision(locks: Map<SourceLockKey, u64>, key: SourceLockKey) ->
    SourceDecision {
    if locks.contains_key(key) {
        SourceDecision::Share { lock: locks[key] }
    } else {
        SourceDecision::Acquire
    }
}

/// Whether a writer may acquire the lock of a thread when these locks stand for sources.
pub open spec fn owner_allowed(locks: Map<SourceLockKey, u64>, key: SourceLockKey) -> bool {
    !locks.contains_key(key)
}

/// A published lock is shared by every reader of the source and keeps other writers out.
pub proof fn law_published_lock_is_shared_not_owned(
    locks: Map<SourceLockKey, u64>,
    key: SourceLockKey,
    lock: u64,
)
    ensures
        source_decision(locks.insert(key, lock), key) == (SourceDecision::Share { lock }),
        !owner_allowed(locks.insert(key, lock), key),
{
}

/// A published lock concerns its thread in its home only: another thread, or the same thread in
/// another home, is as free or as taken as before.
pub proof fn law_locks_are_scoped_to_thread_and_home(
    locks: Map<SourceLockKey, u64>,
    key: SourceLockKey,
    lock: u64,
    other: SourceLockKey,
)
    requires
        other.home != key.home || other.thread_id != key.thread_id,
    ensures
        source_decision(locks.insert(key, lock), other) == source_decision(locks, other),
        owner_allowed(locks.insert(key, lock), other) == owner_allowed(locks, other),
{
}

/// A source whose lock is no longer held accepts a writer again.
pub proof fn law_released_source_accepts_a_writer(
    leases: Seq<SourceLease>,
    live: Seq<bool>,
    i: int,
)
    requires
        distinct_keys(leases),
        leases.len() == live.len(),
        0 <= i < leases.len(),
        !live[i],
    ensures
        owner_allowed(lease_map(live_leases(leases, live)), leases[i].key),
{
    lemma_live_leases(leases, live);
    let left = live_leases(leases, live);
    let key = leases[i].key;
    lemma_lease_map(left, key);
    if lease_map(left).contains_key(key) {
        let k = choose|k: int| 0 <= k < left.len() && (#[trigger] left[k]).key == key;
        assert(is_live(leases, live, left[k]));
        let j = choose|j: int| 0 <= j < leases.len() && (#[trigger] leases[j]) == left[k] && live[j];
        assert(j != i);
        assert(leases[j].key != leases[i].key);
    }
}

/// Which lock stands for the source of which thread.
#[derive(Debug)]
pub struct SourceLockRegistry {
    leases: Vec<SourceLease>,
}

impl View for SourceLockRegistry {
    type V = Map<SourceLockKey, u64>;

    closed spec fn view(&self) -> Map<SourceLockKey, u64> {
        lease_map(self.leases@)
    }
}

impl SourceLockRegistry {
    /// What every registry keeps.
    pub closed spec fn wf(&self) -> bool {
        distinct_keys(self.leases@)
    }

    /// The leases, in the order in which their liveness is asked for.
    pub closed spec fn sequence(&self) -> Seq<SourceLease> {
        self.leases@
    }

    /// A registry without leases.
    pub fn new() -> (registry: Self)
        ensures
            registry.wf(),
            registry@ == Map::<SourceLockKey, u64>::empty(),
    {
        SourceLockRegistry { leases: Vec::new() }
    }

    /// The leases, so that the liveness of each can be found out.
    pub fn leases(&self) -> (leases: &[SourceLease])
        requires
            self.wf(),
        ensures
            leases@ == self.sequence(),
            self@ == lease_map(leases@),
            distinct_keys(leases@),
    {
        self.leases.as_slice()
    }

    /// Forgets the leases whose locks are no longer held.
    pub fn retain(&mut self, live: &Vec<bool>)
        requires
            old(self).wf(),
            live@.len() == old(self).sequence().len(),
        ensures
            final(self).wf(),
            final(self).sequence() == live_leases(old(self).sequence(), live@),
            forall|key: SourceLockKey, lock: u64| #[trigger]
                final(self)@.contains_pair(key, lock) <==> is_live(
                    old(self).sequence(),
                    live@,
                    SourceLease { key, lock },
                ),
    {
        let ghost all = self.leases@;
        let mut kept: Vec<SourceLease> = Vec::new();
        let mut i: usize = 0;
        while i < self.leases.len()
            invariant
                i <= self.leases@.len(),
                self.leases@ == all,
                live@.len() == all.len(),
                kept@ == live_leases(all.take(i as int), live@),
            decreases self.leases@.len() - i,
        {
            assert(all.take(i + 1).drop_last() =~= all.take(i as int));
            if live[i] {
                kept.push(self.leases[i]);
            }
            i = i + 1;
        }
        assert(all.take(i as int) =~= all);
        self.leases = kept;
        proof {
            lemma_live_leases(all, live@);
            let left = self.leases@;
            assert forall|key: SourceLockKey, lock: u64| #[trigger]
                self@.contains_pair(key, lock) <==> is_live(
                    all,
                    live@,
                    SourceLease { key, lock },
                ) by {
                lemma_lease_map(left, key);
                let lease = SourceLease { key, lock };
                if self@.contains_pair(key, lock) {
                    let k = choose|k: int| 0 <= k < left.len() && (#[trigger] left[k]).key == key;
                    assert(lease_map(left).contains_pair(key, left[k].lock));
                    assert(left[k] == lease);
                    assert(is_live(all, live@, left[k]));
                }
                if is_live(all, live@, lease) {
                    let i = choose|i: int|
                        0 <= i < all.len() && (#[trigger] all[i]) == lease && live@[i];
                    assert(left.contains(all[i]));
                    let k = choose|k: int| 0 <= k < left.len() && left[k] == all[i];
                    assert(left[k].key == key);
                }
            }
        }
    }

    /// The lock that stands for the source of a thread.
    fn find(&self, key: SourceLockKey) -> (lock: Option<u64>)
        requires
            self.wf(),
        ensures
            match lock {
                Some(lock) => self@.contains_pair(key, lock),
                None => !self@.contains_key(key),
            },
    {
        let mut i: usize = 0;
        while i < self.leases.len()
            invariant
                i <= self.leases@.len(),
                self.wf(),
                forall|j: int| 0 <= j < i ==> (#[trigger] self.leases@[j]).key != key,
            decreases self.leases@.len() - i,
        {
            if self.leases[i].key == key {
                proof {
                    lemma_lease_map(self.leases@, key);
                    assert(self.leases@[i as int].key == key);
                }
                return Some(self.leases[i].lock);
            }
            i = i + 1;
        }
        proof {
            lemma_lease_map(self.leases@, key);
        }
        None
    }

    /// How to obtain the source of a thread for reading: share the lock that stands for it, or
    /// acquire one.
    pub fn acquire_source(&self, key: SourceLockKey) -> (decision: SourceDecision)
        requires
            self.wf(),
        ensures
            decision == source_decision(self@, key),
    {
        match self.find(key) {
            Some(lock) => SourceDecision::Share { lock },
            None => SourceDecision::Acquire,
        }
    }

    /// Whether a writer may acquire the lock of a thread: not while a lock stands for its source.
    pub fn acquire_registered_source_owner(&self, key: SourceLockKey) -> (decision:
        ThreadStoreResult<()>)
        requires
            self.wf(),
        ensures
            match decision {
                Ok(()) => owner_allowed(self@, key),
                Err(error) => !owner_allowed(self@, key) && error@ == (
                crate::error::ErrorView::Conflict {
                    message: "thread "@ + key.thread_id.text()
                        + " already has an active source lease"@,
                }),
            },
    {
        match self.find(key) {
            Some(_) => Err(
                ThreadStoreError::Conflict {
                    message: text::join3(
                        "thread ",
                        key.thread_id.to_text().as_str(),
                        " already has an active source lease",
                    ),
                },
            ),
            None => Ok(()),
        }
    }

    /// Lets a lock that was acquired stand for the source of a thread.
    pub fn publish(&mut self, key: SourceLockKey, lock: u64)
        requires
            old(self).wf(),
            !old(self)@.contains_key(key),
        ensures
            final(self).wf(),
            final(self)@ == old(self)@.insert(key, lock),
    {
        let ghost before = self.leases@;
        proof {
            lemma_lease_map(before, key);
        }
        self.leases.push(SourceLease { key, lock });
        proof {
            assert(self.leases@.drop_last() =~= before);
            assert forall|i: int, j: int| 0 <= i < j < self.leases@.len() implies (
            #[trigger] self.leases@[i]).key != (#[trigger] self.leases@[j]).key by {
                if j == before.len() {
                    assert(lease_map(before).contains_pair(before[i].key, before[i].lock)) by {
                        lemma_lease_map(before, before[i].key);
                    }
                }
            }
        }
    }
}

/// A lock that is held elsewhere is a conflict with the message of the lock; one that could not be
/// used is a failure of the store, which says which lock it was and then why.
pub proof fn law_lock_errors_are_told_apart(
    thread_id: ThreadId,
    error: WriterLockError,
    reported: ThreadStoreError,
    topology_reported: ThreadStoreError,
)
    requires
        call_ensures(acquire_error, (thread_id, error), reported),
        call_ensures(acquire_topology_error, (error,), topology_reported),
    ensures
        error matches WriterLockError::WouldBlock { message } ==> reported@ == (
        crate::error::ErrorView::Conflict { message: message@ }) && topology_reported@ == (
        crate::error::ErrorView::Conflict { message: message@ }),
        error matches WriterLockError::Failed { message } ==> reported@ == (
        crate::error::ErrorView::Internal {
            message: "failed to acquire thread writer lock for thread "@ + thread_id.text()
                + ": "@ + message@,
        }) && topology_reported@ == (crate::error::ErrorView::Internal {
            message: "failed to acquire rollout topology lock"@ + ": "@ + message@,
        }),
{
}

/// A registry starts without leases: each source has to be acquired, and each writer may own.
pub proof fn law_registries_start_without_leases(
    registry: SourceLockRegistry,
    key: SourceLockKey,
    decision: SourceDecision,
    owner: ThreadStoreResult<()>,
)
    requires
        call_ensures(SourceLockRegistry::new, (), registry),
        call_ensures(SourceLockRegistry::acquire_source, (&registry, key), decision),
        call_ensures(SourceLockRegistry::acquire_registered_source_owner, (&registry, key), owner),
    ensures
        decision is Acquire,
        owner is Ok,
{
}

/// A source is either shared and has no writer, or has to be acquired and may have one.
pub proof fn law_sources_are_shared_or_owned(
    registry: &SourceLockRegistry,
    key: SourceLockKey,
    decision: SourceDecision,
    owner: ThreadStoreResult<()>,
)
    requires
        registry.wf(),
        call_ensures(SourceLockRegistry::acquire_source, (registry, key), decision),
        call_ensures(SourceLockRegistry::acquire_registered_source_owner, (registry, key), owner),
    ensures
        decision is Share <==> owner is Err,
        owner matches Err(error) ==> error@ == (crate::error::ErrorView::Conflict {
            message: "thread "@ + key.thread_id.text() + " already has an active source lease"@,
        }),
{
}

/// Once a lock is published every reader of its source shares that very lock, and no writer gets
/// the thread; other threads, and the same thread in other homes, are as they were.
pub proof fn law_published_locks_are_found(
    registry: &mut SourceLockRegistry,
    key: SourceLockKey,
    lock: u64,
    other: SourceLockKey,
    decision: SourceDecision,
    owner: ThreadStoreResult<()>,
    other_before: SourceDecision,
    other_after: SourceDecision,
)
    requires
        old(registry).wf(),
        call_ensures(SourceLockRegistry::publish, (registry, key, lock), ()),
        call_ensures(SourceLockRegistry::acquire_source, (&*final(registry), key), decision),
        call_ensures(
            SourceLockRegistry::acquire_registered_source_owner,
            (&*final(registry), key),
            owner,
        ),
        other.home != key.home || other.thread_id.value != key.thread_id.value,
        call_ensures(SourceLockRegistry::acquire_source, (&*old(registry), other), other_before),
        call_ensures(SourceLockRegistry::acquire_source, (&*final(registry), other), other_after),
    ensures
        final(registry).wf(),
        decision == (SourceDecision::Share { lock }),
        owner is Err,
        other_before == other_after,
{
}

/// The leases name each source once, with the lock that its readers share; a source that they do
/// not name has to be acquired.
pub proof fn law_leases_are_what_is_shared(
    registry: &SourceLockRegistry,
    leases: &[SourceLease],
    i: int,
    j: int,
    key: SourceLockKey,
    decision: SourceDecision,
)
    requires
        registry.wf(),
        call_ensures(SourceLockRegistry::leases, (registry,), leases),
        0 <= i < leases@.len(),
        0 <= j < leases@.len(),
        call_ensures(SourceLockRegistry::acquire_source, (registry, key), decision),
    ensures
        leases@[i].key == leases@[j].key ==> i == j,
        leases@[i].key == key ==> decision == (SourceDecision::Share { lock: leases@[i].lock }),
        (forall|k: int| 0 <= k < leases@.len() ==> (#[trigger] leases@[k]).key != key)
            ==> decision is Acquire,
{
    lemma_lease_map(leases@, key);
    if i != j {
        assert(leases@[if i < j { i } else { j }].key != leases@[if i < j { j } else { i }].key);
    }
}

/// After the locks that are no longer held were forgotten, a source is shared, with its lock,
/// exactly if that lock is still held; a source that had none has none.
pub proof fn law_held_locks_stay(
    registry: &mut SourceLockRegistry,
    leases: &[SourceLease],
    live: &Vec<bool>,
    i: int,
    decision: SourceDecision,
    key: SourceLockKey,
    before: SourceDecision,
    after: SourceDecision,
)
    requires
        old(registry).wf(),
        call_ensures(SourceLockRegistry::leases, (&*old(registry),), leases),
        live@.len() == leases@.len(),
        call_ensures(SourceLockRegistry::retain, (registry, live), ()),
        0 <= i < leases@.len(),
        call_ensures(
            SourceLockRegistry::acquire_source,
            (&*final(registry), leases@[i].key),
            decision,
        ),
        call_ensures(SourceLockRegistry::acquire_source, (&*old(registry), key), before),
        call_ensures(SourceLockRegistry::acquire_source, (&*final(registry), key), after),
    ensures
        final(registry).wf(),
        live@[i] ==> decision == (SourceDecision::Share { lock: leases@[i].lock }),
        !live@[i] ==> decision is Acquire,
        before is Acquire ==> after is Acquire,
{
    let held = leases@[i];
    if live@[i] {
        assert(is_live(leases@, live@, SourceLease { key: held.key, lock: held.lock }));
        assert(final(registry)@.contains_pair(held.key, held.lock));
    } else if final(registry)@.contains_key(held.key) {
        let lock = final(registry)@[held.key];
        assert(final(registry)@.contains_pair(held.key, lock));
        assert(is_live(leases@, live@, SourceLease { key: held.key, lock }));
        let k = choose|k: int|
            0 <= k < leases@.len() && (#[trigger] leases@[k]) == (SourceLease {
                key: held.key,
                lock,
            }) && live@[k];
        assert(leases@[if i < k { i } else { k }].key != leases@[if i < k { k } else { i }].key);
    }
    if after is Share {
        let lock = final(registry)@[key];
        assert(final(registry)@.contains_pair(key, lock));
        assert(is_live(leases@, live@, SourceLease { key, lock }));
        lemma_lease_map(leases@, key);
    }
}

} // verus!
