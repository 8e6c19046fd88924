//! Probes that wait for their answers.

use crate::address::SocketAddress;
use crate::bytes::bytes_equal;
use crate::protocol::TransactionId;
use vstd::prelude::*;

verus! {

/// How long a probe waits for its answer, in nanoseconds.
pub const PROBE_LIFETIME: u64 = 4_000_000_000;

/// What a probe was sent for.
#[derive(Clone, Copy, Debug, PartialEq, Eq, Structural)]
pub enum ProbePurpose {
    Connectivity,
    Consent,
    ManualPing,
}

/// A probe on its way.
#[derive(Clone, Copy, Debug, PartialEq, Eq, Structural)]
pub struct PendingProbe {
    pub target: SocketAddress,
    pub sent_at: u64,
    pub purpose: ProbePurpose,
}

/// The time from `then` to `now`, zero where `then` is the later one.
pub open spec fn since(now: u64, then: u64) -> u64 {
    if now >= then {
        (now - then) as u64
    } else {
        0
    }
}

pub fn elapsed(now: u64, then: u64) -> (d: u64)
    ensures
        d == since(now, then),
{
    if now >= then {
        now - then
    } else {
        0
    }
}

/// The probes that have not waited for their whole lifetime yet.
pub open spec fn recent(probes: Map<Seq<u8>, PendingProbe>, now: u64) -> Map<
    Seq<u8>,
    PendingProbe,
> {
    Map::new(
        |id: Seq<u8>|
            probes.contains_key(id) && since(now, probes[id].sent_at) < PROBE_LIFETIME,
        |id: Seq<u8>| probes[id],
    )
}

/// The probes that wait, each under its own transaction identifier.
pub struct PendingProbes {
    entries: Vec<(TransactionId, PendingProbe)>,
}

spec fn map_of(entries: Seq<(TransactionId, PendingProbe)>) -> Map<Seq<u8>, PendingProbe>
    decreases entries.len(),
{
    if entries.len() == 0 {
        Map::empty()
    } else {
        map_of(entries.drop_last()).insert(entries.last().0@, entries.last().1)
    }
}

spec fn distinct(entries: Seq<(TransactionId, PendingProbe)>) -> bool
    decreases entries.len(),
{
    entries.len() > 0 ==> distinct(entries.drop_last()) && !map_of(
        entries.drop_last(),
    ).contains_key(entries.last().0@)
}

proof fn lemma_len(entries: Seq<(TransactionId, PendingProbe)>)
    requires
        distinct(entries),
    ensures
        map_of(entries).dom().finite(),
        map_of(entries).len() == entries.len(),
    decreases entries.len(),
{
    if entries.len() > 0 {
        lemma_len(entries.drop_last());
    }
}

/// A prefix is distinct too, and what it holds the whole holds.
proof fn lemma_prefix(entries: Seq<(TransactionId, PendingProbe)>, n: int)
    requires
        distinct(entries),
        0 <= n <= entries.len(),
    ensures
        distinct(entries.take(n)),
        map_of(entries.take(n)).submap_of(map_of(entries)),
    decreases entries.len(),
{
    if n < entries.len() {
        lemma_prefix(entries.drop_last(), n);
        assert(entries.drop_last().take(n) =~= entries.take(n));
    } else {
        assert(entries.take(n) =~= entries);
    }
}

/// A prefix that is one entry longer holds that entry besides.
proof fn lemma_extend(entries: Seq<(TransactionId, PendingProbe)>, n: int)
    requires
        distinct(entries),
        0 <= n < entries.len(),
    ensures
        map_of(entries.take(n + 1)) == map_of(entries.take(n)).insert(entries[n].0@, entries[n].1),
        !map_of(entries.take(n)).contains_key(entries[n].0@),
{
    lemma_prefix(entries, n + 1);
    assert(entries.take(n + 1).drop_last() =~= entries.take(n));
}

proof fn lemma_push(
    entries: Seq<(TransactionId, PendingProbe)>,
    id: TransactionId,
    probe: PendingProbe,
)
    ensures
        map_of(entries.push((id, probe))) == map_of(entries).insert(id@, probe),
        distinct(entries) && !map_of(entries).contains_key(id@) ==> distinct(
            entries.push((id, probe)),
        ),
{
    assert(entries.push((id, probe)).drop_last() =~= entries);
}

impl View for PendingProbes {
    type V = Map<Seq<u8>, PendingProbe>;

    closed spec fn view(&self) -> Map<Seq<u8>, PendingProbe> {
        map_of(self.entries@)
    }
}

impl PendingProbes {
    /// No two probes share a transaction identifier.
    pub closed spec fn wf(&self) -> bool {
        distinct(self.entries@)
    }

    pub fn new() -> (probes: PendingProbes)
        ensures
            probes.wf(),
            probes@ == Map::<Seq<u8>, PendingProbe>::empty(),
    {
        PendingProbes { entries: Vec::new() }
    }

    pub fn len(&self) -> (n: usize)
        requires
            self.wf(),
        ensures
            n == self@.len(),
    {
        proof {
            lemma_len(self.entries@);
        }
        self.entries.len()
    }

    pub fn get(&self, id: &TransactionId) -> (r: Option<PendingProbe>)
        requires
            self.wf(),
        ensures
            r == self@.get(id@),
    {
        let mut i: usize = 0;
        while i < self.entries.len()
            invariant
                self.wf(),
                i <= self.entries@.len(),
                !map_of(self.entries@.take(i as int)).contains_key(id@),
            decreases self.entries@.len() - i,
        {
            let entry: (TransactionId, PendingProbe) = self.entries[i];
            proof {
                lemma_extend(self.entries@, i as int);
            }
            if bytes_equal(entry.0.as_slice(), id.as_slice()) {
                proof {
                    lemma_prefix(self.entries@, i + 1);
                    let part = map_of(self.entries@.take(i + 1));
                    assert(part.contains_key(id@));
                    assert(part[id@] == entry.1);
                    assert(self@.contains_key(id@) && self@[id@] == entry.1);
                }
                return Some(entry.1);
            }
            i += 1;
        }
        assert(self.entries@.take(i as int) =~= self.entries@);
        None
    }

    /// Takes the probe with this transaction identifier out.
    pub fn remove(&mut self, id: &TransactionId)
        requires
            old(self).wf(),
        ensures
            final(self).wf(),
            final(self)@ == old(self)@.remove(id@),
    {
        let mut kept: Vec<(TransactionId, PendingProbe)> = Vec::new();
        let mut i: usize = 0;
        let ghost all = self.entries@;
        assert(map_of(all.take(0)).remove(id@) =~= Map::empty());
        while i < self.entries.len()
            invariant
                self.entries@ == all,
                distinct(all),
                i <= all.len(),
                distinct(kept@),
                map_of(kept@) == map_of(all.take(i as int)).remove(id@),
            decreases all.len() - i,
        {
            let entry: (TransactionId, PendingProbe) = self.entries[i];
            proof {
                lemma_extend(all, i as int);
                lemma_push(kept@, entry.0, entry.1);
            }
            let ghost before = map_of(all.take(i as int));
            if bytes_equal(entry.0.as_slice(), id.as_slice()) {
                assert(before.insert(entry.0@, entry.1).remove(id@) =~= before.remove(id@));
            } else {
                kept.push(entry);
                assert(before.insert(entry.0@, entry.1).remove(id@) =~= before.remove(id@).insert(
                    entry.0@,
                    entry.1,
                ));
            }
            i += 1;
        }
        assert(all.take(i as int) =~= all);
        self.entries = kept;
    }

    /// Enters a probe; it replaces an earlier one with the same identifier.
    pub fn insert(&mut self, id: TransactionId, probe: PendingProbe)
        requires
            old(self).wf(),
        ensures
            final(self).wf(),
            final(self)@ == old(self)@.insert(id@, probe),
    {
        let ghost before = self@;
        self.remove(&id);
        proof {
            lemma_push(self.entries@, id, probe);
            assert(before.remove(id@).insert(id@, probe) =~= before.insert(id@, probe));
        }
        self.entries.push((id, probe));
    }

    /// Drops the probes that have waited for their whole lifetime.
    pub fn retain_recent(&mut self, now: u64)
        requires
            old(self).wf(),
        ensures
            final(self).wf(),
            final(self)@ == recent(old(self)@, now),
    {
        let mut kept: Vec<(TransactionId, PendingProbe)> = Vec::new();
        let mut i: usize = 0;
        let ghost all = self.entries@;
        assert(recent(map_of(all.take(0)), now) =~= Map::empty());
        while i < self.entries.len()
            invariant
                self.entries@ == all,
                distinct(all),
                i <= all.len(),
                distinct(kept@),
                map_of(kept@) == recent(map_of(all.take(i as int)), now),
            decreases all.len() - i,
        {
            let entry: (TransactionId, PendingProbe) = self.entries[i];
            proof {
                lemma_extend(all, i as int);
                lemma_push(kept@, entry.0, entry.1);
            }
            let ghost before = map_of(all.take(i as int));
            if elapsed(now, entry.1.sent_at) < PROBE_LIFETIME {
                kept.push(entry);
                assert(recent(before.insert(entry.0@, entry.1), now) =~= recent(
                    before,
                    now,
                ).insert(entry.0@, entry.1));
            } else {
                assert(recent(before.insert(entry.0@, entry.1), now) =~= recent(before, now));
            }
            i += 1;
        }
        assert(all.take(i as int) =~= all);
        self.entries = kept;
    }
}

} // verus!
