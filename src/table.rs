//! The process table, kept in step with the live process listing.
use vstd::prelude::*;
use vstd::std_specs::hash::spec_keys_iter;
use vstd::std_specs::iter::IteratorSpec;
use std::collections::HashMap;
use crate::stat::{parse_stat, parse_stat_line, ProcessRecord, RecordView};

verus! {

/// One process of a fresh listing: its identifier, its raw stat line, and the
/// host's page size in bytes.
pub struct ListingEntry {
    pub pid: u32,
    pub stat_line: String,
    pub page_size: u64,
}

/// What the table holds after reconciling with `l`: each identifier whose stat
/// line parses, with its record; where an identifier is listed twice, its
/// later well-formed entry counts.
pub open spec fn expected(l: Seq<ListingEntry>) -> Map<u32, RecordView>
    decreases l.len(),
{
    if l.len() == 0 {
        Map::empty()
    } else {
        let m = expected(l.drop_last());
        let e = l.last();
        match parse_stat(e.stat_line@, e.page_size) {
            Some(r) => m.insert(e.pid, r),
            None => m,
        }
    }
}

/// The identifiers of a listing whose stat lines parse.
pub open spec fn well_formed_ids(l: Seq<ListingEntry>) -> Set<u32> {
    Set::new(|p: u32| exists|i: int| 0 <= i < l.len() && l[i].pid == p
        && (#[trigger] parse_stat(l[i].stat_line@, l[i].page_size)) is Some)
}

/// The identifiers of a listing.
pub open spec fn listed_ids(l: Seq<ListingEntry>) -> Set<u32> {
    Set::new(|p: u32| exists|i: int| 0 <= i < l.len() && (#[trigger] l[i]).pid == p)
}

/// The table `t` after one reconciliation with `l`: every well-formed entry
/// upserted, then every identifier that the listing does not name evicted.
pub open spec fn reconciled(t: Map<u32, RecordView>, l: Seq<ListingEntry>) -> Map<u32, RecordView> {
    t.union_prefer_right(expected(l)).restrict(listed_ids(l))
}

/// The identifiers that the upserts of `l` touch are those of its
/// well-formed entries.
pub proof fn lemma_expected_dom(l: Seq<ListingEntry>)
    ensures
        expected(l).dom() == well_formed_ids(l),
    decreases l.len(),
{
    if l.len() > 0 {
        let d = l.drop_last();
        lemma_expected_dom(d);
        assert forall|p: u32| #[trigger] expected(l).dom().contains(p) <==> well_formed_ids(l).contains(p) by {
            if expected(d).dom().contains(p) {
                let i = choose|i: int| 0 <= i < d.len() && d[i].pid == p
                    && (#[trigger] parse_stat(d[i].stat_line@, d[i].page_size)) is Some;
                assert(l[i] == d[i]);
            }
            if well_formed_ids(l).contains(p) {
                let i = choose|i: int| 0 <= i < l.len() && l[i].pid == p
                    && (#[trigger] parse_stat(l[i].stat_line@, l[i].page_size)) is Some;
                if i < d.len() {
                    assert(l[i] == d[i]);
                    assert(well_formed_ids(d).contains(p));
                }
            }
        }
        assert(expected(l).dom() =~= well_formed_ids(l));
    } else {
        assert(well_formed_ids(l) =~= Set::empty());
    }
}

/// Reconciling twice in a row with the same listing gives what once gives.
pub proof fn lemma_reconcile_idempotent(t: Map<u32, RecordView>, l: Seq<ListingEntry>)
    ensures
        reconciled(reconciled(t, l), l) == reconciled(t, l),
{
    assert(reconciled(reconciled(t, l), l) =~= reconciled(t, l));
}

/// After reconciling, the table holds only identifiers that the listing
/// names; where every entry is well-formed, exactly those.
pub proof fn lemma_reconcile_evicts(t: Map<u32, RecordView>, l: Seq<ListingEntry>)
    ensures
        reconciled(t, l).dom().subset_of(listed_ids(l)),
        (forall|i: int| 0 <= i < l.len() ==> (#[trigger] parse_stat(l[i].stat_line@, l[i].page_size)) is Some)
            ==> reconciled(t, l).dom() == listed_ids(l),
{
    lemma_expected_dom(l);
    if forall|i: int| 0 <= i < l.len() ==> (#[trigger] parse_stat(l[i].stat_line@, l[i].page_size)) is Some {
        assert forall|p: u32| #[trigger] listed_ids(l).contains(p) implies expected(l).contains_key(p) by {
            let i = choose|i: int| 0 <= i < l.len() && (#[trigger] l[i]).pid == p;
            assert(parse_stat(l[i].stat_line@, l[i].page_size) is Some);
            assert(well_formed_ids(l).contains(p));
        }
        assert(reconciled(t, l).dom() =~= listed_ids(l));
    }
}

/// A process that the table holds and the listing names again in its last
/// entry for it, well-formed, keeps its place under its identifier, with the
/// values of that entry.
pub proof fn lemma_reconcile_upserts(t: Map<u32, RecordView>, l: Seq<ListingEntry>, i: int)
    requires
        0 <= i < l.len(),
        parse_stat(l[i].stat_line@, l[i].page_size) is Some,
        forall|j: int| i < j < l.len() ==> (#[trigger] l[j]).pid != l[i].pid,
    ensures
        reconciled(t, l).contains_key(l[i].pid),
        Some(reconciled(t, l)[l[i].pid]) == parse_stat(l[i].stat_line@, l[i].page_size),
{
    lemma_expected_last(l, i);
    assert(listed_ids(l).contains(l[i].pid));
}

proof fn lemma_expected_last(l: Seq<ListingEntry>, i: int)
    requires
        0 <= i < l.len(),
        parse_stat(l[i].stat_line@, l[i].page_size) is Some,
        forall|j: int| i < j < l.len() ==> (#[trigger] l[j]).pid != l[i].pid,
    ensures
        expected(l).contains_key(l[i].pid),
        Some(expected(l)[l[i].pid]) == parse_stat(l[i].stat_line@, l[i].page_size),
    decreases l.len(),
{
    let d = l.drop_last();
    if i < l.len() - 1 {
        assert(d[i] == l[i]);
        assert forall|j: int| i < j < d.len() implies (#[trigger] d[j]).pid != d[i].pid by {
            assert(d[j] == l[j]);
        }
        lemma_expected_last(d, i);
        assert(l[l.len() - 1].pid != l[i].pid);
    }
}

/// A malformed entry does not hold back the others: for every other
/// identifier, the table comes out as it would without that entry.
pub proof fn lemma_malformed_entry_ignored(t: Map<u32, RecordView>, l: Seq<ListingEntry>, i: int, k: u32)
    requires
        0 <= i < l.len(),
        parse_stat(l[i].stat_line@, l[i].page_size) is None,
        k != l[i].pid,
    ensures
        reconciled(t, l).contains_key(k) == reconciled(t, l.remove(i)).contains_key(k),
        reconciled(t, l).contains_key(k) ==> reconciled(t, l)[k] == reconciled(t, l.remove(i))[k],
{
    lemma_expected_skip(l, i);
    let r = l.remove(i);
    if listed_ids(l).contains(k) {
        let j = choose|j: int| 0 <= j < l.len() && (#[trigger] l[j]).pid == k;
        let j2 = if j < i { j } else { j - 1 };
        assert(r[j2] == l[j]);
        assert(listed_ids(r).contains(k));
    }
    if listed_ids(r).contains(k) {
        let j = choose|j: int| 0 <= j < r.len() && (#[trigger] r[j]).pid == k;
        let j2 = if j < i { j } else { j + 1 };
        assert(r[j] == l[j2]);
        assert(listed_ids(l).contains(k));
    }
}

proof fn lemma_expected_skip(l: Seq<ListingEntry>, i: int)
    requires
        0 <= i < l.len(),
        parse_stat(l[i].stat_line@, l[i].page_size) is None,
    ensures
        expected(l) == expected(l.remove(i)),
    decreases l.len(),
{
    let d = l.drop_last();
    if i == l.len() - 1 {
        assert(l.remove(i) =~= d);
    } else {
        assert(d[i] == l[i]);
        lemma_expected_skip(d, i);
        assert(l.remove(i).drop_last() =~= d.remove(i));
        assert(l.remove(i).last() == l.last());
    }
}

/// What a map of records shows: each record by its view.
pub open spec fn records_view(m: Map<u32, ProcessRecord>) -> Map<u32, RecordView> {
    m.map_values(|r: ProcessRecord| r@)
}

/// A table of processes keyed by identifier.
pub struct ProcessTable {
    map: HashMap<u32, ProcessRecord>,
}

impl View for ProcessTable {
    type V = Map<u32, RecordView>;

    closed spec fn view(&self) -> Map<u32, RecordView> {
        records_view(self.map@)
    }
}

impl ProcessTable {
    pub fn new() -> (r: ProcessTable)
        ensures
            r@ == Map::<u32, RecordView>::empty(),
    {
        let map: HashMap<u32, ProcessRecord> = HashMap::new();
        assert(records_view(map@) =~= Map::<u32, RecordView>::empty());
        ProcessTable { map }
    }

    /// Number of processes in the table.
    pub fn len(&self) -> (r: usize)
        ensures
            r == self@.dom().len(),
    {
        broadcast use vstd::std_specs::hash::group_hash_axioms;
        assert(records_view(self.map@).dom() =~= self.map@.dom());
        self.map.len()
    }

    /// The record of `pid`, if the table has one.
    pub fn get(&self, pid: u32) -> (r: Option<&ProcessRecord>)
        ensures
            match r {
                Some(x) => self@.contains_key(pid) && self@[pid] == x@,
                None => !self@.contains_key(pid),
            },
    {
        broadcast use vstd::std_specs::hash::group_hash_axioms;
        self.map.get(&pid)
    }

    /// The identifiers and records of the table.
    pub fn records(&self) -> (r: &HashMap<u32, ProcessRecord>)
        ensures
            records_view(r@) == self@,
    {
        &self.map
    }

    /// Overwrites the record of `pid` in place where it has one, else adds it.
    pub fn upsert(&mut self, pid: u32, record: ProcessRecord)
        ensures
            final(self)@ == old(self)@.insert(pid, record@),
    {
        broadcast use vstd::std_specs::hash::group_hash_axioms;
        let ghost m0 = self.map@;
        let ghost rv = record@;
        self.map.insert(pid, record);
        assert(records_view(self.map@) =~= records_view(m0).insert(pid, rv));
    }

    /// The identifiers of the table that are not in `live`.
    fn stale_ids(&self, live: &Vec<u32>) -> (r: Vec<u32>)
        ensures
            forall|k: u32| r@.contains(k) <==> self.map@.contains_key(k) && !live@.contains(k),
    {
        broadcast use vstd::std_specs::hash::group_hash_axioms;
        let ghost ks = spec_keys_iter(&self.map).remaining();
        assert(ks.unref().to_set() == self.map@.dom());
        let mut r: Vec<u32> = Vec::new();
        for k in it: self.map.keys()
            invariant
                it.seq() == ks,
                ks.unref().to_set() == self.map@.dom(),
                forall|x: u32|
                    r@.contains(x) <==> (exists|j: int| 0 <= j < it.index() && *ks[j] == x)
                        && !live@.contains(x),
        {
            let ghost r0 = r@;
            if !contains_id(live, *k) {
                r.push(*k);
            }
            assert forall|x: u32|
                r@.contains(x) <==> (exists|j: int| 0 <= j < it.index() + 1 && *ks[j] == x)
                    && !live@.contains(x) by {
                if r@.contains(x) && x != *k {
                    let a = choose|a: int| 0 <= a < r@.len() && r@[a] == x;
                    assert(r0[a] == x);
                }
                if (exists|j: int| 0 <= j < it.index() + 1 && *ks[j] == x) && !live@.contains(x)
                    && x != *k {
                    let j = choose|j: int| 0 <= j < it.index() + 1 && *ks[j] == x;
                    assert(j != it.index());
                    assert(r0.contains(x));
                    let a = choose|a: int| 0 <= a < r0.len() && r0[a] == x;
                    assert(r@[a] == x);
                }
                if x == *k && !live@.contains(x) {
                    assert(r@[r@.len() - 1] == x);
                }
            }
        }
        assert forall|j: int| 0 <= j < ks.len() implies self.map@.contains_key(*ks[j]) by {
            assert(ks.unref()[j] == *ks[j]);
            assert(ks.unref().to_set().contains(*ks[j]));
        }
        assert forall|x: u32| self.map@.contains_key(x) implies (exists|j: int|
            0 <= j < ks.len() && *ks[j] == x) by {
            assert(ks.unref().to_set().contains(x));
            let j = choose|j: int| 0 <= j < ks.unref().len() && ks.unref()[j] == x;
            assert(*ks[j] == x);
        }
        r
    }

    /// Removes every record whose identifier is not in `live`.
    pub fn retain_live(&mut self, live: &Vec<u32>)
        ensures
            final(self)@ == old(self)@.restrict(live@.to_set()),
    {
        broadcast use vstd::std_specs::hash::group_hash_axioms;
        let ghost m0 = self.map@;
        let stale = self.stale_ids(live);
        let mut i: usize = 0;
        while i < stale.len()
            invariant
                i <= stale@.len(),
                forall|k: u32| stale@.contains(k) <==> m0.contains_key(k) && !live@.contains(k),
                forall|k: u32|
                    #[trigger] self.map@.contains_key(k) <==> m0.contains_key(k) && !(exists|j: int|
                        0 <= j < i && stale@[j] == k),
                forall|k: u32| #[trigger] self.map@.contains_key(k) ==> self.map@[k] == m0[k],
            decreases stale@.len() - i,
        {
            let k = stale[i];
            self.map.remove(&k);
            assert forall|x: u32| #[trigger] self.map@.contains_key(x) <==> m0.contains_key(x)
                && !(exists|j: int| 0 <= j < i + 1 && stale@[j] == x) by {
                if x != k && exists|j: int| 0 <= j < i + 1 && stale@[j] == x {
                    let j = choose|j: int| 0 <= j < i + 1 && stale@[j] == x;
                    assert(j != i);
                }
            }
            i = i + 1;
        }
        assert forall|k: u32| #[trigger] self.map@.contains_key(k) <==> m0.contains_key(k)
            && live@.contains(k) by {
            if m0.contains_key(k) && !live@.contains(k) {
                assert(stale@.contains(k));
                let j = choose|j: int| 0 <= j < stale@.len() && stale@[j] == k;
            }
            if exists|j: int| 0 <= j < stale@.len() && stale@[j] == k {
                let j = choose|j: int| 0 <= j < stale@.len() && stale@[j] == k;
                assert(stale@.contains(k));
            }
        }
        assert(records_view(self.map@) =~= records_view(m0).restrict(live@.to_set()));
    }

    /// Brings the table in step with a fresh listing: the record of each
    /// listed process whose stat line parses is overwritten where it is
    /// present and added where it is not; then every process that the
    /// listing does not name is removed. A process listed only with a
    /// malformed line keeps its earlier record, if it had one.
    pub fn reconcile(&mut self, listing: &Vec<ListingEntry>)
        ensures
            final(self)@ == reconciled(old(self)@, listing@),
    {
        let ghost m0 = self@;
        let mut live: Vec<u32> = Vec::new();
        let mut j: usize = 0;
        while j < listing.len()
            invariant
                j <= listing@.len(),
                self@ == m0.union_prefer_right(expected(listing@.subrange(0, j as int))),
                live@.to_set() == listed_ids(listing@.subrange(0, j as int)),
            decreases listing@.len() - j,
        {
            let e = &listing[j];
            let ghost p = listing@.subrange(0, j as int);
            let ghost q = listing@.subrange(0, j + 1);
            assert(q.drop_last() =~= p);
            assert(q.last() == *e);
            let ghost live0 = live@;
            live.push(e.pid);
            assert(live@.to_set() =~= listed_ids(q)) by {
                assert forall|k: u32| live@.to_set().contains(k) <==> #[trigger] listed_ids(q).contains(k) by {
                    if live@.contains(k) && k != e.pid {
                        let a = choose|a: int| 0 <= a < live@.len() && live@[a] == k;
                        assert(live0[a] == k);
                        assert(live0.to_set().contains(k));
                        let b = choose|b: int| 0 <= b < p.len() && (#[trigger] p[b]).pid == k;
                        assert(q[b] == p[b]);
                    }
                    if listed_ids(q).contains(k) && k != e.pid {
                        let b = choose|b: int| 0 <= b < q.len() && (#[trigger] q[b]).pid == k;
                        assert(b < p.len());
                        assert(p[b] == q[b]);
                        assert(listed_ids(p).contains(k));
                        assert(live0.to_set().contains(k));
                        let a = choose|a: int| 0 <= a < live0.len() && live0[a] == k;
                        assert(live@[a] == k);
                    }
                    if k == e.pid {
                        assert(live@[live@.len() - 1] == k);
                        assert(q[j as int].pid == k);
                    }
                }
            }
            match parse_stat_line(e.stat_line.as_str(), e.page_size) {
                Some(r) => {
                    self.upsert(e.pid, r);
                    assert(self@ =~= m0.union_prefer_right(expected(q)));
                },
                None => {},
            }
            j = j + 1;
        }
        assert(listing@.subrange(0, listing@.len() as int) =~= listing@);
        self.retain_live(&live);
        assert(self@ =~= reconciled(m0, listing@));
    }
}

/// Whether `pid` is among `ids`.
pub fn contains_id(ids: &Vec<u32>, pid: u32) -> (r: bool)
    ensures
        r == ids@.contains(pid),
{
    let mut i: usize = 0;
    while i < ids.len()
        invariant
            i <= ids@.len(),
            forall|j: int| 0 <= j < i ==> ids@[j] != pid,
        decreases ids@.len() - i,
    {
        if ids[i] == pid {
            return true;
        }
        i = i + 1;
    }
    false
}

} // verus!
