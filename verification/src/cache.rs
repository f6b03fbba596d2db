//! The aggregator's cache: for each host its latest device tree, kept for a
//! fixed time after the host was last heard of.
//!
//! The cache has no clock of its own. Every operation that depends on the
//! time takes the current time, in seconds on a clock that never runs
//! backwards.

use crate::devices::{alike, Device, DeviceView};
use vstd::prelude::*;
use vstd::string::*;

verus! {

/// How long an entry stays after its host was last heard of, in seconds.
pub const TTL_SECS: u64 = 30;

/// What the cache holds for one host.
pub struct Entry {
    host: String,
    expires: u64,
    device: Device,
}

/// The mathematical value of an entry: the time at which it expires, and
/// the device tree.
pub ghost struct EntryView {
    pub expires: u64,
    pub device: DeviceView,
}

/// Holds an in-memory cache of device trees, one for each host. An entry
/// expires `TTL_SECS` after it was last written or reset.
pub struct Cache {
    entries: Vec<Entry>,
}

/// The time at which an entry written at `now` expires.
pub open spec fn expiry(now: u64) -> u64 {
    if now + TTL_SECS <= u64::MAX {
        (now + TTL_SECS) as u64
    } else {
        u64::MAX
    }
}

spec fn distinct_hosts(s: Seq<Entry>) -> bool {
    forall|i: int, j: int| 0 <= i < j < s.len() ==> (#[trigger] s[i]).host@ != (#[trigger] s[j]).host@
}

spec fn has_host(s: Seq<Entry>, k: Seq<char>) -> bool {
    exists|i: int| 0 <= i < s.len() && (#[trigger] s[i]).host@ == k
}

spec fn entry_view(e: Entry) -> EntryView {
    EntryView { expires: e.expires, device: e.device@ }
}

spec fn as_map(s: Seq<Entry>) -> Map<Seq<char>, EntryView> {
    Map::new(
        |k: Seq<char>| has_host(s, k),
        |k: Seq<char>| entry_view(s[choose|i: int| 0 <= i < s.len() && (#[trigger] s[i]).host@ == k]),
    )
}

proof fn lemma_as_map_at(s: Seq<Entry>, i: int)
    requires
        distinct_hosts(s),
        0 <= i < s.len(),
    ensures
        as_map(s).contains_key(s[i].host@),
        as_map(s)[s[i].host@] == entry_view(s[i]),
{
    let k = s[i].host@;
    let j = choose|j: int| 0 <= j < s.len() && (#[trigger] s[j]).host@ == k;
    if j < i {
        assert(s[j].host@ != s[i].host@);
    } else if i < j {
        assert(s[i].host@ != s[j].host@);
    }
}

/// Two lists of entries with different hosts each, that hold the same
/// hosts with the same values, are the same map.
proof fn lemma_as_map_is(s: Seq<Entry>, m: Map<Seq<char>, EntryView>)
    requires
        distinct_hosts(s),
        forall|i: int|
            0 <= i < s.len() ==> m.contains_key((#[trigger] s[i]).host@) && m[s[i].host@]
                == entry_view(s[i]),
        forall|k: Seq<char>| m.contains_key(k) ==> has_host(s, k),
    ensures
        as_map(s) == m,
{
    assert forall|k: Seq<char>| as_map(s).contains_key(k) <==> m.contains_key(k) by {
        if has_host(s, k) {
            let i = choose|i: int| 0 <= i < s.len() && (#[trigger] s[i]).host@ == k;
            assert(m.contains_key(s[i].host@));
        }
    }
    assert forall|k: Seq<char>| #[trigger] as_map(s).contains_key(k) implies as_map(s)[k]
        == m[k] by {
        let i = choose|i: int| 0 <= i < s.len() && (#[trigger] s[i]).host@ == k;
        lemma_as_map_at(s, i);
        assert(m[s[i].host@] == entry_view(s[i]));
    }
    assert(as_map(s) =~= m);
}

impl View for Cache {
    type V = Map<Seq<char>, EntryView>;

    closed spec fn view(&self) -> Map<Seq<char>, EntryView> {
        as_map(self.entries@)
    }
}

/// The time at which an entry written at `now` expires.
fn expiry_at(now: u64) -> (r: u64)
    ensures
        r == expiry(now),
{
    if now <= u64::MAX - TTL_SECS {
        now + TTL_SECS
    } else {
        u64::MAX
    }
}

impl Cache {
    #[verifier::type_invariant]
    spec fn inv(self) -> bool {
        distinct_hosts(self.entries@)
    }

    /// An empty cache.
    pub fn new() -> (c: Cache)
        ensures
            c@ == Map::<Seq<char>, EntryView>::empty(),
    {
        let c = Cache { entries: Vec::new() };
        assert(c@ =~= Map::<Seq<char>, EntryView>::empty());
        c
    }

    /// The place of the entry of a host.
    fn find(&self, host: &String) -> (r: Option<usize>)
        ensures
            r is Some ==> r->0 < self.entries.len() && self.entries[r->0 as int].host@ == host@,
            r is None ==> !has_host(self.entries@, host@),
    {
        let mut i: usize = 0;
        while i < self.entries.len()
            invariant
                i <= self.entries.len(),
                forall|j: int| 0 <= j < i ==> (#[trigger] self.entries[j]).host@ != host@,
            decreases self.entries.len() - i,
        {
            if self.entries[i].host == *host {
                return Some(i);
            }
            i += 1;
        }
        None
    }

    /// Inserts or updates the tree of a host. Either way the entry then
    /// expires `TTL_SECS` after `now`.
    pub fn upsert(&mut self, host: &str, state: Device, now: u64)
        ensures
            final(self)@ == old(self)@.insert(
                host@,
                EntryView { expires: expiry(now), device: state@ },
            ),
    {
        proof {
            use_type_invariant(&*self);
        }
        let ghost before = self.entries@;
        let ghost target = as_map(before).insert(
            host@,
            EntryView { expires: expiry(now), device: state@ },
        );
        let name = host.to_owned();
        let entry = Entry { host: host.to_owned(), expires: expiry_at(now), device: state };
        let ghost ev = entry_view(entry);
        let found = self.find(&name);
        let mut taken: Vec<Entry> = Vec::new();
        core::mem::swap(&mut taken, &mut self.entries);
        match found {
            Some(i) => {
                taken.set(i, entry);
                proof {
                    let after = taken@;
                    assert(distinct_hosts(after)) by {
                        assert forall|a: int, b: int| 0 <= a < b < after.len() implies (
                        #[trigger] after[a]).host@ != (#[trigger] after[b]).host@ by {
                            assert(before[a].host@ != before[b].host@);
                        }
                    }
                    assert forall|j: int| 0 <= j < after.len() implies target.contains_key(
                        (#[trigger] after[j]).host@,
                    ) && target[after[j].host@] == entry_view(after[j]) by {
                        if j != i {
                            lemma_as_map_at(before, j);
                            assert(before[j].host@ != before[i as int].host@);
                        }
                    }
                    assert forall|k: Seq<char>| target.contains_key(k) implies has_host(after, k) by {
                        if k == host@ {
                            assert(after[i as int].host@ == k);
                        } else {
                            let j = choose|j: int|
                                0 <= j < before.len() && (#[trigger] before[j]).host@ == k;
                            assert(after[j].host@ == k);
                        }
                    }
                    lemma_as_map_is(after, target);
                }
            },
            None => {
                taken.push(entry);
                proof {
                    let after = taken@;
                    assert(distinct_hosts(after)) by {
                        assert forall|a: int, b: int| 0 <= a < b < after.len() implies (
                        #[trigger] after[a]).host@ != (#[trigger] after[b]).host@ by {
                            if b < before.len() {
                                assert(before[a].host@ != before[b].host@);
                            } else {
                                assert(before[a].host@ != host@);
                            }
                        }
                    }
                    assert forall|j: int| 0 <= j < after.len() implies target.contains_key(
                        (#[trigger] after[j]).host@,
                    ) && target[after[j].host@] == entry_view(after[j]) by {
                        if j < before.len() {
                            lemma_as_map_at(before, j);
                            assert(before[j].host@ != host@);
                        }
                    }
                    assert forall|k: Seq<char>| target.contains_key(k) implies has_host(after, k) by {
                        if k == host@ {
                            assert(after[before.len() as int].host@ == k);
                        } else {
                            let j = choose|j: int|
                                0 <= j < before.len() && (#[trigger] before[j]).host@ == k;
                            assert(after[j].host@ == k);
                        }
                    }
                    lemma_as_map_is(after, target);
                }
            },
        }
        self.entries = taken;
    }

    /// Resets the time to live of a host's entry, if it has one.
    pub fn reset(&mut self, host: &str, now: u64)
        ensures
            final(self)@ == if old(self)@.contains_key(host@) {
                old(self)@.insert(
                    host@,
                    EntryView { expires: expiry(now), device: old(self)@[host@].device },
                )
            } else {
                old(self)@
            },
    {
        proof {
            use_type_invariant(&*self);
        }
        let ghost before = self.entries@;
        let name = host.to_owned();
        match self.find(&name) {
            None => {},
            Some(i) => {
                let mut taken: Vec<Entry> = Vec::new();
                core::mem::swap(&mut taken, &mut self.entries);
                let last = taken.len() - 1;
                let e = taken.swap_remove(i);
                let ghost host_view = e.host@;
                let ghost device_view = e.device@;
                let Entry { host: h, expires: _, device } = e;
                taken.push(Entry { host: h, expires: expiry_at(now), device });
                proof {
                    let after = taken@;
                    lemma_as_map_at(before, i as int);
                    let target = as_map(before).insert(
                        host@,
                        EntryView { expires: expiry(now), device: device_view },
                    );
                    assert(after.len() == before.len());
                    assert forall|j: int| 0 <= j < after.len() implies (#[trigger] after[j]).host@
                        == before[swapped(j, i as int, last as int)].host@ && after[j].device@
                        == before[swapped(j, i as int, last as int)].device@ && after[j].expires
                        == if j == last {
                        expiry(now)
                    } else {
                        before[swapped(j, i as int, last as int)].expires
                    } by {}
                    assert(distinct_hosts(after)) by {
                        assert forall|a: int, b: int| 0 <= a < b < after.len() implies (
                        #[trigger] after[a]).host@ != (#[trigger] after[b]).host@ by {
                            let sa = swapped(a, i as int, last as int);
                            let sb = swapped(b, i as int, last as int);
                            if sa < sb {
                                assert(before[sa].host@ != before[sb].host@);
                            } else {
                                assert(before[sb].host@ != before[sa].host@);
                            }
                        }
                    }
                    assert forall|j: int| 0 <= j < after.len() implies target.contains_key(
                        (#[trigger] after[j]).host@,
                    ) && target[after[j].host@] == entry_view(after[j]) by {
                        let sj = swapped(j, i as int, last as int);
                        lemma_as_map_at(before, sj);
                        if j != last {
                            if sj < i {
                                assert(before[sj].host@ != before[i as int].host@);
                            } else {
                                assert(before[i as int].host@ != before[sj].host@);
                            }
                        }
                    }
                    assert forall|k: Seq<char>| target.contains_key(k) implies has_host(after, k) by {
                        let j = choose|j: int|
                            0 <= j < before.len() && (#[trigger] before[j]).host@ == k;
                        assert(after[swapped(j, i as int, last as int)].host@ == k);
                    }
                    lemma_as_map_is(after, target);
                }
                self.entries = taken;
            },
        }
    }

    /// A copy of the trees, each with its host.
    pub fn entries(&self) -> (r: Vec<(String, Device)>)
        ensures
            r.len() == self@.dom().len(),
            self@.dom().finite(),
            forall|i: int|
                0 <= i < r.len() ==> self@.contains_key((#[trigger] r[i]).0@) && self@[r[i].0@].device
                    == r[i].1@,
            forall|k: Seq<char>|
                self@.contains_key(k) ==> exists|i: int| 0 <= i < r.len() && (#[trigger] r[i]).0@ == k,
            forall|i: int, j: int| 0 <= i < j < r.len() ==> (#[trigger] r[i]).0@ != (#[trigger] r[j]).0@,
    {
        proof {
            use_type_invariant(self);
        }
        let mut r: Vec<(String, Device)> = Vec::new();
        let mut i: usize = 0;
        while i < self.entries.len()
            invariant
                i <= self.entries.len(),
                r.len() == i,
                forall|j: int|
                    0 <= j < i ==> (#[trigger] r[j]).0@ == self.entries[j].host@ && r[j].1@
                        == self.entries[j].device@,
            decreases self.entries.len() - i,
        {
            r.push((self.entries[i].host.clone(), self.entries[i].device.clone()));
            i += 1;
        }
        proof {
            let s = self.entries@;
            assert forall|j: int| 0 <= j < r.len() implies self@.contains_key((#[trigger] r[j]).0@)
                && self@[r[j].0@].device == r[j].1@ by {
                lemma_as_map_at(s, j);
            }
            assert forall|k: Seq<char>| self@.contains_key(k) implies exists|j: int|
                0 <= j < r.len() && (#[trigger] r[j]).0@ == k by {
                let j = choose|j: int| 0 <= j < s.len() && (#[trigger] s[j]).host@ == k;
                assert(r[j].0@ == k);
            }
            assert forall|a: int, b: int| 0 <= a < b < r.len() implies (#[trigger] r[a]).0@ != (
            #[trigger] r[b]).0@ by {
                assert(s[a].host@ != s[b].host@);
            }
            lemma_dom_size(s);
        }
        r
    }

    /// Drops every entry that has expired by `now`.
    pub fn flush(&mut self, now: u64)
        ensures
            final(self)@ == old(self)@.restrict(
                Set::new(|k: Seq<char>| old(self)@.contains_key(k) && old(self)@[k].expires > now),
            ),
    {
        proof {
            use_type_invariant(&*self);
        }
        let ghost before = self.entries@;
        let ghost target = as_map(before).restrict(
            Set::new(|k: Seq<char>| as_map(before).contains_key(k) && as_map(before)[k].expires > now),
        );
        let mut taken: Vec<Entry> = Vec::new();
        core::mem::swap(&mut taken, &mut self.entries);
        let mut kept: Vec<Entry> = Vec::new();
        let ghost mut from: Seq<int> = Seq::empty();
        let ghost total = before.len();
        while taken.len() > 0
            invariant
                taken.len() <= total,
                total == before.len(),
                distinct_hosts(before),
                forall|j: int| 0 <= j < taken.len() ==> taken[j] == before[j],
                from.len() == kept.len(),
                forall|j: int|
                    0 <= j < kept.len() ==> taken.len() <= (#[trigger] from[j]) < total && kept[j]
                        == before[from[j]] && before[from[j]].expires > now,
                forall|a: int, b: int| 0 <= a < b < from.len() ==> from[a] > from[b],
                forall|q: int|
                    taken.len() <= q < total && before[q].expires > now ==> exists|j: int|
                        0 <= j < from.len() && #[trigger] from[j] == q,
            decreases taken.len(),
        {
            let ghost q = taken.len() - 1;
            let ghost from_before = from;
            let e = taken.pop().unwrap();
            if e.expires > now {
                kept.push(e);
                proof {
                    from = from.push(q);
                }
            }
            proof {
                assert forall|p: int|
                    taken.len() <= p < total && before[p].expires > now implies exists|j: int|
                    0 <= j < from.len() && #[trigger] from[j] == p by {
                    if p > q {
                        let j = choose|j: int| 0 <= j < from_before.len() && #[trigger] from_before[j] == p;
                        assert(from[j] == p);
                    } else {
                        assert(from[from_before.len() as int] == q);
                    }
                }
            }
        }
        proof {
            let after = kept@;
            assert(distinct_hosts(after)) by {
                assert forall|a: int, b: int| 0 <= a < b < after.len() implies (
                #[trigger] after[a]).host@ != (#[trigger] after[b]).host@ by {
                    assert(from[a] > from[b]);
                    assert(before[from[b]].host@ != before[from[a]].host@);
                }
            }
            assert forall|j: int| 0 <= j < after.len() implies target.contains_key(
                (#[trigger] after[j]).host@,
            ) && target[after[j].host@] == entry_view(after[j]) by {
                lemma_as_map_at(before, from[j]);
            }
            assert forall|k: Seq<char>| target.contains_key(k) implies has_host(after, k) by {
                let p = choose|p: int| 0 <= p < before.len() && (#[trigger] before[p]).host@ == k;
                lemma_as_map_at(before, p);
                let j = choose|j: int| 0 <= j < from.len() && #[trigger] from[j] == p;
                assert(after[j].host@ == k);
            }
            lemma_as_map_is(after, target);
        }
        self.entries = kept;
    }

    /// Takes in what a host has sent: a device tree, or a sign of life where
    /// `update` is `None`. Either way the host's entry, if there is one
    /// then, expires `TTL_SECS` after `now`. Says whether the trees in the
    /// cache have changed, so that what was derived from them is out of
    /// date. A tree that holds the same devices as the one before has not
    /// changed, whatever the order of the children of a node and however
    /// often one of them is listed.
    pub fn receive(&mut self, host: &str, update: Option<Device>, now: u64) -> (changed: bool)
        ensures
            final(self)@ == match update {
                Some(d) => old(self)@.insert(
                    host@,
                    EntryView { expires: expiry(now), device: d@ },
                ),
                None => if old(self)@.contains_key(host@) {
                    old(self)@.insert(
                        host@,
                        EntryView { expires: expiry(now), device: old(self)@[host@].device },
                    )
                } else {
                    old(self)@
                },
            },
            changed == match update {
                Some(d) => !(old(self)@.contains_key(host@) && alike(
                    old(self)@[host@].device,
                    d@,
                )),
                None => false,
            },
    {
        proof {
            use_type_invariant(&*self);
        }
        match update {
            None => {
                self.reset(host, now);
                false
            },
            Some(d) => {
                let name = host.to_owned();
                let known = match self.find(&name) {
                    Some(i) => {
                        proof {
                            lemma_as_map_at(self.entries@, i as int);
                        }
                        self.entries[i].device.alike(&d)
                    },
                    None => false,
                };
                self.upsert(host, d, now);
                !known
            },
        }
    }
}

/// Where `j` goes when the places `a` and `b` are swapped.
spec fn swapped(j: int, a: int, b: int) -> int {
    if j == a {
        b
    } else if j == b {
        a
    } else {
        j
    }
}

/// A list of entries with different hosts each has as many hosts as
/// entries.
proof fn lemma_dom_size(s: Seq<Entry>)
    requires
        distinct_hosts(s),
    ensures
        as_map(s).dom().finite(),
        as_map(s).dom().len() == s.len(),
    decreases s.len(),
{
    if s.len() == 0 {
        assert(as_map(s).dom() =~= Set::<Seq<char>>::empty());
    } else {
        let t = s.drop_last();
        let k = s.last().host@;
        assert(distinct_hosts(t)) by {
            assert forall|a: int, b: int| 0 <= a < b < t.len() implies (#[trigger] t[a]).host@ != (
            #[trigger] t[b]).host@ by {
                assert(s[a].host@ != s[b].host@);
            }
        }
        lemma_dom_size(t);
        assert(!as_map(t).dom().contains(k)) by {
            if has_host(t, k) {
                let i = choose|i: int| 0 <= i < t.len() && (#[trigger] t[i]).host@ == k;
                assert(s[i].host@ != s[s.len() - 1].host@);
            }
        }
        assert(as_map(s).dom() =~= as_map(t).dom().insert(k)) by {
            assert forall|x: Seq<char>| has_host(s, x) <==> has_host(t, x) || x == k by {
                if has_host(t, x) {
                    let i = choose|i: int| 0 <= i < t.len() && (#[trigger] t[i]).host@ == x;
                    assert(s[i].host@ == x);
                }
                if x == k {
                    assert(s[s.len() - 1].host@ == x);
                }
                if has_host(s, x) {
                    let i = choose|i: int| 0 <= i < s.len() && (#[trigger] s[i]).host@ == x;
                    if i < t.len() {
                        assert(t[i].host@ == x);
                    }
                }
            }
        }
    }
}

} // verus!
