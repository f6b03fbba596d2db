//! Keeps track of how much of a buffer each of a set of writers has flushed.

use std::collections::HashMap;
use vstd::prelude::*;
use vstd::std_specs::hash::*;
use vstd::std_specs::iter::IteratorSpec;

verus! {

/// For each writer, by id, the number of bytes of the current buffer that it
/// has written. A writer that has written the whole buffer is dropped from
/// the tracker on the next `advance`.
#[derive(Debug, PartialEq)]
pub struct FlushTracker {
    flush_points: HashMap<usize, usize>,
    total: usize,
}

/// The flush points after writer `id` has written `x` more bytes: its flush
/// point moves on by `x`, and every writer whose flush point has reached
/// `total` is gone.
pub open spec fn advanced(m: Map<usize, usize>, id: usize, x: usize, total: usize) -> Map<
    usize,
    usize,
> {
    Map::new(
        |k: usize| m.contains_key(k) && bumped(m, id, x, k) < total,
        |k: usize| bumped(m, id, x, k) as usize,
    )
}

/// The flush point of writer `k` once writer `id` has written `x` more
/// bytes.
pub open spec fn bumped(m: Map<usize, usize>, id: usize, x: usize, k: usize) -> int {
    if k == id {
        m[k] + x
    } else {
        m[k] as int
    }
}

/// The ids in a map, each once, in the order in which the map hands them
/// out.
fn ids_of(m: &HashMap<usize, usize>) -> (r: Vec<usize>)
    ensures
        r@.to_set() == m@.dom(),
        r@.no_duplicates(),
{
    let mut r: Vec<usize> = Vec::new();
    let ghost ks = spec_keys_iter(m).remaining();
    proof {
        axiom_spec_keys_iter(m);
    }
    for k in it: m.keys()
        invariant
            it.seq() == ks,
            r@.len() == it.index@,
            forall|j: int| 0 <= j < r@.len() ==> r@[j] == *ks[j],
    {
        r.push(*k);
    }
    assert(r@ =~= ks.unref());
    r
}

impl FlushTracker {
    /// The flush point of each writer, by id.
    pub closed spec fn points(&self) -> Map<usize, usize> {
        self.flush_points@
    }

    /// The length of the buffer that is being written.
    pub closed spec fn total(&self) -> usize {
        self.total
    }

    /// A tracker for the writers `xs`, none of which has written anything of
    /// a buffer of `total` bytes.
    pub fn new(xs: Vec<usize>, total: usize) -> (t: Self)
        ensures
            t.total() == total,
            t.points().dom() == xs@.to_set(),
            forall|k: usize| t.points().contains_key(k) ==> t.points()[k] == 0,
    {
        let mut fp: HashMap<usize, usize> = HashMap::new();
        let mut i: usize = 0;
        assert(fp@.dom() =~= xs@.subrange(0, 0).to_set());
        while i < xs.len()
            invariant
                i <= xs.len(),
                fp@.dom() == xs@.subrange(0, i as int).to_set(),
                forall|k: usize| fp@.contains_key(k) ==> fp@[k] == 0,
            decreases xs.len() - i,
        {
            let ghost before = fp@;
            fp.insert(xs[i], 0);
            proof {
                let prefix = xs@.subrange(0, i as int);
                let next = xs@.subrange(0, i + 1);
                assert(next =~= prefix.push(xs[i as int]));
                assert forall|k: usize| next.to_set().contains(k) <==> fp@.dom().contains(k) by {
                    if next.contains(k) {
                        let q = choose|q: int| 0 <= q < next.len() && next[q] == k;
                        if q < i {
                            assert(prefix[q] == k);
                            assert(prefix.to_set().contains(k));
                        }
                    }
                    if before.dom().contains(k) {
                        assert(prefix.to_set().contains(k));
                        let q = choose|q: int| 0 <= q < prefix.len() && prefix[q] == k;
                        assert(next[q] == k);
                    }
                    if k == xs[i as int] {
                        assert(next[i as int] == k);
                    }
                }
                assert(fp@.dom() =~= next.to_set());
            }
            i += 1;
        }
        assert(xs@.subrange(0, xs.len() as int) =~= xs@);
        FlushTracker { flush_points: fp, total }
    }

    /// Records that writer `id` has written `x` more bytes, and drops every
    /// writer that is done.
    pub fn advance(&mut self, id: usize, x: usize)
        ensures
            final(self).total() == old(self).total(),
            final(self).points() == advanced(old(self).points(), id, x, old(self).total()),
    {
        let ghost m = self.flush_points@;
        let ghost target = advanced(m, id, x, self.total);
        let total = self.total;
        let ids = ids_of(&self.flush_points);
        let mut next: HashMap<usize, usize> = HashMap::new();
        let mut i: usize = 0;
        while i < ids.len()
            invariant
                i <= ids.len(),
                self.flush_points@ == m,
                self.total == total,
                target == advanced(m, id, x, total),
                ids@.to_set() == m.dom(),
                forall|k: usize|
                    #![trigger next@.contains_key(k)]
                    #![trigger target.contains_key(k)]
                    next@.contains_key(k) <==> target.contains_key(k) && ids@.subrange(
                        0,
                        i as int,
                    ).contains(k),
                forall|k: usize| next@.contains_key(k) ==> next@[k] == target[k],
            decreases ids.len() - i,
        {
            let k = ids[i];
            let ghost before = next@;
            proof {
                assert(ids@.to_set().contains(ids@[i as int]));
            }
            match self.flush_points.get(&k) {
                Some(v) => {
                    let v: usize = *v;
                    if k == id {
                        if v < total && x < total - v {
                            next.insert(k, v + x);
                        }
                    } else if v < total {
                        next.insert(k, v);
                    }
                },
                None => {},
            }
            proof {
                let prefix = ids@.subrange(0, i as int);
                let grown = ids@.subrange(0, i + 1);
                assert(grown =~= prefix.push(k));
                assert forall|j: usize|
                    #![trigger next@.contains_key(j)]
                    #![trigger target.contains_key(j)]
                    next@.contains_key(j) <==> target.contains_key(j) && grown.contains(j) by {
                    if prefix.contains(j) {
                        let q = choose|q: int| 0 <= q < prefix.len() && prefix[q] == j;
                        assert(grown[q] == j);
                    }
                    if j == k {
                        assert(grown[i as int] == j);
                    } else if grown.contains(j) {
                        let q = choose|q: int| 0 <= q < grown.len() && grown[q] == j;
                        assert(prefix[q] == j);
                    }
                }
            }
            i += 1;
        }
        proof {
            assert(ids@.subrange(0, ids.len() as int) =~= ids@);
            assert forall|k: usize| target.contains_key(k) implies next@.contains_key(k) by {
                assert(ids@.to_set().contains(k));
            }
            assert(next@ =~= target);
        }
        self.flush_points = next;
    }

    /// How many bytes of the buffer writer `id` has written. The writer must
    /// be in the tracker.
    pub fn slice_point(&self, id: usize) -> (r: usize)
        requires
            self.points().contains_key(id),
        ensures
            r == self.points()[id],
    {
        match self.flush_points.get(&id) {
            Some(v) => *v,
            None => 0,
        }
    }

    /// Whether writer `id` is in the tracker.
    pub fn contains(&self, id: usize) -> (r: bool)
        ensures
            r == self.points().contains_key(id),
    {
        self.flush_points.contains_key(&id)
    }

    /// Takes writer `id` out of the tracker.
    pub fn remove(&mut self, id: usize)
        ensures
            final(self).total() == old(self).total(),
            final(self).points() == old(self).points().remove(id),
    {
        let _ = self.flush_points.remove(&id);
    }

    /// Whether some writer has not yet written the whole buffer.
    pub fn has_more(&self) -> (r: bool)
        ensures
            r == exists|k: usize|
                self.points().contains_key(k) && #[trigger] self.points()[k] < self.total(),
    {
        let ids = ids_of(&self.flush_points);
        let mut i: usize = 0;
        while i < ids.len()
            invariant
                i <= ids.len(),
                ids@.to_set() == self.flush_points@.dom(),
                forall|j: int|
                    0 <= j < i ==> #[trigger] self.flush_points@[ids@[j]] >= self.total,
            decreases ids.len() - i,
        {
            proof {
                assert(ids@.to_set().contains(ids@[i as int]));
            }
            match self.flush_points.get(&ids[i]) {
                Some(v) => {
                    if *v < self.total {
                        assert(self.points().contains_key(ids@[i as int]) && self.points()[ids@[i as int]]
                            < self.total());
                        return true;
                    }
                },
                None => {},
            }
            i += 1;
        }
        proof {
            assert forall|k: usize| self.points().contains_key(k) implies !(
            #[trigger] self.points()[k] < self.total()) by {
                assert(ids@.to_set().contains(k));
                let j = choose|j: int| 0 <= j < ids@.len() && ids@[j] == k;
                assert(self.flush_points@[ids@[j]] >= self.total);
            }
        }
        false
    }

    /// How many writers are in the tracker.
    pub fn len(&self) -> (n: usize)
        ensures
            self.points().dom().finite(),
            n == self.points().dom().len(),
    {
        self.flush_points.len()
    }
}

} // verus!
