//! Which nodes of a graph can be reached from a node by walking along
//! directed steps, where the walk may be told not to go on from some nodes.

use vstd::prelude::*;

verus! {

/// `p` is a walk: it starts somewhere, each of its moves is a step, and it
/// goes on from no node at which it is told to stop.
pub open spec fn is_walk(
    step: spec_fn(usize, usize) -> bool,
    stop: spec_fn(usize) -> bool,
    p: Seq<usize>,
) -> bool {
    &&& p.len() >= 1
    &&& forall|i: int| 0 <= i < p.len() - 1 ==> step(#[trigger] p[i], p[i + 1]) && !stop(p[i])
}

/// Some walk leads from `from` to `to`. Every node is reached from itself.
pub open spec fn walks_to(
    step: spec_fn(usize, usize) -> bool,
    stop: spec_fn(usize) -> bool,
    from: usize,
    to: usize,
) -> bool {
    exists|p: Seq<usize>| #[trigger] is_walk(step, stop, p) && p.first() == from && p.last() == to
}

/// A walk stays a walk where there are more steps and fewer stops.
pub(crate) proof fn lemma_walk_mono(
    step1: spec_fn(usize, usize) -> bool,
    stop1: spec_fn(usize) -> bool,
    step2: spec_fn(usize, usize) -> bool,
    stop2: spec_fn(usize) -> bool,
    from: usize,
    to: usize,
)
    requires
        walks_to(step1, stop1, from, to),
        forall|a: usize, b: usize| #[trigger] step1(a, b) ==> step2(a, b),
        forall|v: usize| #[trigger] stop2(v) ==> stop1(v),
    ensures
        walks_to(step2, stop2, from, to),
{
    let p = choose|p: Seq<usize>| #[trigger]
        is_walk(step1, stop1, p) && p.first() == from && p.last() == to;
    assert(is_walk(step2, stop2, p));
}

/// A walk that is prolonged by one step is a walk.
pub(crate) proof fn lemma_walk_extend(
    step: spec_fn(usize, usize) -> bool,
    stop: spec_fn(usize) -> bool,
    from: usize,
    via: usize,
    to: usize,
)
    requires
        walks_to(step, stop, from, via),
        step(via, to),
        !stop(via),
    ensures
        walks_to(step, stop, from, to),
{
    let p = choose|p: Seq<usize>| #[trigger]
        is_walk(step, stop, p) && p.first() == from && p.last() == via;
    let q = p.push(to);
    assert forall|i: int| 0 <= i < q.len() - 1 implies step(#[trigger] q[i], q[i + 1]) && !stop(
        q[i],
    ) by {
        if i < p.len() - 1 {
            assert(q[i] == p[i] && q[i + 1] == p[i + 1]);
        } else {
            assert(q[i] == via && q[i + 1] == to);
        }
    }
    assert(is_walk(step, stop, q) && q.first() == from && q.last() == to);
}

/// A walk from `a` to `b` and one from `b` to `c` make a walk from `a` to
/// `c`.
pub(crate) proof fn lemma_walk_concat(
    step: spec_fn(usize, usize) -> bool,
    stop: spec_fn(usize) -> bool,
    a: usize,
    b: usize,
    c: usize,
)
    requires
        walks_to(step, stop, a, b),
        walks_to(step, stop, b, c),
    ensures
        walks_to(step, stop, a, c),
{
    let p = choose|p: Seq<usize>| #[trigger]
        is_walk(step, stop, p) && p.first() == a && p.last() == b;
    let q = choose|q: Seq<usize>| #[trigger]
        is_walk(step, stop, q) && q.first() == b && q.last() == c;
    let r = p + q.drop_first();
    assert forall|i: int| 0 <= i < r.len() - 1 implies step(#[trigger] r[i], r[i + 1]) && !stop(
        r[i],
    ) by {
        if i < p.len() - 1 {
            assert(r[i] == p[i] && r[i + 1] == p[i + 1]);
        } else {
            let j = i - (p.len() - 1);
            assert(r[i] == q[j]);
            assert(r[i + 1] == q[j + 1]);
        }
    }
    assert(is_walk(step, stop, r) && r.first() == a && r.last() == c);
}

/// Every node reaches itself.
pub(crate) proof fn lemma_walk_self(
    step: spec_fn(usize, usize) -> bool,
    stop: spec_fn(usize) -> bool,
    v: usize,
)
    ensures
        walks_to(step, stop, v, v),
{
    let p = seq![v];
    assert(is_walk(step, stop, p) && p.first() == v && p.last() == v);
}

/// The steps of a list, as a relation.
pub open spec fn listed(steps: Seq<(usize, usize)>) -> spec_fn(usize, usize) -> bool {
    |a: usize, b: usize| steps.contains((a, b))
}

/// The marks of a list, as a test.
pub open spec fn marks(stop: Seq<bool>) -> spec_fn(usize) -> bool {
    |v: usize| marked(stop, v)
}

/// `p` is a walk: it starts somewhere, each of its moves is one of `steps`,
/// and it goes on from no node that is marked in `stop`.
spec fn is_list_walk(steps: Seq<(usize, usize)>, stop: Seq<bool>, p: Seq<usize>) -> bool {
    &&& p.len() >= 1
    &&& forall|i: int|
        0 <= i < p.len() - 1 ==> {
            &&& steps.contains((#[trigger] p[i], p[i + 1]))
            &&& !marked(stop, p[i])
        }
}

/// Node `v` has a mark, and the mark is set.
pub open spec fn marked(marks: Seq<bool>, v: usize) -> bool {
    v < marks.len() && marks[v as int]
}

/// Some walk leads from `from` to `to`. Every node is reached from itself.
spec fn list_walks_to(steps: Seq<(usize, usize)>, stop: Seq<bool>, from: usize, to: usize) -> bool {
    exists|p: Seq<usize>| #[trigger]
        is_list_walk(steps, stop, p) && p.first() == from && p.last() == to
}

/// How many entries of `s` are `false`.
spec fn unset(s: Seq<bool>) -> nat
    decreases s.len(),
{
    if s.len() == 0 {
        0
    } else {
        unset(s.drop_last()) + if s.last() {
            0nat
        } else {
            1nat
        }
    }
}

proof fn lemma_set_one(s: Seq<bool>, i: int)
    requires
        0 <= i < s.len(),
        !s[i],
    ensures
        unset(s.update(i, true)) + 1 == unset(s),
    decreases s.len(),
{
    let t = s.update(i, true);
    if i == s.len() - 1 {
        assert(t.drop_last() =~= s.drop_last());
    } else {
        assert(t.drop_last() =~= s.drop_last().update(i, true));
        lemma_set_one(s.drop_last(), i);
    }
}

/// A walk that is prolonged by one step is a walk.
proof fn lemma_walk_push(steps: Seq<(usize, usize)>, stop: Seq<bool>, p: Seq<usize>, b: usize)
    requires
        is_list_walk(steps, stop, p),
        steps.contains((p.last(), b)),
        !marked(stop, p.last()),
    ensures
        is_list_walk(steps, stop, p.push(b)),
        p.push(b).first() == p.first(),
        p.push(b).last() == b,
{
    let q = p.push(b);
    assert forall|i: int| 0 <= i < q.len() - 1 implies {
        &&& steps.contains((#[trigger] q[i], q[i + 1]))
        &&& !marked(stop, q[i])
    } by {
        if i < p.len() - 1 {
            assert(q[i] == p[i] && q[i + 1] == p[i + 1]);
        } else {
            assert(q[i] == p.last() && q[i + 1] == b);
        }
    }
}

/// A walk to `a` and a step from `a` to `b` make a walk to `b`.
proof fn lemma_list_walk_extend(
    steps: Seq<(usize, usize)>,
    stop: Seq<bool>,
    from: usize,
    a: usize,
    b: usize,
)
    requires
        list_walks_to(steps, stop, from, a),
        steps.contains((a, b)),
        !marked(stop, a),
    ensures
        list_walks_to(steps, stop, from, b),
{
    let p = choose|p: Seq<usize>| #[trigger]
        is_list_walk(steps, stop, p) && p.first() == from && p.last() == a;
    lemma_walk_push(steps, stop, p, b);
    assert(is_list_walk(steps, stop, p.push(b)) && p.push(b).first() == from && p.push(b).last()
        == b);
}

/// Where every node that has been seen and may be walked on from has all
/// its steps lead to seen nodes, every node of a walk from a seen node is
/// seen.
proof fn lemma_walk_stays_seen(
    steps: Seq<(usize, usize)>,
    stop: Seq<bool>,
    seen: Seq<bool>,
    p: Seq<usize>,
    i: int,
)
    requires
        is_list_walk(steps, stop, p),
        seen.len() == stop.len(),
        p.first() < seen.len(),
        seen[p.first() as int],
        forall|k: int| 0 <= k < steps.len() ==> (#[trigger] steps[k]).1 < seen.len(),
        forall|k: int|
            0 <= k < steps.len() && (#[trigger] steps[k]).0 < seen.len() && seen[steps[k].0 as int]
                && !stop[steps[k].0 as int] ==> seen[steps[k].1 as int],
        0 <= i < p.len(),
    ensures
        p[i] < seen.len(),
        seen[p[i] as int],
    decreases i,
{
    if i > 0 {
        lemma_walk_stays_seen(steps, stop, seen, p, i - 1);
        assert(steps.contains((p[i - 1], p[i - 1 + 1])));
        let k = choose|k: int| 0 <= k < steps.len() && steps[k] == (p[i - 1], p[i]);
        assert(steps[k].0 == p[i - 1]);
    }
}

/// Every step from a marked node on which a walk may go on leads to a
/// marked node.
spec fn closed(steps: Seq<(usize, usize)>, stop: Seq<bool>, seen: Seq<bool>, upto: int) -> bool {
    forall|k: int|
        0 <= k < upto && seen[(#[trigger] steps[k]).0 as int] && !stop[steps[k].0 as int]
            ==> seen[steps[k].1 as int]
}

/// Goes through the steps once and marks the end of each step that starts
/// at a marked node. Says whether it marked anything.
fn sweep(steps: &Vec<(usize, usize)>, stop: &Vec<bool>, from: usize, seen: &mut Vec<bool>) -> (changed:
    bool)
    requires
        old(seen).len() == stop.len(),
        forall|k: int|
            0 <= k < steps.len() ==> (#[trigger] steps[k]).0 < stop.len() && steps[k].1
                < stop.len(),
        forall|v: usize|
            v < stop.len() && old(seen)[v as int] ==> list_walks_to(steps@, stop@, from, v),
    ensures
        final(seen).len() == stop.len(),
        forall|v: usize|
            v < stop.len() && final(seen)[v as int] ==> list_walks_to(steps@, stop@, from, v),
        forall|v: int| 0 <= v < stop.len() && old(seen)[v] ==> final(seen)[v],
        !changed ==> final(seen)@ == old(seen)@ && closed(
            steps@,
            stop@,
            final(seen)@,
            steps.len() as int,
        ),
        changed ==> unset(final(seen)@) < unset(old(seen)@),
{
    let mut changed = false;
    let mut k: usize = 0;
    while k < steps.len()
        invariant
            k <= steps.len(),
            seen.len() == stop.len(),
            forall|j: int|
                0 <= j < steps.len() ==> (#[trigger] steps[j]).0 < stop.len() && steps[j].1
                    < stop.len(),
            forall|v: usize| v < stop.len() && seen[v as int] ==> list_walks_to(steps@, stop@, from, v),
            forall|v: int| 0 <= v < stop.len() && old(seen)[v] ==> seen[v],
            !changed ==> seen@ == old(seen)@ && closed(steps@, stop@, seen@, k as int),
            changed ==> unset(seen@) < unset(old(seen)@),
            unset(seen@) <= unset(old(seen)@),
        decreases steps.len() - k,
    {
        let a = steps[k].0;
        let b = steps[k].1;
        if seen[a] && !stop[a] && !seen[b] {
            proof {
                lemma_set_one(seen@, b as int);
                assert(steps@[k as int] == (a, b));
                lemma_list_walk_extend(steps@, stop@, from, a, b);
            }
            seen.set(b, true);
            changed = true;
        }
        k += 1;
    }
    changed
}

/// Marks the nodes that a walk from `from` reaches.
pub(crate) fn closure(n: usize, steps: &Vec<(usize, usize)>, stop: &Vec<bool>, from: usize) -> (seen: Vec<
    bool,
>)
    requires
        from < n,
        stop.len() == n,
        forall|k: int| 0 <= k < steps.len() ==> (#[trigger] steps[k]).0 < n && steps[k].1 < n,
    ensures
        seen.len() == n,
        forall|v: usize|
            v < n ==> (seen[v as int] <==> walks_to(listed(steps@), marks(stop@), from, v)),
{
    let mut seen: Vec<bool> = Vec::new();
    let mut i: usize = 0;
    while i < n
        invariant
            i <= n,
            seen.len() == i,
            forall|j: int| 0 <= j < i ==> !seen[j],
        decreases n - i,
    {
        seen.push(false);
        i += 1;
    }
    seen.set(from, true);
    proof {
        let p = seq![from];
        assert(is_list_walk(steps@, stop@, p) && p.first() == from && p.last() == from);
    }
    let mut changed = true;
    while changed
        invariant
            seen.len() == n,
            stop.len() == n,
            from < n,
            seen[from as int],
            forall|k: int| 0 <= k < steps.len() ==> (#[trigger] steps[k]).0 < n && steps[k].1 < n,
            forall|v: usize| v < n && seen[v as int] ==> list_walks_to(steps@, stop@, from, v),
            !changed ==> closed(steps@, stop@, seen@, steps.len() as int),
        decreases
                unset(seen@),
                if changed {
                    1nat
                } else {
                    0nat
                },
    {
        changed = sweep(steps, stop, from, &mut seen);
    }
    proof {
        assert forall|v: usize| v < n implies (seen[v as int] <==> walks_to(
            listed(steps@),
            marks(stop@),
            from,
            v,
        )) by {
            if seen[v as int] {
                let p = choose|p: Seq<usize>| #[trigger]
                    is_list_walk(steps@, stop@, p) && p.first() == from && p.last() == v;
                assert(is_walk(listed(steps@), marks(stop@), p));
            }
            if walks_to(listed(steps@), marks(stop@), from, v) {
                let p = choose|p: Seq<usize>| #[trigger]
                    is_walk(listed(steps@), marks(stop@), p) && p.first() == from && p.last() == v;
                assert(is_list_walk(steps@, stop@, p)) by {
                    assert forall|i: int| 0 <= i < p.len() - 1 implies {
                        &&& steps@.contains((#[trigger] p[i], p[i + 1]))
                        &&& !marked(stop@, p[i])
                    } by {
                        assert(listed(steps@)(p[i], p[i + 1]));
                        assert(!marks(stop@)(p[i]));
                    }
                }
                lemma_walk_stays_seen(steps@, stop@, seen@, p, p.len() - 1);
            }
        }
    }
    seen
}

} // verus!
