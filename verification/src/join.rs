//! Adding edges to the aggregator's graph, one by one, until one would
//! close a cycle.

use crate::dag::{
    dag_edge_list, dag_update_edge, edge_at, edges_wf, has_edge, lemma_subrange_next, nowhere,
    reaches, steps_of, with_edge, Dag, Edge,
};
use crate::error::Error;
use crate::reach::{lemma_walk_mono, walks_to};
use vstd::prelude::*;

verus! {

/// The steps of the relation close a cycle: some step leads from `x` to
/// `y` and some walk back from `y` to `x`.
pub open spec fn cyclic(step: spec_fn(usize, usize) -> bool) -> bool {
    exists|x: usize, y: usize| #[trigger] step(x, y) && walks_to(step, nowhere(), y, x)
}

/// The edges of a graph together with the pairs of a list, as steps.
pub open spec fn steps_with(edges: Seq<(usize, usize, Edge)>, pairs: Seq<(usize, usize)>) -> spec_fn(
    usize,
    usize,
) -> bool {
    |a: usize, b: usize| has_edge(edges, a, b) || pairs.contains((a, b))
}

/// `after` is `before` with an edge of the given kind for each pair: every
/// pair has its edge, every edge of `after` is one of `before` or the edge
/// of a pair, and an edge of `before` is still there unless it joined a pair
/// and took the new kind.
pub open spec fn edges_added(
    before: Seq<(usize, usize, Edge)>,
    after: Seq<(usize, usize, Edge)>,
    pairs: Seq<(usize, usize)>,
    kind: Edge,
) -> bool {
    &&& forall|a: usize, b: usize| #[trigger] pairs.contains((a, b)) ==> after.contains((a, b, kind))
    &&& forall|e: (usize, usize, Edge)| #[trigger]
        after.contains(e) ==> before.contains(e) || (e.2 == kind && pairs.contains((e.0, e.1)))
    &&& forall|e: (usize, usize, Edge)| #[trigger]
        before.contains(e) ==> after.contains(e) || pairs.contains((e.0, e.1))
}

/// `after` has grown out of `before` by edges of the given kind for some of
/// the pairs: every edge of `after` is one of `before` or the edge of a
/// pair, and an edge of `before` is still there unless it joined a pair.
pub open spec fn edges_kept(
    before: Seq<(usize, usize, Edge)>,
    after: Seq<(usize, usize, Edge)>,
    pairs: Seq<(usize, usize)>,
    kind: Edge,
) -> bool {
    &&& forall|e: (usize, usize, Edge)| #[trigger]
        after.contains(e) ==> before.contains(e) || (e.2 == kind && pairs.contains((e.0, e.1)))
    &&& forall|e: (usize, usize, Edge)| #[trigger]
        before.contains(e) ==> after.contains(e) || pairs.contains((e.0, e.1))
}

/// What setting one edge does to the membership of edges.
proof fn lemma_with_edge(
    edges: Seq<(usize, usize, Edge)>,
    a: usize,
    b: usize,
    kind: Edge,
    i: int,
)
    requires
        edge_at(with_edge(edges, a, b, kind, i), a, b, i),
    ensures
        with_edge(edges, a, b, kind, i).contains((a, b, kind)),
        forall|e: (usize, usize, Edge)| #[trigger]
            with_edge(edges, a, b, kind, i).contains(e) ==> e == (a, b, kind) || edges.contains(e),
        forall|e: (usize, usize, Edge)| #[trigger]
            edges.contains(e) ==> with_edge(edges, a, b, kind, i).contains(e) || (e.0 == a && e.1
                == b),
        forall|x: usize, y: usize|
            has_edge(with_edge(edges, a, b, kind, i), x, y) <==> has_edge(edges, x, y) || (x == a
                && y == b),
{
    let after = with_edge(edges, a, b, kind, i);
    assert(after[i] == (a, b, kind));
    assert forall|e: (usize, usize, Edge)| #[trigger] after.contains(e) implies e == (a, b, kind)
        || edges.contains(e) by {
        let j = choose|j: int| 0 <= j < after.len() && after[j] == e;
        if j != i {
            assert(edges[j] == e);
        }
    }
    assert forall|e: (usize, usize, Edge)| #[trigger] edges.contains(e) implies after.contains(e)
        || (e.0 == a && e.1 == b) by {
        let j = choose|j: int| 0 <= j < edges.len() && edges[j] == e;
        if !(e.0 == a && e.1 == b) {
            assert(after[j] == e);
        }
    }
    assert forall|x: usize, y: usize| has_edge(after, x, y) <==> has_edge(edges, x, y) || (x == a
        && y == b) by {
        if has_edge(after, x, y) {
            let j = choose|j: int| edge_at(after, x, y, j);
            if !(x == a && y == b) {
                assert(edge_at(edges, x, y, j));
            }
        }
        if has_edge(edges, x, y) {
            let j = choose|j: int| edge_at(edges, x, y, j);
            assert(edge_at(after, x, y, j));
        }
        if x == a && y == b {
            assert(edge_at(after, x, y, i));
        }
    }
}

/// An acyclic graph that has an edge for each step of a relation shows that
/// the relation closes no cycle.
pub(crate) proof fn lemma_wf_rules_out_cycle(
    edges: Seq<(usize, usize, Edge)>,
    n: nat,
    step: spec_fn(usize, usize) -> bool,
)
    requires
        edges_wf(edges, n),
        forall|x: usize, y: usize| #[trigger] step(x, y) ==> has_edge(edges, x, y),
    ensures
        !cyclic(step),
{
    if cyclic(step) {
        let (x, y) = choose|x: usize, y: usize| #[trigger]
            step(x, y) && walks_to(step, nowhere(), y, x);
        lemma_walk_mono(step, nowhere(), steps_of(edges), nowhere(), y, x);
        let i = choose|i: int| edge_at(edges, x, y, i);
        assert(!reaches(edges, edges[i].1, edges[i].0));
    }
}

/// Sets the edge of each pair to the given kind, in the order of the list.
/// Stops at the first edge that would close a cycle.
fn add_edges(dag: &mut Dag, pairs: &Vec<(usize, usize)>, kind: Edge) -> (r: Result<(), Error>)
    requires
        forall|k: int|
            0 <= k < pairs.len() ==> (#[trigger] pairs[k]).0 < old(dag)@.nodes.len() && pairs[k].1
                < old(dag)@.nodes.len(),
    ensures
        final(dag)@.nodes == old(dag)@.nodes,
        match r {
            Ok(()) => {
                &&& edges_added(old(dag)@.edges, final(dag)@.edges, pairs@, kind)
                &&& final(dag)@.wf()
                &&& !cyclic(steps_with(old(dag)@.edges, pairs@))
            },
            Err(e) => e == Error::GraphCycle && cyclic(steps_with(old(dag)@.edges, pairs@))
                && edges_kept(old(dag)@.edges, final(dag)@.edges, pairs@, kind),
        },
{
    let ghost before = dag@.edges;
    let mut k: usize = 0;
    let mut ok = true;
    assert(pairs@.subrange(0, 0) =~= Seq::<(usize, usize)>::empty());
    while k < pairs.len() && ok
        invariant
            k <= pairs.len(),
            dag@.nodes == old(dag)@.nodes,
            before == old(dag)@.edges,
            forall|j: int|
                0 <= j < pairs.len() ==> (#[trigger] pairs[j]).0 < dag@.nodes.len() && pairs[j].1
                    < dag@.nodes.len(),
            edges_added(before, dag@.edges, pairs@.subrange(0, k as int), kind),
            !ok ==> cyclic(steps_with(before, pairs@)),
        decreases
                pairs.len() - k,
                if ok {
                    1nat
                } else {
                    0nat
                },
    {
        let a = pairs[k].0;
        let b = pairs[k].1;
        let ghost cur = dag@.edges;
        let ghost prefix = pairs@.subrange(0, k as int);
        let ghost next = pairs@.subrange(0, k + 1);
        proof {
            lemma_subrange_next(pairs@, k as int);
            assert(pairs@[k as int] == (a, b));
            assert(next[k as int] == (a, b));
        }
        match dag_update_edge(dag, a, b, kind) {
            Ok(i) => {
                proof {
                    lemma_with_edge(cur, a, b, kind, i as int);
                    assert(next.contains((a, b)));
                    assert forall|x: usize, y: usize| #[trigger] next.contains((x, y)) implies dag@
                        .edges.contains((x, y, kind)) by {
                        if (x, y) != (a, b) {
                            assert(prefix.contains((x, y)));
                            assert(cur.contains((x, y, kind)));
                        }
                    }
                    assert forall|e: (usize, usize, Edge)| #[trigger]
                        dag@.edges.contains(e) implies before.contains(e) || (e.2 == kind
                        && next.contains((e.0, e.1))) by {
                        if e != (a, b, kind) {
                            assert(cur.contains(e));
                            if !before.contains(e) {
                                assert(prefix.contains((e.0, e.1)));
                            }
                        }
                    }
                    assert forall|e: (usize, usize, Edge)| #[trigger]
                        before.contains(e) implies dag@.edges.contains(e) || next.contains(
                        (e.0, e.1),
                    ) by {
                        if cur.contains(e) {
                        } else {
                            assert(prefix.contains((e.0, e.1)));
                        }
                    }
                }
                k += 1;
            },
            Err(_) => {
                proof {
                    let step = steps_with(before, pairs@);
                    assert forall|x: usize, y: usize| #[trigger]
                        steps_of(cur)(x, y) implies step(x, y) by {
                        let j = choose|j: int| edge_at(cur, x, y, j);
                        let e = cur[j];
                        assert(cur.contains(e));
                        if before.contains(e) {
                            let m = choose|m: int| 0 <= m < before.len() && before[m] == e;
                            assert(edge_at(before, x, y, m));
                        } else {
                            assert(prefix.contains((e.0, e.1)));
                            let m = choose|m: int| 0 <= m < prefix.len() && prefix[m] == (x, y);
                            assert(pairs@[m] == (x, y));
                        }
                    }
                    lemma_walk_mono(steps_of(cur), nowhere(), step, nowhere(), b, a);
                    assert(pairs@.contains((a, b)));
                    assert(step(a, b) && walks_to(step, nowhere(), b, a));
                }
                ok = false;
            },
        }
    }
    if !ok {
        proof {
            let prefix = pairs@.subrange(0, k as int);
            assert forall|x: usize, y: usize| prefix.contains((x, y)) implies pairs@.contains(
                (x, y),
            ) by {
                let m = choose|m: int| 0 <= m < prefix.len() && prefix[m] == (x, y);
                assert(pairs@[m] == (x, y));
            }
            assert forall|e: (usize, usize, Edge)| #[trigger]
                dag@.edges.contains(e) implies before.contains(e) || (e.2 == kind
                && pairs@.contains((e.0, e.1))) by {
                if !before.contains(e) {
                    assert(prefix.contains((e.0, e.1)));
                }
            }
            assert forall|e: (usize, usize, Edge)| #[trigger]
                before.contains(e) implies dag@.edges.contains(e) || pairs@.contains(
                (e.0, e.1),
            ) by {
                if !dag@.edges.contains(e) {
                    assert(prefix.contains((e.0, e.1)));
                }
            }
        }
        return Err(Error::GraphCycle);
    }
    let edges = dag_edge_list(dag);
    proof {
        assert(pairs@.subrange(0, pairs.len() as int) =~= pairs@);
        let step = steps_with(before, pairs@);
        assert forall|x: usize, y: usize| #[trigger] step(x, y) implies has_edge(edges@, x, y) by {
            if pairs@.contains((x, y)) {
                assert(edges@.contains((x, y, kind)));
                let j = choose|j: int| 0 <= j < edges@.len() && edges@[j] == (x, y, kind);
                assert(edge_at(edges@, x, y, j));
            } else {
                let m = choose|m: int| edge_at(before, x, y, m);
                let e = before[m];
                assert(before.contains(e));
                assert(edges@.contains(e));
                let j = choose|j: int| 0 <= j < edges@.len() && edges@[j] == e;
                assert(edge_at(edges@, x, y, j));
            }
        }
        lemma_wf_rules_out_cycle(edges@, dag@.nodes.len(), step);
    }
    Ok(())
}

/// The edges of a graph together with the steps of a relation, as steps.
pub open spec fn steps_plus(
    edges: Seq<(usize, usize, Edge)>,
    more: spec_fn(usize, usize) -> bool,
) -> spec_fn(usize, usize) -> bool {
    |a: usize, b: usize| has_edge(edges, a, b) || more(a, b)
}

/// `after` is `before` with an edge of the given kind for each step of
/// `more`: every step has its edge, every edge of `after` is one of `before`
/// or the edge of a step, and an edge of `before` is still there unless it
/// joined the nodes of a step and took the new kind.
pub open spec fn edges_joined(
    before: Seq<(usize, usize, Edge)>,
    after: Seq<(usize, usize, Edge)>,
    more: spec_fn(usize, usize) -> bool,
    kind: Edge,
) -> bool {
    &&& forall|a: usize, b: usize| #[trigger] more(a, b) ==> after.contains((a, b, kind))
    &&& forall|e: (usize, usize, Edge)| #[trigger]
        after.contains(e) ==> before.contains(e) || (e.2 == kind && more(e.0, e.1))
    &&& forall|e: (usize, usize, Edge)| #[trigger]
        before.contains(e) ==> after.contains(e) || more(e.0, e.1)
}

/// `after` has grown out of `before` by edges of the given kind for some
/// steps of `more`: every edge of `after` is one of `before` or the edge of
/// a step, and an edge of `before` is still there unless it joined the
/// nodes of a step.
pub open spec fn edges_grown(
    before: Seq<(usize, usize, Edge)>,
    after: Seq<(usize, usize, Edge)>,
    more: spec_fn(usize, usize) -> bool,
    kind: Edge,
) -> bool {
    &&& forall|e: (usize, usize, Edge)| #[trigger]
        after.contains(e) ==> before.contains(e) || (e.2 == kind && more(e.0, e.1))
    &&& forall|e: (usize, usize, Edge)| #[trigger]
        before.contains(e) ==> after.contains(e) || more(e.0, e.1)
}

/// A relation with more steps closes every cycle that one with fewer closes.
pub(crate) proof fn lemma_cyclic_mono(
    step1: spec_fn(usize, usize) -> bool,
    step2: spec_fn(usize, usize) -> bool,
)
    requires
        cyclic(step1),
        forall|a: usize, b: usize| #[trigger] step1(a, b) ==> step2(a, b),
    ensures
        cyclic(step2),
{
    let (x, y) = choose|x: usize, y: usize| #[trigger]
        step1(x, y) && walks_to(step1, nowhere(), y, x);
    lemma_walk_mono(step1, nowhere(), step2, nowhere(), y, x);
    assert(step2(x, y) && walks_to(step2, nowhere(), y, x));
}

/// Sets the edge for each step of a relation that a list spells out.
pub(crate) fn join_edges(
    dag: &mut Dag,
    pairs: &Vec<(usize, usize)>,
    kind: Edge,
    Ghost(more): Ghost<spec_fn(usize, usize) -> bool>,
) -> (r: Result<(), Error>)
    requires
        forall|a: usize, b: usize| #[trigger] pairs@.contains((a, b)) <==> more(a, b),
        forall|a: usize, b: usize|
            #[trigger] more(a, b) ==> a < old(dag)@.nodes.len() && b < old(dag)@.nodes.len(),
    ensures
        final(dag)@.nodes == old(dag)@.nodes,
        r is Ok <==> !cyclic(steps_plus(old(dag)@.edges, more)),
        r is Ok ==> final(dag)@.wf() && edges_joined(
            old(dag)@.edges,
            final(dag)@.edges,
            more,
            kind,
        ),
        r is Err ==> r->Err_0 == Error::GraphCycle,
        edges_grown(old(dag)@.edges, final(dag)@.edges, more, kind),
{
    proof {
        assert forall|k: int| 0 <= k < pairs.len() implies (#[trigger] pairs[k]).0 < dag@.nodes.len()
            && pairs[k].1 < dag@.nodes.len() by {
            assert(pairs@.contains((pairs[k].0, pairs[k].1)));
        }
    }
    let ghost before = dag@.edges;
    let r = add_edges(dag, pairs, kind);
    proof {
        if cyclic(steps_with(before, pairs@)) {
            lemma_cyclic_mono(steps_with(before, pairs@), steps_plus(before, more));
        }
        if cyclic(steps_plus(before, more)) {
            lemma_cyclic_mono(steps_plus(before, more), steps_with(before, pairs@));
        }
        let after = dag@.edges;
        if r is Ok {
            assert forall|a: usize, b: usize| #[trigger] more(a, b) implies after.contains(
                (a, b, kind),
            ) by {
                assert(pairs@.contains((a, b)));
            }
        }
        assert forall|e: (usize, usize, Edge)| #[trigger]
            after.contains(e) implies before.contains(e) || (e.2 == kind && more(e.0, e.1)) by {
            if !before.contains(e) {
                assert(pairs@.contains((e.0, e.1)));
            }
        }
        assert forall|e: (usize, usize, Edge)| #[trigger]
            before.contains(e) implies after.contains(e) || more(e.0, e.1) by {
            if !after.contains(e) {
                assert(pairs@.contains((e.0, e.1)));
            }
        }
    }
    r
}

} // verus!
