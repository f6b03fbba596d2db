//! Building the aggregator's graph: the devices of each host with the
//! edges from a device to what is layered on it, all hosts side by side,
//! and an edge between every two nodes that stand for the same device.

use crate::dag::{
    child_rule, dag_add_node, dag_edge_list, dag_new, dag_node_count, dag_node_weight, edge_at,
    edges_wf, has_edge, is_child, lemma_prefix_step, nowhere, reaches, steps_of, Dag, Edge,
    Graph,
};
use crate::error::Error;
use crate::join::{
    cyclic, edges_grown, edges_joined, join_edges, lemma_cyclic_mono, steps_plus,
};
use crate::node::{Device, DeviceView, Host, Parent};
use crate::reach::{
    closure, is_walk, lemma_walk_extend, lemma_walk_mono, lemma_walk_self, listed, marks,
    walks_to,
};
use vstd::prelude::*;

verus! {

/// Two nodes stand for the same device: they have the same type and serial.
pub open spec fn same_key(nodes: Seq<DeviceView>, a: usize, b: usize) -> bool {
    a < nodes.len() && b < nodes.len() && nodes[a as int].as_parent() == nodes[b as int].as_parent()
}

/// The pairs of distinct nodes that stand for the same device, lower number
/// first.
pub open spec fn shared_pairs(nodes: Seq<DeviceView>) -> spec_fn(usize, usize) -> bool {
    |a: usize, b: usize| a < b && same_key(nodes, a, b)
}

/// Find and add any shared edges between devices: one between every two
/// nodes with the same type and serial. Fails with `GraphCycle` where the
/// graph with these edges would have a cycle.
pub fn add_shared_edges(dag: &mut Dag) -> (r: Result<(), Error>)
    ensures
        final(dag)@.nodes == old(dag)@.nodes,
        r is Ok <==> !cyclic(steps_plus(old(dag)@.edges, shared_pairs(old(dag)@.nodes))),
        r is Ok ==> final(dag)@.wf() && edges_joined(
            old(dag)@.edges,
            final(dag)@.edges,
            shared_pairs(old(dag)@.nodes),
            Edge::Shared,
        ),
        r is Err ==> r->Err_0 == Error::GraphCycle,
        edges_grown(
            old(dag)@.edges,
            final(dag)@.edges,
            shared_pairs(old(dag)@.nodes),
            Edge::Shared,
        ),
{
    let ghost g = dag@;
    let n = dag_node_count(dag);
    let mut keys: Vec<Parent> = Vec::new();
    let mut i: usize = 0;
    while i < n
        invariant
            i <= n,
            n == g.nodes.len(),
            g == dag@,
            keys.len() == i,
            forall|v: int| 0 <= v < i ==> (#[trigger] keys[v]).deep_view() == g.nodes[v].as_parent(),
        decreases n - i,
    {
        match dag_node_weight(dag, i) {
            Some(d) => {
                keys.push(d.as_parent());
            },
            None => {
                proof {
                    assert(false);
                }
            },
        }
        i += 1;
    }
    let mut pairs: Vec<(usize, usize)> = Vec::new();
    let mut a: usize = 0;
    while a < n
        invariant
            a <= n,
            n == g.nodes.len(),
            keys.len() == n,
            forall|v: int| 0 <= v < n ==> (#[trigger] keys[v]).deep_view() == g.nodes[v].as_parent(),
            forall|x: usize, y: usize|
                #[trigger] pairs@.contains((x, y)) <==> x < a && shared_pairs(g.nodes)(x, y),
        decreases n - a,
    {
        let mut b: usize = a + 1;
        while b < n
            invariant
                a < n,
                a < b <= n,
                n == g.nodes.len(),
                keys.len() == n,
                forall|v: int|
                    0 <= v < n ==> (#[trigger] keys[v]).deep_view() == g.nodes[v].as_parent(),
                forall|x: usize, y: usize|
                    #[trigger] pairs@.contains((x, y)) <==> (x < a && shared_pairs(g.nodes)(x, y))
                        || (x == a && y < b && shared_pairs(g.nodes)(x, y)),
            decreases n - b,
        {
            let ghost before = pairs@;
            let same = keys[a].0 == keys[b].0 && keys[a].1.0 == keys[b].1.0;
            proof {
                assert(keys[a as int].deep_view() == g.nodes[a as int].as_parent());
                assert(keys[b as int].deep_view() == g.nodes[b as int].as_parent());
                assert(same == same_key(g.nodes, a, b));
            }
            if same {
                pairs.push((a, b));
            }
            proof {
                assert forall|x: usize, y: usize|
                    #[trigger] pairs@.contains((x, y)) <==> (x < a && shared_pairs(g.nodes)(x, y))
                        || (x == a && y < b + 1 && shared_pairs(g.nodes)(x, y)) by {
                    if before.contains((x, y)) {
                        let j = choose|j: int| 0 <= j < before.len() && before[j] == (x, y);
                        assert(pairs@[j] == (x, y));
                    }
                    if same && (x, y) == (a, b) {
                        assert(pairs@[before.len() as int] == (x, y));
                    }
                    if pairs@.contains((x, y)) {
                        let j = choose|j: int| 0 <= j < pairs@.len() && pairs@[j] == (x, y);
                        if j < before.len() {
                            assert(before[j] == (x, y));
                        }
                    }
                }
            }
            b += 1;
        }
        a += 1;
    }
    join_edges(dag, &pairs, Edge::Shared, Ghost(shared_pairs(g.nodes)))
}

/// The steps from a node to each node that is layered on it by the rule of
/// its class.
pub open spec fn rule_steps(nodes: Seq<DeviceView>) -> spec_fn(usize, usize) -> bool {
    |a: usize, b: usize|
        a < nodes.len() && b < nodes.len() && child_rule(nodes[a as int], nodes[b as int])
}

/// The steps of the rules that start at a node which the rules lead to from
/// `root`.
pub open spec fn rule_steps_from(nodes: Seq<DeviceView>, root: usize) -> spec_fn(
    usize,
    usize,
) -> bool {
    |a: usize, b: usize|
        walks_to(rule_steps(nodes), nowhere(), root, a) && rule_steps(nodes)(a, b)
}

/// A list of `n` marks, none of them set.
fn no_marks(n: usize) -> (r: Vec<bool>)
    ensures
        r.len() == n,
        forall|v: int| 0 <= v < n ==> !r[v],
{
    let mut r: Vec<bool> = Vec::new();
    let mut i: usize = 0;
    while i < n
        invariant
            i <= n,
            r.len() == i,
            forall|v: int| 0 <= v < i ==> !r[v],
        decreases n - i,
    {
        r.push(false);
        i += 1;
    }
    r
}

/// All the steps of the rules over the nodes of a graph.
fn list_rule_steps(dag: &Dag) -> (r: Vec<(usize, usize)>)
    ensures
        forall|a: usize, b: usize| #[trigger] r@.contains((a, b)) <==> rule_steps(dag@.nodes)(a, b),
{
    let ghost g = dag@;
    let n = dag_node_count(dag);
    let mut r: Vec<(usize, usize)> = Vec::new();
    let mut a: usize = 0;
    while a < n
        invariant
            a <= n,
            n == g.nodes.len(),
            g == dag@,
            forall|x: usize, y: usize|
                #[trigger] r@.contains((x, y)) <==> x < a && rule_steps(g.nodes)(x, y),
        decreases n - a,
    {
        let mut b: usize = 0;
        while b < n
            invariant
                a < n,
                b <= n,
                n == g.nodes.len(),
                g == dag@,
                forall|x: usize, y: usize|
                    #[trigger] r@.contains((x, y)) <==> (x < a && rule_steps(g.nodes)(x, y)) || (x
                        == a && y < b && rule_steps(g.nodes)(x, y)),
            decreases n - b,
        {
            let ghost before = r@;
            let hit = match (dag_node_weight(dag, a), dag_node_weight(dag, b)) {
                (Some(p), Some(c)) => is_child(p, c),
                _ => false,
            };
            assert(hit == rule_steps(g.nodes)(a, b));
            if hit {
                r.push((a, b));
            }
            proof {
                assert forall|x: usize, y: usize|
                    #[trigger] r@.contains((x, y)) <==> (x < a && rule_steps(g.nodes)(x, y)) || (x
                        == a && y < b + 1 && rule_steps(g.nodes)(x, y)) by {
                    if before.contains((x, y)) {
                        let j = choose|j: int| 0 <= j < before.len() && before[j] == (x, y);
                        assert(r@[j] == (x, y));
                    }
                    if hit && (x, y) == (a, b) {
                        assert(r@[before.len() as int] == (x, y));
                    }
                    if r@.contains((x, y)) {
                        let j = choose|j: int| 0 <= j < r@.len() && r@[j] == (x, y);
                        if j < before.len() {
                            assert(before[j] == (x, y));
                        }
                    }
                }
            }
            b += 1;
        }
        a += 1;
    }
    r
}

/// The pairs of `steps` that start at a marked node.
fn steps_from_marked(steps: &Vec<(usize, usize)>, seen: &Vec<bool>) -> (r: Vec<(usize, usize)>)
    requires
        forall|k: int| 0 <= k < steps.len() ==> (#[trigger] steps[k]).0 < seen.len(),
    ensures
        forall|a: usize, b: usize|
            #[trigger] r@.contains((a, b)) <==> steps@.contains((a, b)) && seen[a as int],
{
    let mut r: Vec<(usize, usize)> = Vec::new();
    let mut k: usize = 0;
    while k < steps.len()
        invariant
            k <= steps.len(),
            forall|j: int| 0 <= j < steps.len() ==> (#[trigger] steps[j]).0 < seen.len(),
            forall|a: usize, b: usize|
                #[trigger] r@.contains((a, b)) <==> steps@.subrange(0, k as int).contains((a, b))
                    && seen[a as int],
        decreases steps.len() - k,
    {
        let ghost before = r@;
        let s = steps[k];
        if seen[s.0] {
            r.push(s);
        }
        proof {
            assert forall|a: usize, b: usize|
                #[trigger] r@.contains((a, b)) <==> steps@.subrange(0, k + 1).contains((a, b))
                    && seen[a as int] by {
                lemma_prefix_step(steps@, k as int, (a, b));
                if before.contains((a, b)) {
                    let j = choose|j: int| 0 <= j < before.len() && before[j] == (a, b);
                    assert(r@[j] == (a, b));
                }
                if seen[s.0 as int] && (a, b) == s {
                    assert(r@[before.len() as int] == (a, b));
                }
                if r@.contains((a, b)) {
                    let j = choose|j: int| 0 <= j < r@.len() && r@[j] == (a, b);
                    if j < before.len() {
                        assert(before[j] == (a, b));
                    }
                }
            }
        }
        k += 1;
    }
    assert(steps@.subrange(0, steps.len() as int) =~= steps@);
    r
}

/// Find and add parent edges to nodes in the graph: from `node_idx` to the
/// nodes layered on it, from those to the nodes layered on them, and so on.
/// Fails with `NodeNotFound` where `node_idx` is not a node and with
/// `GraphCycle` where the graph with these edges would have a cycle.
pub fn populate_parents(dag: &mut Dag, node_idx: usize) -> (r: Result<(), Error>)
    ensures
        final(dag)@.nodes == old(dag)@.nodes,
        r is Ok <==> node_idx < old(dag)@.nodes.len() && !cyclic(
            steps_plus(old(dag)@.edges, rule_steps_from(old(dag)@.nodes, node_idx)),
        ),
        r is Ok ==> final(dag)@.wf() && edges_joined(
            old(dag)@.edges,
            final(dag)@.edges,
            rule_steps_from(old(dag)@.nodes, node_idx),
            Edge::Parent,
        ),
        r is Err ==> r->Err_0 == if node_idx < old(dag)@.nodes.len() {
            Error::GraphCycle
        } else {
            Error::NodeNotFound
        },
        edges_grown(
            old(dag)@.edges,
            final(dag)@.edges,
            rule_steps_from(old(dag)@.nodes, node_idx),
            Edge::Parent,
        ),
{
    let ghost g = dag@;
    let n = dag_node_count(dag);
    if node_idx >= n {
        return Err(Error::NodeNotFound);
    }
    let rules = list_rule_steps(dag);
    let stop = no_marks(n);
    proof {
        assert forall|k: int| 0 <= k < rules.len() implies (#[trigger] rules[k]).0 < n && rules[k].1
            < n by {
            assert(rules@.contains((rules[k].0, rules[k].1)));
        }
    }
    let seen = closure(n, &rules, &stop, node_idx);
    let pairs = steps_from_marked(&rules, &seen);
    proof {
        assert forall|v: usize| v < n implies (seen[v as int] <==> walks_to(
            rule_steps(g.nodes),
            nowhere(),
            node_idx,
            v,
        )) by {
            if seen[v as int] {
                lemma_walk_mono(
                    listed(rules@),
                    marks(stop@),
                    rule_steps(g.nodes),
                    nowhere(),
                    node_idx,
                    v,
                );
            }
            if walks_to(rule_steps(g.nodes), nowhere(), node_idx, v) {
                lemma_walk_mono(
                    rule_steps(g.nodes),
                    nowhere(),
                    listed(rules@),
                    marks(stop@),
                    node_idx,
                    v,
                );
            }
        }
        assert forall|a: usize, b: usize| #[trigger]
            pairs@.contains((a, b)) <==> rule_steps_from(g.nodes, node_idx)(a, b) by {
            if rule_steps(g.nodes)(a, b) {
                assert(rules@.contains((a, b)));
            }
        }
    }
    join_edges(dag, &pairs, Edge::Parent, Ghost(rule_steps_from(g.nodes, node_idx)))
}

/// The edges of a graph that lead to a node which `root` reaches, each
/// moved up by `off` node numbers.
pub open spec fn moved_steps(edges: Seq<(usize, usize, Edge)>, root: usize, off: nat) -> spec_fn(
    usize,
    usize,
) -> bool {
    |x: usize, y: usize|
        x >= off && y >= off && has_edge(edges, (x - off) as usize, (y - off) as usize) && reaches(
            edges,
            root,
            (y - off) as usize,
        )
}

/// The edges as a list of steps.
fn list_steps(edges: &Vec<(usize, usize, Edge)>) -> (r: Vec<(usize, usize)>)
    ensures
        r.len() == edges.len(),
        forall|k: int| 0 <= k < r.len() ==> #[trigger] r[k] == (edges[k].0, edges[k].1),
        forall|a: usize, b: usize| #[trigger] r@.contains((a, b)) <==> has_edge(edges@, a, b),
{
    let mut r: Vec<(usize, usize)> = Vec::new();
    let mut k: usize = 0;
    while k < edges.len()
        invariant
            k <= edges.len(),
            r.len() == k,
            forall|j: int| 0 <= j < k ==> #[trigger] r[j] == (edges[j].0, edges[j].1),
        decreases edges.len() - k,
    {
        r.push((edges[k].0, edges[k].1));
        k += 1;
    }
    proof {
        assert forall|a: usize, b: usize| #[trigger] r@.contains((a, b)) <==> has_edge(
            edges@,
            a,
            b,
        ) by {
            if r@.contains((a, b)) {
                let j = choose|j: int| 0 <= j < r@.len() && r@[j] == (a, b);
                assert(edge_at(edges@, a, b, j));
            }
            if has_edge(edges@, a, b) {
                let j = choose|j: int| edge_at(edges@, a, b, j);
                assert(r@[j] == (a, b));
            }
        }
    }
    r
}

/// Add the subtree rooted at root of the rhs to the lhs: all the nodes of
/// `r` are put behind those of `l`, and with them the edges of `r` that lead
/// to a node which `root` reaches, as parent edges.
pub fn add(l: Dag, r: &Dag, root: usize) -> (out: Result<Dag, Error>)
    ensures
        out is Ok <==> root < r@.nodes.len() && !cyclic(
            steps_plus(l@.edges, moved_steps(r@.edges, root, l@.nodes.len())),
        ),
        out is Ok ==> {
            &&& out->Ok_0@.nodes == l@.nodes + r@.nodes
            &&& out->Ok_0@.wf()
            &&& edges_joined(
                l@.edges,
                out->Ok_0@.edges,
                moved_steps(r@.edges, root, l@.nodes.len()),
                Edge::Parent,
            )
        },
        out is Err ==> out->Err_0 == if root < r@.nodes.len() {
            Error::GraphCycle
        } else {
            Error::NodeNotFound
        },
{
    let ghost lg = l@;
    let ghost rg = r@;
    let mut l_mut = l;
    let count = dag_node_count(r);
    if root >= count {
        return Err(Error::NodeNotFound);
    }
    let off = dag_node_count(&l_mut);
    let mut i: usize = 0;
    assert(rg.nodes.subrange(0, 0) =~= Seq::<DeviceView>::empty());
    assert(l_mut@.nodes =~= lg.nodes + rg.nodes.subrange(0, 0));
    while i < count
        invariant
            i <= count,
            count == rg.nodes.len(),
            rg == r@,
            l_mut@.edges == lg.edges,
            l_mut@.nodes == lg.nodes + rg.nodes.subrange(0, i as int),
        decreases count - i,
    {
        match dag_node_weight(r, i) {
            Some(d) => {
                dag_add_node(&mut l_mut, d.clone());
                assert(rg.nodes.subrange(0, i + 1) =~= rg.nodes.subrange(0, i as int).push(
                    rg.nodes[i as int],
                ));
                assert(l_mut@.nodes =~= lg.nodes + rg.nodes.subrange(0, i + 1));
            },
            None => {
                proof {
                    assert(false);
                }
            },
        }
        i += 1;
    }
    assert(rg.nodes.subrange(0, count as int) =~= rg.nodes);
    let total = dag_node_count(&l_mut);
    assert(total == off + count);
    let edges = dag_edge_list(r);
    let steps = list_steps(&edges);
    let stop = no_marks(count);
    let seen = closure(count, &steps, &stop, root);
    proof {
        assert forall|v: usize| v < count implies (seen[v as int] <==> reaches(rg.edges, root, v)) by {
            if seen[v as int] {
                lemma_walk_mono(
                    listed(steps@),
                    marks(stop@),
                    steps_of(rg.edges),
                    nowhere(),
                    root,
                    v,
                );
            }
            if reaches(rg.edges, root, v) {
                lemma_walk_mono(
                    steps_of(rg.edges),
                    nowhere(),
                    listed(steps@),
                    marks(stop@),
                    root,
                    v,
                );
            }
        }
    }
    let ghost moved = moved_steps(rg.edges, root, off as nat);
    let mut pairs: Vec<(usize, usize)> = Vec::new();
    let mut k: usize = 0;
    while k < edges.len()
        invariant
            k <= edges.len(),
            edges@ == rg.edges,
            edges_wf(edges@, count as nat),
            off + count <= usize::MAX,
            seen.len() == count,
            forall|v: usize| v < count ==> (seen[v as int] <==> reaches(rg.edges, root, v)),
            forall|x: usize, y: usize|
                #[trigger] pairs@.contains((x, y)) <==> exists|j: int|
                    0 <= j < k && seen[(#[trigger] edges[j]).1 as int] && x == off + edges[j].0 && y
                        == off + edges[j].1,
        decreases edges.len() - k,
    {
        let e = edges[k];
        let ghost before = pairs@;
        if seen[e.1] {
            pairs.push((off + e.0, off + e.1));
        }
        proof {
            assert forall|x: usize, y: usize|
                #[trigger] pairs@.contains((x, y)) <==> exists|j: int|
                    0 <= j < k + 1 && seen[(#[trigger] edges[j]).1 as int] && x == off + edges[j].0
                        && y == off + edges[j].1 by {
                if before.contains((x, y)) {
                    let m = choose|m: int| 0 <= m < before.len() && before[m] == (x, y);
                    assert(pairs@[m] == (x, y));
                    let j = choose|j: int|
                        0 <= j < k && seen[(#[trigger] edges[j]).1 as int] && x == off + edges[j].0
                            && y == off + edges[j].1;
                    assert(0 <= j < k + 1 && seen[edges[j].1 as int]);
                }
                if seen[e.1 as int] && x == off + e.0 && y == off + e.1 {
                    assert(pairs@[before.len() as int] == (x, y));
                    assert(0 <= k < k + 1 && seen[edges[k as int].1 as int]);
                }
                if pairs@.contains((x, y)) {
                    let m = choose|m: int| 0 <= m < pairs@.len() && pairs@[m] == (x, y);
                    if m < before.len() {
                        assert(before[m] == (x, y));
                    } else {
                        assert(0 <= k < k + 1 && seen[edges[k as int].1 as int]);
                    }
                }
                if exists|j: int|
                    0 <= j < k + 1 && seen[(#[trigger] edges[j]).1 as int] && x == off + edges[j].0
                        && y == off + edges[j].1 {
                    let j = choose|j: int|
                        0 <= j < k + 1 && seen[(#[trigger] edges[j]).1 as int] && x == off
                            + edges[j].0 && y == off + edges[j].1;
                    if j < k {
                        assert(before.contains((x, y)));
                    }
                }
            }
        }
        k += 1;
    }
    proof {
        assert forall|x: usize, y: usize| #[trigger] pairs@.contains((x, y)) <==> moved(x, y) by {
            if pairs@.contains((x, y)) {
                let j = choose|j: int|
                    0 <= j < edges.len() && seen[(#[trigger] edges[j]).1 as int] && x == off
                        + edges[j].0 && y == off + edges[j].1;
                assert(edge_at(rg.edges, (x - off) as usize, (y - off) as usize, j));
            }
            if moved(x, y) {
                let a = (x - off) as usize;
                let b = (y - off) as usize;
                let j = choose|j: int| edge_at(rg.edges, a, b, j);
                assert(edges[j].1 == b && b < count);
                assert(seen[edges[j].1 as int] && x == off + edges[j].0 && y == off + edges[j].1);
            }
        }
        assert forall|x: usize, y: usize| #[trigger] moved(x, y) implies x < l_mut@.nodes.len() && y
            < l_mut@.nodes.len() by {
            let j = choose|j: int| #[trigger] edge_at(rg.edges, (x - off) as usize, (y - off) as usize, j);
            assert(edges[j].0 < count && edges[j].1 < count);
        }
    }
    match join_edges(&mut l_mut, &pairs, Edge::Parent, Ghost(moved)) {
        Ok(()) => Ok(l_mut),
        Err(e) => Err(e),
    }
}

/// The nodes that a host contributes: the host itself, then its devices.
pub open spec fn host_nodes(e: (Seq<char>, Seq<DeviceView>)) -> Seq<DeviceView> {
    seq![DeviceView::Host(e.0)] + e.1
}

/// The nodes of the graph over a list of hosts: those of the first host,
/// then those of the second, and so on.
pub open spec fn all_nodes(x: Seq<(Seq<char>, Seq<DeviceView>)>) -> Seq<DeviceView>
    decreases x.len(),
{
    if x.len() == 0 {
        Seq::empty()
    } else {
        all_nodes(x.drop_last()) + host_nodes(x.last())
    }
}

/// Node `b` is layered on node `a` of the same host, and the rules lead
/// from the host to `a`.
pub open spec fn host_step(x: Seq<(Seq<char>, Seq<DeviceView>)>, a: usize, b: usize) -> bool
    decreases x.len(),
{
    if x.len() == 0 {
        false
    } else {
        let o = all_nodes(x.drop_last()).len();
        host_step(x.drop_last(), a, b) || (a >= o && b >= o && rule_steps_from(
            host_nodes(x.last()),
            0,
        )((a - o) as usize, (b - o) as usize))
    }
}

/// The steps of the graph over a list of hosts: from a node to each node
/// that is layered on it, and between nodes that stand for the same device.
pub open spec fn graph_steps(x: Seq<(Seq<char>, Seq<DeviceView>)>) -> spec_fn(usize, usize) -> bool {
    |a: usize, b: usize| host_step(x, a, b) || shared_pairs(all_nodes(x))(a, b)
}

proof fn lemma_host_step_grows(x: Seq<(Seq<char>, Seq<DeviceView>)>, k: int, a: usize, b: usize)
    requires
        0 <= k <= x.len(),
        host_step(x.take(k), a, b),
    ensures
        host_step(x, a, b),
    decreases x.len() - k,
{
    if k == x.len() {
        assert(x.take(k) =~= x);
    } else {
        assert(x.take(k + 1).drop_last() =~= x.take(k));
        lemma_host_step_grows(x, k + 1, a, b);
    }
}

pub(crate) proof fn lemma_host_step_in_range(x: Seq<(Seq<char>, Seq<DeviceView>)>, a: usize, b: usize)
    requires
        host_step(x, a, b),
    ensures
        a < all_nodes(x).len(),
        b < all_nodes(x).len(),
    decreases x.len(),
{
    if x.len() > 0 {
        if host_step(x.drop_last(), a, b) {
            lemma_host_step_in_range(x.drop_last(), a, b);
        }
    }
}

/// The start of a walk is a walk.
proof fn lemma_walk_prefix(
    step: spec_fn(usize, usize) -> bool,
    stop: spec_fn(usize) -> bool,
    p: Seq<usize>,
    i: int,
)
    requires
        is_walk(step, stop, p),
        0 <= i < p.len(),
    ensures
        is_walk(step, stop, p.take(i + 1)),
        p.take(i + 1).first() == p.first(),
        p.take(i + 1).last() == p[i],
{
    let q = p.take(i + 1);
    assert forall|j: int| 0 <= j < q.len() - 1 implies step(#[trigger] q[j], q[j + 1]) && !stop(
        q[j],
    ) by {
        assert(q[j] == p[j] && q[j + 1] == p[j + 1]);
    }
}

/// A walk that is moved by `off` node numbers is a walk along the moved
/// steps.
proof fn lemma_walk_shift(
    step1: spec_fn(usize, usize) -> bool,
    step2: spec_fn(usize, usize) -> bool,
    off: nat,
    from: usize,
    to: usize,
)
    requires
        walks_to(step1, nowhere(), from, to),
        from + off <= usize::MAX,
        forall|a: usize, b: usize|
            #[trigger] step1(a, b) ==> a + off <= usize::MAX && b + off <= usize::MAX && step2(
                (a + off) as usize,
                (b + off) as usize,
            ),
    ensures
        to + off <= usize::MAX,
        walks_to(step2, nowhere(), (from + off) as usize, (to + off) as usize),
{
    let p = choose|p: Seq<usize>| #[trigger]
        is_walk(step1, nowhere(), p) && p.first() == from && p.last() == to;
    assert forall|i: int| 0 <= i < p.len() implies #[trigger] p[i] + off <= usize::MAX by {
        if i > 0 {
            assert(step1(p[i - 1], p[i - 1 + 1]));
        }
    }
    let q = Seq::new(p.len(), |i: int| (p[i] + off) as usize);
    assert forall|i: int| 0 <= i < q.len() - 1 implies step2(#[trigger] q[i], q[i + 1])
        && !nowhere()(q[i]) by {
        assert(step1(p[i], p[i + 1]));
    }
    assert(is_walk(step2, nowhere(), q) && q.first() == (from + off) as usize && q.last() == (to
        + off) as usize);
}

/// In a graph whose edges are the steps that the rules take from `root` on,
/// `root` reaches the end of every edge.
proof fn lemma_rule_walk_in_edges(
    nodes: Seq<DeviceView>,
    edges: Seq<(usize, usize, Edge)>,
    root: usize,
    a: usize,
    b: usize,
)
    requires
        forall|x: usize, y: usize|
            #[trigger] rule_steps_from(nodes, root)(x, y) ==> has_edge(edges, x, y),
        rule_steps_from(nodes, root)(a, b),
    ensures
        reaches(edges, root, b),
{
    let rule = rule_steps(nodes);
    let from_root = rule_steps_from(nodes, root);
    let p = choose|p: Seq<usize>| #[trigger]
        is_walk(rule, nowhere(), p) && p.first() == root && p.last() == a;
    assert forall|i: int| 0 <= i < p.len() - 1 implies from_root(#[trigger] p[i], p[i + 1])
        && !nowhere()(p[i]) by {
        lemma_walk_prefix(rule, nowhere(), p, i);
        assert(is_walk(rule, nowhere(), p.take(i + 1)) && p.take(i + 1).first() == root && p.take(
            i + 1,
        ).last() == p[i]);
        assert(rule(p[i], p[i + 1]));
    }
    assert(is_walk(from_root, nowhere(), p));
    assert(walks_to(from_root, nowhere(), root, a));
    lemma_walk_mono(from_root, nowhere(), steps_of(edges), nowhere(), root, a);
    lemma_walk_extend(steps_of(edges), nowhere(), root, a, b);
}

/// A relation that is moved by `off` node numbers closes a cycle where the
/// relation does.
proof fn lemma_cyclic_shift(
    step1: spec_fn(usize, usize) -> bool,
    step2: spec_fn(usize, usize) -> bool,
    off: nat,
)
    requires
        cyclic(step1),
        forall|a: usize, b: usize|
            #[trigger] step1(a, b) ==> a + off <= usize::MAX && b + off <= usize::MAX && step2(
                (a + off) as usize,
                (b + off) as usize,
            ),
    ensures
        cyclic(step2),
{
    let (x, y) = choose|x: usize, y: usize| #[trigger]
        step1(x, y) && walks_to(step1, nowhere(), y, x);
    lemma_walk_shift(step1, step2, off, y, x);
    assert(step2((x + off) as usize, (y + off) as usize) && walks_to(
        step2,
        nowhere(),
        (y + off) as usize,
        (x + off) as usize,
    ));
}

/// The graph of one host: the host, its devices, and the parent edges that
/// the rules give from the host on.
fn host_graph(name: &String, devices: &Vec<Device>) -> (r: Result<Dag, Error>)
    ensures
        r is Ok <==> !cyclic(rule_steps_from(host_nodes((name@, devices.deep_view())), 0)),
        r is Ok ==> {
            &&& r->Ok_0@.nodes == host_nodes((name@, devices.deep_view()))
            &&& r->Ok_0@.wf()
            &&& forall|a: usize, b: usize|
                has_edge(r->Ok_0@.edges, a, b) <==> #[trigger] rule_steps_from(r->Ok_0@.nodes, 0)(
                    a,
                    b,
                )
        },
        r is Err ==> r->Err_0 == Error::GraphCycle,
{
    let ghost nodes = host_nodes((name@, devices.deep_view()));
    let mut dag = dag_new();
    let id = dag_add_node(&mut dag, Device::Host(Host(name.clone())));
    let mut i: usize = 0;
    assert(dag@.edges =~= Seq::<(usize, usize, Edge)>::empty());
    assert(dag@.nodes =~= seq![DeviceView::Host(name@)] + devices.deep_view().subrange(0, 0));
    while i < devices.len()
        invariant
            i <= devices.len(),
            dag@.edges == Seq::<(usize, usize, Edge)>::empty(),
            dag@.nodes == seq![DeviceView::Host(name@)] + devices.deep_view().subrange(0, i as int),
        decreases devices.len() - i,
    {
        dag_add_node(&mut dag, devices[i].clone());
        assert(devices.deep_view().subrange(0, i + 1) =~= devices.deep_view().subrange(
            0,
            i as int,
        ).push(devices[i as int]@));
        assert(dag@.nodes =~= seq![DeviceView::Host(name@)] + devices.deep_view().subrange(
            0,
            i + 1,
        ));
        i += 1;
    }
    assert(devices.deep_view().subrange(0, devices.len() as int) =~= devices.deep_view());
    let ghost from_host = rule_steps_from(nodes, 0);
    let ghost none = Seq::<(usize, usize, Edge)>::empty();
    let r = populate_parents(&mut dag, id);
    proof {
        if cyclic(steps_plus(none, from_host)) {
            lemma_cyclic_mono(steps_plus(none, from_host), from_host);
        }
        if cyclic(from_host) {
            lemma_cyclic_mono(from_host, steps_plus(none, from_host));
        }
        if r is Ok {
            assert forall|a: usize, b: usize|
                has_edge(dag@.edges, a, b) <==> #[trigger] from_host(a, b) by {
                if has_edge(dag@.edges, a, b) {
                    let j = choose|j: int| edge_at(dag@.edges, a, b, j);
                    assert(dag@.edges.contains(dag@.edges[j]));
                }
                if from_host(a, b) {
                    assert(dag@.edges.contains((a, b, Edge::Parent)));
                    let j = choose|j: int|
                        0 <= j < dag@.edges.len() && dag@.edges[j] == (a, b, Edge::Parent);
                    assert(edge_at(dag@.edges, a, b, j));
                }
            }
        }
    }
    match r {
        Ok(()) => Ok(dag),
        Err(e) => Err(e),
    }
}

/// The steps from a node to each node that is layered on it, over a list
/// of hosts.
pub open spec fn host_steps(x: Seq<(Seq<char>, Seq<DeviceView>)>) -> spec_fn(usize, usize) -> bool {
    |a: usize, b: usize| host_step(x, a, b)
}

/// The graph holds the hosts of a list with their devices, and the parent
/// edges that the rules give, and nothing else.
pub open spec fn holds_hosts(g: Graph, x: Seq<(Seq<char>, Seq<DeviceView>)>) -> bool {
    &&& g.nodes == all_nodes(x)
    &&& forall|e: (usize, usize, Edge)| #[trigger]
        g.edges.contains(e) ==> e.2 == Edge::Parent && host_step(x, e.0, e.1)
    &&& forall|a: usize, b: usize| #[trigger]
        host_step(x, a, b) ==> g.edges.contains((a, b, Edge::Parent))
}

/// A cycle among the nodes of the last host is a cycle of the whole list.
proof fn lemma_host_cycle(x: Seq<(Seq<char>, Seq<DeviceView>)>)
    requires
        x.len() > 0,
        all_nodes(x).len() <= usize::MAX,
        cyclic(rule_steps_from(host_nodes(x.last()), 0)),
    ensures
        cyclic(host_steps(x)),
{
    let off = all_nodes(x.drop_last()).len();
    let from_host = rule_steps_from(host_nodes(x.last()), 0);
    assert forall|a: usize, b: usize| #[trigger] from_host(a, b) implies a + off <= usize::MAX && b
        + off <= usize::MAX && host_steps(x)((a + off) as usize, (b + off) as usize) by {
        assert(((a + off) as usize - off) as usize == a);
        assert(((b + off) as usize - off) as usize == b);
    }
    lemma_cyclic_shift(from_host, host_steps(x), off);
}

/// The steps of the graph so far, with those of the graph of the last host
/// moved behind it, are steps of the whole list.
proof fn lemma_moved_are_host_steps(
    x: Seq<(Seq<char>, Seq<DeviceView>)>,
    before: Graph,
    sub: Graph,
    a: usize,
    b: usize,
)
    requires
        x.len() > 0,
        holds_hosts(before, x.drop_last()),
        sub.nodes == host_nodes(x.last()),
        forall|p: usize, q: usize|
            has_edge(sub.edges, p, q) <==> #[trigger] rule_steps_from(sub.nodes, 0)(p, q),
        steps_plus(before.edges, moved_steps(sub.edges, 0, before.nodes.len()))(a, b),
    ensures
        host_step(x, a, b),
{
    let off = before.nodes.len();
    if has_edge(before.edges, a, b) {
        let j = choose|j: int| edge_at(before.edges, a, b, j);
        assert(before.edges.contains(before.edges[j]));
    } else {
        assert(rule_steps_from(sub.nodes, 0)((a - off) as usize, (b - off) as usize));
    }
}

/// After the graph of the last host was put behind the graph so far, the
/// graph holds the hosts of the whole list.
proof fn lemma_holds_after_add(
    x: Seq<(Seq<char>, Seq<DeviceView>)>,
    before: Graph,
    sub: Graph,
    after: Graph,
)
    requires
        x.len() > 0,
        holds_hosts(before, x.drop_last()),
        sub.nodes == host_nodes(x.last()),
        forall|p: usize, q: usize|
            has_edge(sub.edges, p, q) <==> #[trigger] rule_steps_from(sub.nodes, 0)(p, q),
        after.nodes == before.nodes + sub.nodes,
        edges_joined(
            before.edges,
            after.edges,
            moved_steps(sub.edges, 0, before.nodes.len()),
            Edge::Parent,
        ),
    ensures
        holds_hosts(after, x),
{
    let off = before.nodes.len();
    let moved = moved_steps(sub.edges, 0, off);
    assert(after.nodes =~= all_nodes(x));
    assert forall|e: (usize, usize, Edge)| #[trigger] after.edges.contains(e) implies e.2
        == Edge::Parent && host_step(x, e.0, e.1) by {
        if !before.edges.contains(e) {
            assert(moved(e.0, e.1));
            assert(steps_plus(before.edges, moved)(e.0, e.1));
            lemma_moved_are_host_steps(x, before, sub, e.0, e.1);
        }
    }
    assert forall|a: usize, b: usize| #[trigger] host_step(x, a, b) implies after.edges.contains(
        (a, b, Edge::Parent),
    ) by {
        if host_step(x.drop_last(), a, b) {
            assert(before.edges.contains((a, b, Edge::Parent)));
            if !after.edges.contains((a, b, Edge::Parent)) {
                assert(moved(a, b));
            }
        } else {
            let a0 = (a - off) as usize;
            let b0 = (b - off) as usize;
            assert(rule_steps_from(sub.nodes, 0)(a0, b0));
            lemma_rule_walk_in_edges(sub.nodes, sub.edges, 0, a0, b0);
            assert(moved(a, b));
        }
    }
}

/// Puts a host with its devices behind the graph of the hosts before it.
fn add_host(
    acc: Dag,
    entry: &(String, Vec<Device>),
    Ghost(x): Ghost<Seq<(Seq<char>, Seq<DeviceView>)>>,
) -> (r: Result<Dag, Error>)
    requires
        x.len() > 0,
        x.last() == entry.deep_view(),
        holds_hosts(acc@, x.drop_last()),
    ensures
        r is Ok ==> holds_hosts(r->Ok_0@, x),
        r is Err ==> r->Err_0 == Error::GraphCycle,
        r is Err && all_nodes(x).len() <= usize::MAX ==> cyclic(host_steps(x)),
{
    let ghost before = acc@;
    match host_graph(&entry.0, &entry.1) {
        Err(e) => {
            proof {
                if all_nodes(x).len() <= usize::MAX {
                    lemma_host_cycle(x);
                }
            }
            Err(e)
        },
        Ok(sub) => {
            let ghost moved = moved_steps(sub@.edges, 0, before.nodes.len());
            match self::add(acc, &sub, 0) {
                Err(e) => {
                    proof {
                        assert forall|a: usize, b: usize| #[trigger]
                            steps_plus(before.edges, moved)(a, b) implies host_steps(x)(a, b) by {
                            lemma_moved_are_host_steps(x, before, sub@, a, b);
                        }
                        lemma_cyclic_mono(steps_plus(before.edges, moved), host_steps(x));
                    }
                    Err(e)
                },
                Ok(next) => {
                    proof {
                        lemma_holds_after_add(x, before, sub@, next@);
                    }
                    Ok(next)
                },
            }
        },
    }
}

/// What the graph over a list of hosts looks like: its nodes are the hosts
/// with their devices, a parent edge joins two nodes exactly where the
/// rules say so (unless a shared edge joins those nodes), and a shared edge
/// joins two distinct nodes exactly where they have the same type and
/// serial.
pub open spec fn is_graph_of(g: Graph, x: Seq<(Seq<char>, Seq<DeviceView>)>) -> bool {
    &&& g.nodes == all_nodes(x)
    &&& g.wf()
    &&& forall|a: usize, b: usize| #[trigger]
        g.shared_with(a, b) <==> a != b && same_key(g.nodes, a, b)
    &&& forall|a: usize, b: usize| #[trigger] g.parent_of(a, b) ==> host_step(x, a, b)
    &&& forall|a: usize, b: usize| #[trigger]
        host_step(x, a, b) ==> g.parent_of(a, b) || g.shared_with(a, b)
}

/// Once the shared edges are added to a graph that had none, two nodes
/// share an edge exactly if they are distinct and have the same type and
/// serial.
pub proof fn law_shared_edges_partition(before: Graph, after: Graph)
    requires
        after.nodes == before.nodes,
        forall|e: (usize, usize, Edge)| #[trigger] before.edges.contains(e) ==> e.2 == Edge::Parent,
        edges_joined(before.edges, after.edges, shared_pairs(before.nodes), Edge::Shared),
    ensures
        forall|a: usize, b: usize| #[trigger]
            after.shared_with(a, b) <==> a != b && same_key(after.nodes, a, b),
{
    let shared = shared_pairs(before.nodes);
    assert forall|a: usize, b: usize| #[trigger]
        after.shared_with(a, b) <==> a != b && same_key(after.nodes, a, b) by {
        if after.edges.contains((a, b, Edge::Shared)) {
            assert(!before.edges.contains((a, b, Edge::Shared)));
            assert(shared(a, b));
        }
        if after.edges.contains((b, a, Edge::Shared)) {
            assert(!before.edges.contains((b, a, Edge::Shared)));
            assert(shared(b, a));
        }
        if a != b && same_key(after.nodes, a, b) {
            if a < b {
                assert(shared(a, b));
            } else {
                assert(shared(b, a));
            }
        }
    }
}

/// One place of the edge list joins `a` and `b`: it leads from `a` to `b`
/// and holds an edge of the given kind.
pub open spec fn joined_once(edges: Seq<(usize, usize, Edge)>, a: usize, b: usize, kind: Edge) -> bool {
    exists|i: int|
        {
            &&& #[trigger] edge_at(edges, a, b, i)
            &&& edges[i].2 == kind
            &&& forall|j: int| #[trigger] edge_at(edges, a, b, j) ==> j == i
            &&& forall|j: int| !#[trigger] edge_at(edges, b, a, j)
        }
}

/// Once the shared edges are added to a graph that had none, the shared
/// edges are the pairs of distinct nodes with the same type and serial, each
/// stored once: one place of the edge list joins the two nodes of a pair,
/// from the lower number to the higher, and every shared edge joins such a
/// pair. So `k` nodes that stand for one device are joined by `k * (k - 1) /
/// 2` shared edges.
pub proof fn law_shared_edges_stored_once(before: Graph, after: Graph)
    requires
        after.nodes == before.nodes,
        after.wf(),
        forall|e: (usize, usize, Edge)| #[trigger] before.edges.contains(e) ==> e.2 == Edge::Parent,
        edges_joined(before.edges, after.edges, shared_pairs(before.nodes), Edge::Shared),
    ensures
        forall|a: usize, b: usize|
            a < b && same_key(after.nodes, a, b) ==> #[trigger] joined_once(
                after.edges,
                a,
                b,
                Edge::Shared,
            ),
        forall|e: (usize, usize, Edge)|
            #[trigger] after.edges.contains(e) && e.2 == Edge::Shared ==> e.0 < e.1 && same_key(
                after.nodes,
                e.0,
                e.1,
            ),
{
    let shared = shared_pairs(before.nodes);
    assert forall|a: usize, b: usize| a < b && same_key(after.nodes, a, b) implies #[trigger] joined_once(
        after.edges,
        a,
        b,
        Edge::Shared,
    ) by {
        assert(shared(a, b));
        assert(after.edges.contains((a, b, Edge::Shared)));
        let i = choose|i: int| 0 <= i < after.edges.len() && after.edges[i] == (a, b, Edge::Shared);
        assert(edge_at(after.edges, a, b, i));
        assert forall|j: int| #[trigger] edge_at(after.edges, a, b, j) implies j == i by {
            if j < i {
                assert(!(after.edges[j].0 == after.edges[i].0 && after.edges[j].1
                    == after.edges[i].1));
            } else if i < j {
                assert(!(after.edges[i].0 == after.edges[j].0 && after.edges[i].1
                    == after.edges[j].1));
            }
        }
        assert forall|j: int| !#[trigger] edge_at(after.edges, b, a, j) by {
            if edge_at(after.edges, b, a, j) {
                // an edge back from b to a would close a cycle
                let step = steps_of(after.edges);
                assert(step(b, a));
                lemma_walk_self(step, nowhere(), b);
                lemma_walk_extend(step, nowhere(), b, b, a);
                assert(!reaches(after.edges, after.edges[i].1, after.edges[i].0));
            }
        }
    }
    assert forall|e: (usize, usize, Edge)| #[trigger]
        after.edges.contains(e) && e.2 == Edge::Shared implies e.0 < e.1 && same_key(
        after.nodes,
        e.0,
        e.1,
    ) by {
        if before.edges.contains(e) {
            assert(e.2 == Edge::Parent);
        } else {
            assert(shared(e.0, e.1));
        }
    }
}

/// After the shared edges were added to a graph that holds the hosts of a
/// list, the graph is the graph of the list.
proof fn lemma_graph_after_shared(
    x: Seq<(Seq<char>, Seq<DeviceView>)>,
    before: Graph,
    g: Graph,
)
    requires
        holds_hosts(before, x),
        g.nodes == before.nodes,
        g.wf(),
        edges_joined(before.edges, g.edges, shared_pairs(before.nodes), Edge::Shared),
    ensures
        is_graph_of(g, x),
{
    let shared = shared_pairs(before.nodes);
    law_shared_edges_partition(before, g);
    assert forall|a: usize, b: usize| #[trigger] g.parent_of(a, b) implies host_step(x, a, b) by {
        assert(g.edges.contains((a, b, Edge::Parent)));
        assert(before.edges.contains((a, b, Edge::Parent)));
    }
    assert forall|a: usize, b: usize| #[trigger] host_step(x, a, b) implies g.parent_of(a, b)
        || g.shared_with(a, b) by {
        assert(before.edges.contains((a, b, Edge::Parent)));
        if !g.edges.contains((a, b, Edge::Parent)) {
            assert(shared(a, b));
            assert(g.edges.contains((a, b, Edge::Shared)));
        }
    }
}

/// The steps of a graph that holds the hosts of a list, with the shared
/// pairs, are the steps of the graph of the list.
proof fn lemma_steps_with_shared(x: Seq<(Seq<char>, Seq<DeviceView>)>, before: Graph)
    requires
        holds_hosts(before, x),
    ensures
        cyclic(steps_plus(before.edges, shared_pairs(before.nodes))) <==> cyclic(graph_steps(x)),
{
    let joined = steps_plus(before.edges, shared_pairs(before.nodes));
    assert forall|a: usize, b: usize| #[trigger] joined(a, b) implies graph_steps(x)(a, b) by {
        if has_edge(before.edges, a, b) {
            let j = choose|j: int| edge_at(before.edges, a, b, j);
            assert(before.edges.contains(before.edges[j]));
        }
    }
    assert forall|a: usize, b: usize| #[trigger] graph_steps(x)(a, b) implies joined(a, b) by {
        if host_step(x, a, b) {
            assert(before.edges.contains((a, b, Edge::Parent)));
            let j = choose|j: int|
                0 <= j < before.edges.len() && before.edges[j] == (a, b, Edge::Parent);
            assert(edge_at(before.edges, a, b, j));
        }
    }
    if cyclic(joined) {
        lemma_cyclic_mono(joined, graph_steps(x));
    }
    if cyclic(graph_steps(x)) {
        lemma_cyclic_mono(graph_steps(x), joined);
    }
}

/// A cycle among the first hosts of a list is a cycle of the graph of the
/// list.
proof fn lemma_prefix_cycle(x: Seq<(Seq<char>, Seq<DeviceView>)>, k: int)
    requires
        0 <= k <= x.len(),
        cyclic(host_steps(x.take(k))),
    ensures
        cyclic(graph_steps(x)),
{
    assert forall|a: usize, b: usize| #[trigger] host_steps(x.take(k))(a, b) implies graph_steps(
        x,
    )(a, b) by {
        lemma_host_step_grows(x, k, a, b);
    }
    lemma_cyclic_mono(host_steps(x.take(k)), graph_steps(x));
}

/// Builds the graph over a list of hosts, each with its devices. Fails
/// with `GraphCycle` where the parent and shared edges would close a cycle.
///
/// The nodes are numbered by machine integers. The first clause speaks of
/// lists whose nodes can all be numbered, which is every list that fits in
/// memory.
pub fn dag_of_hosts(x: &Vec<(String, Vec<Device>)>) -> (r: Result<Dag, Error>)
    ensures
        all_nodes(x.deep_view()).len() <= usize::MAX ==> (r is Ok <==> !cyclic(
            graph_steps(x.deep_view()),
        )),
        r is Ok ==> is_graph_of(r->Ok_0@, x.deep_view()),
        r is Err ==> r->Err_0 == Error::GraphCycle,
{
    let ghost xv = x.deep_view();
    let mut acc = dag_new();
    let mut k: usize = 0;
    let mut ok = true;
    proof {
        assert(xv.take(0) =~= Seq::<(Seq<char>, Seq<DeviceView>)>::empty());
        assert(acc@.nodes =~= all_nodes(xv.take(0)));
        assert(acc@.edges =~= Seq::<(usize, usize, Edge)>::empty());
    }
    while k < x.len() && ok
        invariant
            k <= x.len(),
            xv == x.deep_view(),
            ok ==> holds_hosts(acc@, xv.take(k as int)),
            !ok && all_nodes(xv).len() <= usize::MAX ==> cyclic(graph_steps(xv)),
        decreases
                x.len() - k,
                if ok {
                    1nat
                } else {
                    0nat
                },
    {
        let ghost here = xv.take(k + 1);
        proof {
            assert(here.drop_last() =~= xv.take(k as int));
            assert(here.last() == x[k as int].deep_view());
            lemma_all_nodes_grow(xv, k + 1);
        }
        match add_host(acc, &x[k], Ghost(here)) {
            Ok(next) => {
                acc = next;
                k += 1;
            },
            Err(_) => {
                proof {
                    if all_nodes(xv).len() <= usize::MAX {
                        lemma_prefix_cycle(xv, k + 1);
                    }
                }
                acc = dag_new();
                ok = false;
            },
        }
    }
    if !ok {
        return Err(Error::GraphCycle);
    }
    let ghost before = acc@;
    proof {
        assert(xv.take(x.len() as int) =~= xv);
        lemma_steps_with_shared(xv, before);
    }
    match add_shared_edges(&mut acc) {
        Ok(()) => {
            proof {
                lemma_graph_after_shared(xv, before, acc@);
            }
            Ok(acc)
        },
        Err(e) => Err(e),
    }
}

/// The first hosts of a list have no more nodes than all of them.
proof fn lemma_all_nodes_grow(x: Seq<(Seq<char>, Seq<DeviceView>)>, k: int)
    requires
        0 <= k <= x.len(),
    ensures
        all_nodes(x.take(k)).len() <= all_nodes(x).len(),
    decreases x.len() - k,
{
    if k == x.len() {
        assert(x.take(k) =~= x);
    } else {
        assert(x.take(k + 1).drop_last() =~= x.take(k));
        lemma_all_nodes_grow(x, k + 1);
    }
}

/// The hosts that a map holds, each with the set of its devices.
pub uninterp spec fn host_map(
    x: std::collections::HashMap<String, im::HashSet<Device>>,
) -> Map<Seq<char>, Set<DeviceView>>;

/// `r` lists the hosts of `m`: each host once, with a list of its devices
/// in which each device occurs once.
pub open spec fn lists_hosts(
    r: Seq<(Seq<char>, Seq<DeviceView>)>,
    m: Map<Seq<char>, Set<DeviceView>>,
) -> bool {
    &&& forall|i: int|
        0 <= i < r.len() ==> m.contains_key((#[trigger] r[i]).0) && crate::state::lists_set(
            r[i].1,
            m[r[i].0],
        )
    &&& forall|k: Seq<char>| m.contains_key(k) ==> exists|i: int| 0 <= i < r.len() && (#[trigger] r[i]).0 == k
    &&& forall|i: int, j: int| 0 <= i < j < r.len() ==> (#[trigger] r[i]).0 != (#[trigger] r[j]).0
}

/// `IntoIterator` of `std::collections::HashMap` and of `im::HashSet`: the
/// entries of the map, each key once, and with each key the members of its
/// set, each once. Neither promises an order.
#[verifier::external_body]
fn host_entries(x: std::collections::HashMap<String, im::HashSet<Device>>) -> (r: Vec<
    (String, Vec<Device>),
>)
    ensures
        lists_hosts(r.deep_view(), host_map(x)),
{
    x.into_iter().map(|(host, xs)| (host, xs.into_iter().collect())).collect()
}

/// Builds the graph over the hosts of a map. The map and its sets have no
/// order, so the numbers of the nodes are those of some listing.
pub fn into_dag(x: std::collections::HashMap<String, im::HashSet<Device>>) -> (r: Result<
    Dag,
    Error,
>)
    ensures
        exists|es: Seq<(Seq<char>, Seq<DeviceView>)>|
            {
                &&& #[trigger] lists_hosts(es, host_map(x))
                &&& all_nodes(es).len() <= usize::MAX ==> (r is Ok <==> !cyclic(graph_steps(es)))
                &&& r is Ok ==> is_graph_of(r->Ok_0@, es)
            },
        r is Err ==> r->Err_0 == Error::GraphCycle,
{
    let entries = host_entries(x);
    let r = dag_of_hosts(&entries);
    assert(lists_hosts(entries.deep_view(), host_map(x)));
    r
}

} // verus!
