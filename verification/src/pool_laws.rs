//! What holds of a pool that no block device of its host holds: it is a
//! node of the graph, no parent edge meets it, and the other nodes have the
//! parent edges that they have without it.

use crate::assemble::{
    all_nodes, host_nodes, host_step, is_graph_of, rule_steps, rule_steps_from,
};
use crate::assemble::same_key;
use crate::dag::{child_rule, edge_at, nowhere, reaches, steps_of, Edge, Graph};
use crate::node::DeviceView;
use crate::reach::{is_walk, lemma_walk_extend, lemma_walk_self, walks_to};
use vstd::prelude::*;

verus! {

/// `p` is a block device that `z` names as one that it is layered on.
pub open spec fn holds(p: DeviceView, z: DeviceView) -> bool {
    z.parents().contains(p.as_parent()) && (p is ScsiDevice || p is Partition || p is Mpath
        || p is MdRaid || p is LogicalVolume)
}

/// None of the devices holds the device at place `i` among them.
pub open spec fn unheld(devices: Seq<DeviceView>, i: int) -> bool {
    forall|a: int| #![trigger devices[a]] 0 <= a < devices.len() ==> !holds(devices[a], devices[i])
}

/// The number of the node of host `k` in the graph over the hosts `x`.
pub open spec fn host_place(x: Seq<(Seq<char>, Seq<DeviceView>)>, k: int) -> int {
    all_nodes(x.take(k)).len() as int
}

/// The number of the node of device `i` of host `k` in the graph over the
/// hosts `x`.
pub open spec fn place(x: Seq<(Seq<char>, Seq<DeviceView>)>, k: int, i: int) -> int {
    host_place(x, k) + 1 + i
}

/// The nodes of the first hosts are the first nodes.
proof fn lemma_nodes_prefix(x: Seq<(Seq<char>, Seq<DeviceView>)>, k: int)
    requires
        0 <= k <= x.len(),
    ensures
        host_place(x, k) <= all_nodes(x).len(),
        all_nodes(x).take(host_place(x, k)) =~= all_nodes(x.take(k)),
    decreases x.len() - k,
{
    if k == x.len() {
        assert(x.take(k) =~= x);
    } else {
        assert(x.take(k + 1).drop_last() =~= x.take(k));
        lemma_nodes_prefix(x, k + 1);
    }
}

/// The nodes of host `k` follow those of the hosts before it.
proof fn lemma_host_nodes_at(x: Seq<(Seq<char>, Seq<DeviceView>)>, k: int)
    requires
        0 <= k < x.len(),
    ensures
        host_place(x, k + 1) == host_place(x, k) + 1 + x[k].1.len(),
        host_place(x, k + 1) <= all_nodes(x).len(),
        forall|j: int|
            0 <= j <= x[k].1.len() ==> #[trigger] all_nodes(x)[host_place(x, k) + j] == host_nodes(
                x[k],
            )[j],
{
    assert(x.take(k + 1).drop_last() =~= x.take(k));
    lemma_nodes_prefix(x, k + 1);
    assert forall|j: int| 0 <= j <= x[k].1.len() implies #[trigger] all_nodes(x)[host_place(x, k)
        + j] == host_nodes(x[k])[j] by {
        assert(all_nodes(x).take(host_place(x, k + 1))[host_place(x, k) + j] == all_nodes(
            x.take(k + 1),
        )[host_place(x, k) + j]);
    }
}

/// The hosts stand in the graph in their order.
proof fn lemma_host_places_grow(x: Seq<(Seq<char>, Seq<DeviceView>)>, j: int, k: int)
    requires
        0 <= j <= k <= x.len(),
    ensures
        host_place(x, j) <= host_place(x, k),
{
    assert(x.take(k).take(j) =~= x.take(j));
    lemma_nodes_prefix(x.take(k), j);
}

/// A step of the rules is a step among the nodes of one host, and the rules
/// lead from that host to where the step starts.
proof fn lemma_step_of_a_host(x: Seq<(Seq<char>, Seq<DeviceView>)>, a: usize, b: usize) -> (k: int)
    requires
        host_step(x, a, b),
    ensures
        0 <= k < x.len(),
        host_place(x, k) <= a < host_place(x, k + 1),
        host_place(x, k) <= b < host_place(x, k + 1),
        rule_steps_from(host_nodes(x[k]), 0)(
            (a - host_place(x, k)) as usize,
            (b - host_place(x, k)) as usize,
        ),
    decreases x.len(),
{
    if host_step(x.drop_last(), a, b) {
        let k = lemma_step_of_a_host(x.drop_last(), a, b);
        assert(x.drop_last().take(k) =~= x.take(k));
        assert(x.drop_last().take(k + 1) =~= x.take(k + 1));
        k
    } else {
        let k = x.len() - 1;
        assert(x.take(k) =~= x.drop_last());
        lemma_host_nodes_at(x, k);
        k
    }
}

/// The host of a node is the one between whose place and the next host's
/// the node stands.
proof fn lemma_one_host(x: Seq<(Seq<char>, Seq<DeviceView>)>, j: int, k: int, z: int)
    requires
        0 <= j < x.len(),
        0 <= k < x.len(),
        host_place(x, j) <= z < host_place(x, j + 1),
        host_place(x, k) <= z < host_place(x, k + 1),
    ensures
        j == k,
{
    if j < k {
        lemma_host_places_grow(x, j + 1, k);
    } else if k < j {
        lemma_host_places_grow(x, k + 1, j);
    }
}

/// No step of the rules leads to a pool that no device of its host holds,
/// and the rules do not lead to it from the host.
proof fn lemma_nothing_leads_to(e: (Seq<char>, Seq<DeviceView>), i: int, z: usize)
    requires
        0 <= i < e.1.len(),
        e.1[i] is Zpool,
        unheld(e.1, i),
        z == 1 + i,
    ensures
        forall|a: usize| !#[trigger] rule_steps(host_nodes(e))(a, z),
        !walks_to(rule_steps(host_nodes(e)), nowhere(), 0, z),
{
    let ns = host_nodes(e);
    assert forall|a: usize| !#[trigger] rule_steps(ns)(a, z) by {
        if rule_steps(ns)(a, z) {
            assert(ns[z as int] == e.1[i]);
            if a > 0 {
                assert(ns[a as int] == e.1[a - 1]);
                assert(!holds(e.1[a - 1], e.1[i]));
            }
            assert(child_rule(ns[a as int], ns[z as int]));
        }
    }
    if walks_to(rule_steps(ns), nowhere(), 0, z) {
        let p = choose|p: Seq<usize>| #[trigger]
            is_walk(rule_steps(ns), nowhere(), p) && p.first() == 0 && p.last() == z;
        let n = p.len() - 2;
        assert(rule_steps(ns)(p[n], p[n + 1]));
    }
}

/// A pool that no block device of its host holds is a node of the graph,
/// and no parent edge leads to it or from it: not from a block device, not
/// from the host, and not to its datasets.
pub proof fn law_unheld_pool_is_a_node_without_parent(
    g: Graph,
    x: Seq<(Seq<char>, Seq<DeviceView>)>,
    k: int,
    i: int,
)
    requires
        is_graph_of(g, x),
        0 <= k < x.len(),
        0 <= i < x[k].1.len(),
        x[k].1[i] is Zpool,
        unheld(x[k].1, i),
    ensures
        0 <= place(x, k, i) < g.nodes.len(),
        g.nodes[place(x, k, i)] == x[k].1[i],
        forall|a: usize, b: usize| #[trigger]
            g.parent_of(a, b) ==> a != place(x, k, i) && b != place(x, k, i),
{
    let z = place(x, k, i);
    lemma_host_nodes_at(x, k);
    assert(all_nodes(x)[host_place(x, k) + (1 + i)] == host_nodes(x[k])[1 + i]);
    assert forall|a: usize, b: usize| #[trigger] g.parent_of(a, b) implies a != z && b != z by {
        assert(host_step(x, a, b));
        let j = lemma_step_of_a_host(x, a, b);
        if a == z || b == z {
            lemma_one_host(x, j, k, z);
            let from = (a - host_place(x, k)) as usize;
            let to = (b - host_place(x, k)) as usize;
            lemma_nothing_leads_to(x[k], i, (1 + i) as usize);
            assert(rule_steps(host_nodes(x[k]))(from, to));
            assert(walks_to(rule_steps(host_nodes(x[k])), nowhere(), 0, from));
        }
    }
}

/// The hosts `x` without device `i` of host `k`.
pub open spec fn without(x: Seq<(Seq<char>, Seq<DeviceView>)>, k: int, i: int) -> Seq<
    (Seq<char>, Seq<DeviceView>),
> {
    x.update(k, (x[k].0, x[k].1.remove(i)))
}

/// The number that node `a` has once the node at place `z` is taken out of
/// the graph.
pub open spec fn back(z: int, a: usize) -> usize {
    if a > z {
        (a - 1) as usize
    } else {
        a
    }
}

/// The number that node `a` has once a node is put in at place `z`.
spec fn ahead(z: int, a: usize) -> usize {
    if a < z {
        a
    } else {
        (a + 1) as usize
    }
}

/// Among the nodes of one host, the steps of the rules between the nodes
/// other than an unheld pool are those between the nodes without it.
proof fn lemma_rule_steps_without(e: (Seq<char>, Seq<DeviceView>), i: int, u: usize, v: usize)
    requires
        0 <= i < e.1.len(),
        u != 1 + i,
        v != 1 + i,
    ensures
        rule_steps(host_nodes(e))(u, v) <==> rule_steps(host_nodes((e.0, e.1.remove(i))))(
            back(1 + i, u),
            back(1 + i, v),
        ),
{
    let ns = host_nodes(e);
    let ms = host_nodes((e.0, e.1.remove(i)));
    assert(ms.len() == ns.len() - 1);
    if u < ns.len() {
        assert(ms[back(1 + i, u) as int] == ns[u as int]);
    }
    if v < ns.len() {
        assert(ms[back(1 + i, v) as int] == ns[v as int]);
    }
}

/// Where the rules lead to from a host, they lead to without an unheld pool
/// among its devices.
proof fn lemma_walk_without(e: (Seq<char>, Seq<DeviceView>), i: int, z: usize, a: usize)
    requires
        0 <= i < e.1.len(),
        e.1[i] is Zpool,
        unheld(e.1, i),
        z == 1 + i,
        a != z,
        walks_to(rule_steps(host_nodes(e)), nowhere(), 0, a),
    ensures
        walks_to(rule_steps(host_nodes((e.0, e.1.remove(i)))), nowhere(), 0, back(1 + i, a)),
{
    let ns = host_nodes(e);
    let ms = host_nodes((e.0, e.1.remove(i)));
    let p = choose|p: Seq<usize>| #[trigger]
        is_walk(rule_steps(ns), nowhere(), p) && p.first() == 0 && p.last() == a;
    lemma_nothing_leads_to(e, i, z);
    assert forall|t: int| 0 <= t < p.len() implies #[trigger] p[t] != z by {
        if t > 0 {
            assert(rule_steps(ns)(p[t - 1], p[t - 1 + 1]));
        }
    }
    let q = Seq::new(p.len(), |t: int| back(1 + i, p[t]));
    assert forall|t: int| 0 <= t < q.len() - 1 implies rule_steps(ms)(#[trigger] q[t], q[t + 1])
        && !nowhere()(q[t]) by {
        assert(rule_steps(ns)(p[t], p[t + 1]));
        assert(p[t] != z && p[t + 1] != z);
        lemma_rule_steps_without(e, i, p[t], p[t + 1]);
    }
    assert(is_walk(rule_steps(ms), nowhere(), q) && q.first() == 0 && q.last() == back(1 + i, a));
}

/// Where the rules lead to from a host without one of its devices, they
/// lead to with it.
proof fn lemma_walk_with(e: (Seq<char>, Seq<DeviceView>), i: int, z: usize, a: usize)
    requires
        0 <= i < e.1.len(),
        e.1.len() < usize::MAX,
        z == 1 + i,
        a != z,
        walks_to(rule_steps(host_nodes((e.0, e.1.remove(i)))), nowhere(), 0, back(1 + i, a)),
    ensures
        walks_to(rule_steps(host_nodes(e)), nowhere(), 0, a),
{
    let ns = host_nodes(e);
    let ms = host_nodes((e.0, e.1.remove(i)));
    let q = choose|q: Seq<usize>| #[trigger]
        is_walk(rule_steps(ms), nowhere(), q) && q.first() == 0 && q.last() == back(1 + i, a);
    let p = Seq::new(q.len(), |t: int| ahead(1 + i, q[t]));
    assert forall|t: int| 0 <= t < q.len() - 1 implies #[trigger] q[t] < ms.len() && q[t + 1]
        < ms.len() by {
        assert(rule_steps(ms)(q[t], q[t + 1]));
    }
    assert forall|t: int| 0 <= t < p.len() - 1 implies rule_steps(ns)(#[trigger] p[t], p[t + 1])
        && !nowhere()(p[t]) by {
        assert(rule_steps(ms)(q[t], q[t + 1]));
        assert(back(1 + i, p[t]) == q[t]);
        assert(back(1 + i, p[t + 1]) == q[t + 1]);
        lemma_rule_steps_without(e, i, p[t], p[t + 1]);
    }
    assert(p.last() == a) by {
        assert(ahead(1 + i, back(1 + i, a)) == a);
    }
    assert(is_walk(rule_steps(ns), nowhere(), p) && p.first() == 0 && p.last() == a);
}

/// Among the nodes of one host, the parent steps between the nodes other
/// than an unheld pool are those between the nodes without it.
proof fn lemma_host_without(e: (Seq<char>, Seq<DeviceView>), i: int, z: usize, a: usize, b: usize)
    requires
        0 <= i < e.1.len(),
        e.1.len() < usize::MAX,
        e.1[i] is Zpool,
        unheld(e.1, i),
        z == 1 + i,
        a != z,
        b != z,
    ensures
        rule_steps_from(host_nodes(e), 0)(a, b) <==> rule_steps_from(
            host_nodes((e.0, e.1.remove(i))),
            0,
        )(back(1 + i, a), back(1 + i, b)),
{
    lemma_rule_steps_without(e, i, a, b);
    if walks_to(rule_steps(host_nodes(e)), nowhere(), 0, a) {
        lemma_walk_without(e, i, z, a);
    }
    if walks_to(rule_steps(host_nodes((e.0, e.1.remove(i)))), nowhere(), 0, back(1 + i, a)) {
        lemma_walk_with(e, i, z, a);
    }
}

/// The nodes of the hosts without a device are the nodes without that of
/// the device, and the parent steps between the nodes other than an unheld
/// pool are those between the nodes without it.
proof fn lemma_steps_without(
    x: Seq<(Seq<char>, Seq<DeviceView>)>,
    k: int,
    i: int,
    a: usize,
    b: usize,
)
    requires
        0 <= k < x.len(),
        0 <= i < x[k].1.len(),
        all_nodes(x).len() <= usize::MAX,
        x[k].1[i] is Zpool,
        unheld(x[k].1, i),
        a != place(x, k, i),
        b != place(x, k, i),
    ensures
        all_nodes(without(x, k, i)) =~= all_nodes(x).remove(place(x, k, i)),
        host_step(x, a, b) <==> host_step(
            without(x, k, i),
            back(place(x, k, i), a),
            back(place(x, k, i), b),
        ),
    decreases x.len(),
{
    let y = without(x, k, i);
    let z = place(x, k, i);
    let o = all_nodes(x.drop_last()).len();
    let last = x.len() - 1;
    assert(x.take(last) =~= x.drop_last());
    lemma_host_nodes_at(x, k);
    lemma_host_nodes_at(x, last);
    assert(x.take(last + 1) =~= x);
    if k == last {
        assert(y.drop_last() =~= x.drop_last());
        assert(y.last() == (x[k].0, x[k].1.remove(i)));
        assert(z == o + 1 + i);
        assert(all_nodes(y) =~= all_nodes(x).remove(z));
        if host_step(x.drop_last(), a, b) {
            crate::assemble::lemma_host_step_in_range(x.drop_last(), a, b);
        }
        if host_step(x.drop_last(), back(z, a), back(z, b)) {
            crate::assemble::lemma_host_step_in_range(x.drop_last(), back(z, a), back(z, b));
        }
        if a >= o && b >= o {
            lemma_host_without(
                x[k],
                i,
                (1 + i) as usize,
                (a - o) as usize,
                (b - o) as usize,
            );
            assert(back(1 + i, (a - o) as usize) == back(z, a) - o);
            assert(back(1 + i, (b - o) as usize) == back(z, b) - o);
        }
    } else {
        assert(y.drop_last() =~= without(x.drop_last(), k, i));
        assert(y.last() == x.last());
        assert(x.drop_last().take(k) =~= x.take(k));
        assert(place(x.drop_last(), k, i) == z);
        lemma_host_places_grow(x, k + 1, last);
        lemma_nodes_prefix(x, last);
        lemma_steps_without(x.drop_last(), k, i, a, b);
        assert(all_nodes(y) =~= all_nodes(x).remove(z));
        assert(a >= o ==> back(z, a) - (o - 1) == a - o);
        assert(b >= o ==> back(z, b) - (o - 1) == b - o);
    }
}

/// In a graph, no parent edge joins two nodes that share an edge.
proof fn lemma_parent_or_shared(g: Graph, a: usize, b: usize)
    requires
        g.wf(),
        g.parent_of(a, b),
    ensures
        !g.shared_with(a, b),
{
    let i = choose|i: int| 0 <= i < g.edges.len() && g.edges[i] == (a, b, Edge::Parent);
    if g.edges.contains((a, b, Edge::Shared)) {
        let j = choose|j: int| 0 <= j < g.edges.len() && g.edges[j] == (a, b, Edge::Shared);
        if i < j {
            assert(!(g.edges[i].0 == g.edges[j].0 && g.edges[i].1 == g.edges[j].1));
        } else {
            assert(!(g.edges[j].0 == g.edges[i].0 && g.edges[j].1 == g.edges[i].1));
        }
    }
    if g.edges.contains((b, a, Edge::Shared)) {
        let j = choose|j: int| 0 <= j < g.edges.len() && g.edges[j] == (b, a, Edge::Shared);
        let step = steps_of(g.edges);
        assert(edge_at(g.edges, b, a, j));
        assert(step(b, a));
        lemma_walk_self(step, nowhere(), b);
        lemma_walk_extend(step, nowhere(), b, b, a);
        assert(!reaches(g.edges, g.edges[i].1, g.edges[i].0));
    }
}

/// The devices other than a pool that no block device of its host holds
/// have the parent edges that they have without the pool: a parent edge
/// joins two of them in the graph over the hosts exactly if one joins them
/// in the graph over the hosts without the pool.
pub proof fn law_unheld_pool_changes_no_parent(
    g: Graph,
    h: Graph,
    x: Seq<(Seq<char>, Seq<DeviceView>)>,
    k: int,
    i: int,
    a: usize,
    b: usize,
)
    requires
        is_graph_of(g, x),
        is_graph_of(h, without(x, k, i)),
        g.nodes.len() <= usize::MAX,
        0 <= k < x.len(),
        0 <= i < x[k].1.len(),
        x[k].1[i] is Zpool,
        unheld(x[k].1, i),
        a != place(x, k, i),
        b != place(x, k, i),
    ensures
        h.nodes == g.nodes.remove(place(x, k, i)),
        g.parent_of(a, b) <==> h.parent_of(back(place(x, k, i), a), back(place(x, k, i), b)),
{
    let z = place(x, k, i);
    let a1 = back(z, a);
    let b1 = back(z, b);
    lemma_steps_without(x, k, i, a, b);
    lemma_host_nodes_at(x, k);
    assert(same_key(g.nodes, a, b) <==> same_key(h.nodes, a1, b1)) by {
        if a < g.nodes.len() {
            assert(h.nodes[a1 as int] == g.nodes[a as int]);
        }
        if b < g.nodes.len() {
            assert(h.nodes[b1 as int] == g.nodes[b as int]);
        }
    }
    assert((a != b) <==> (a1 != b1));
    assert(g.shared_with(a, b) <==> h.shared_with(a1, b1));
    if g.parent_of(a, b) {
        lemma_parent_or_shared(g, a, b);
        assert(host_step(x, a, b));
        assert(host_step(without(x, k, i), a1, b1));
    }
    if h.parent_of(a1, b1) {
        lemma_parent_or_shared(h, a1, b1);
        assert(host_step(without(x, k, i), a1, b1));
        assert(host_step(x, a, b));
    }
}

} // verus!
