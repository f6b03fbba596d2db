//! The aggregator's graph: the devices of all hosts as nodes, with an edge
//! from a device to each device that is layered on it, and an edge between
//! two nodes that stand for the same device on different hosts.
//!
//! The graph is kept in a `daggy::Dag`, which refuses an edge that would
//! close a cycle. Verus does not look inside it: what it holds is given two
//! names below, and the functions next to them state, without proof, what
//! the methods of `daggy` do to it. That a graph never has a cycle is proved
//! from what they state.

use crate::error::Error;
use crate::node::{contains_parent, Device, DeviceView, Parent, Serial};
use crate::reach::{
    is_walk, lemma_walk_concat, lemma_walk_extend, lemma_walk_mono, lemma_walk_self, walks_to,
};
use vstd::prelude::*;

verus! {

/// Devices can be connected to each other by a parent -> child relationship
/// or a shared device <-> device relationship.
#[derive(Copy, Clone, Debug, Hash, Eq, PartialEq, Structural)]
pub enum Edge {
    Parent,
    Shared,
}

impl Edge {
    pub fn is_shared(self) -> (r: bool)
        ensures
            r == (self == Edge::Shared),
    {
        match self {
            Edge::Shared => true,
            _ => false,
        }
    }

    pub fn is_parent(self) -> (r: bool)
        ensures
            r == (self == Edge::Parent),
    {
        match self {
            Edge::Parent => true,
            _ => false,
        }
    }
}

/// The `daggy::Dag` that holds a graph of devices.
#[verifier::external_body]
pub struct Store {
    inner: daggy::Dag<Device, Edge, usize>,
}

/// A directed acyclic graph of devices. Nodes are numbered from zero in the
/// order in which they were added, and so are edges. Every edge joins two
/// nodes of the graph, and no edge is part of a cycle.
pub struct Dag {
    store: Store,
}

/// `daggy::WouldCycle`: what `daggy` hands back with an edge that it
/// refuses.
#[verifier::external_type_specification]
#[verifier::external_body]
#[verifier::reject_recursive_types(E)]
pub struct ExWouldCycle<E>(daggy::WouldCycle<E>);

/// The nodes of a graph, by number.
pub uninterp spec fn dag_nodes(d: Store) -> Seq<DeviceView>;

/// The edges of a graph, by number: source, target and kind.
pub uninterp spec fn dag_edges(d: Store) -> Seq<(usize, usize, Edge)>;

/// The mathematical value of a [`Dag`].
pub ghost struct Graph {
    pub nodes: Seq<DeviceView>,
    pub edges: Seq<(usize, usize, Edge)>,
}

impl View for Dag {
    type V = Graph;

    closed spec fn view(&self) -> Graph {
        Graph { nodes: dag_nodes(self.store), edges: dag_edges(self.store) }
    }
}

/// The edges as steps from source to target, whatever their kind.
pub open spec fn steps_of(edges: Seq<(usize, usize, Edge)>) -> spec_fn(usize, usize) -> bool {
    |a: usize, b: usize| has_edge(edges, a, b)
}

/// A walk that stops nowhere.
pub open spec fn nowhere() -> spec_fn(usize) -> bool {
    |v: usize| false
}

/// Some path along edges of any kind leads from `a` to `b`. Every node
/// reaches itself.
pub open spec fn reaches(edges: Seq<(usize, usize, Edge)>, a: usize, b: usize) -> bool {
    walks_to(steps_of(edges), nowhere(), a, b)
}

/// Edge number `i` goes from `a` to `b`.
pub open spec fn edge_at(edges: Seq<(usize, usize, Edge)>, a: usize, b: usize, i: int) -> bool {
    0 <= i < edges.len() && edges[i].0 == a && edges[i].1 == b
}

/// Some edge goes from `a` to `b`.
pub open spec fn has_edge(edges: Seq<(usize, usize, Edge)>, a: usize, b: usize) -> bool {
    exists|i: int| edge_at(edges, a, b, i)
}

/// Every edge joins two of the `n` nodes, no two edges lead from the same
/// node to the same node, and no edge is part of a cycle.
pub open spec fn edges_wf(edges: Seq<(usize, usize, Edge)>, n: nat) -> bool {
    &&& forall|i: int| 0 <= i < edges.len() ==> (#[trigger] edges[i]).0 < n && edges[i].1 < n
    &&& stored_once(edges)
    &&& forall|i: int|
        0 <= i < edges.len() ==> !reaches(edges, (#[trigger] edges[i]).1, edges[i].0)
}

/// No two edges lead from the same node to the same node.
pub open spec fn stored_once(edges: Seq<(usize, usize, Edge)>) -> bool {
    forall|i: int, j: int|
        0 <= i < j < edges.len() ==> !((#[trigger] edges[i]).0 == (#[trigger] edges[j]).0
            && edges[i].1 == edges[j].1)
}

impl Graph {
    /// Every edge joins two nodes of the graph, no two edges lead from the
    /// same node to the same node, and no edge is part of a cycle.
    pub open spec fn wf(self) -> bool {
        edges_wf(self.edges, self.nodes.len())
    }

    /// `a` is a parent of `b`.
    pub open spec fn parent_of(self, a: usize, b: usize) -> bool {
        self.edges.contains((a, b, Edge::Parent))
    }

    /// `a` and `b` are joined by a shared edge, in either direction.
    pub open spec fn shared_with(self, a: usize, b: usize) -> bool {
        self.edges.contains((a, b, Edge::Shared)) || self.edges.contains((b, a, Edge::Shared))
    }
}

/// `daggy::Dag::new`: a graph without nodes and edges.
#[verifier::external_body]
fn store_new() -> (d: Store)
    ensures
        dag_nodes(d).len() == 0,
        dag_edges(d).len() == 0,
{
    Store { inner: daggy::Dag::new() }
}

/// `daggy::Dag::add_node`: puts a node with the given weight behind the
/// existing ones and returns its number. Edges stay as they are.
#[verifier::external_body]
fn store_add_node(d: &mut Store, weight: Device) -> (i: usize)
    ensures
        dag_nodes(*final(d)) == dag_nodes(*old(d)).push(weight@),
        dag_edges(*final(d)) == dag_edges(*old(d)),
        i == dag_nodes(*old(d)).len(),
{
    d.inner.add_node(weight).index()
}

/// `daggy::Dag::update_edge`: where an edge from `a` to `b` exists, gives it
/// the new weight and returns its number. Otherwise the edge is refused if
/// some path leads from `b` to `a` (so also if `a` is `b`), and else put
/// behind the existing edges. Nodes stay as they are. `daggy` panics on a
/// node that does not exist, which `requires` leaves out.
#[verifier::external_body]
fn store_update_edge(d: &mut Store, a: usize, b: usize, weight: Edge) -> (r: Result<
    usize,
    daggy::WouldCycle<Edge>,
>)
    requires
        a < dag_nodes(*old(d)).len(),
        b < dag_nodes(*old(d)).len(),
    ensures
        dag_nodes(*final(d)) == dag_nodes(*old(d)),
        r is Ok ==> dag_edges(*final(d)) == with_edge(
            dag_edges(*old(d)),
            a,
            b,
            weight,
            r->Ok_0 as int,
        ),
        r is Ok ==> edge_at(dag_edges(*final(d)), a, b, r->Ok_0 as int),
        r is Ok ==> edge_at(dag_edges(*old(d)), a, b, r->Ok_0 as int) || (!has_edge(
            dag_edges(*old(d)),
            a,
            b,
        ) && !reaches(dag_edges(*old(d)), b, a)),
        r is Err ==> dag_edges(*final(d)) == dag_edges(*old(d)),
        r is Err ==> !has_edge(dag_edges(*old(d)), a, b) && reaches(dag_edges(*old(d)), b, a),
{
    d.inner.update_edge(daggy::NodeIndex::new(a), daggy::NodeIndex::new(b), weight).map(
        |e| e.index(),
    )
}

/// `daggy::Dag::node_count`: how many nodes the graph has.
#[verifier::external_body]
fn store_node_count(d: &Store) -> (n: usize)
    ensures
        n == dag_nodes(*d).len(),
{
    d.inner.node_count()
}

/// `daggy::Dag::node_weight`: the weight of the node with the given number,
/// if there is such a node.
#[verifier::external_body]
fn store_node_weight(d: &Store, i: usize) -> (r: Option<&Device>)
    ensures
        i < dag_nodes(*d).len() ==> r is Some && r->0@ == dag_nodes(*d)[i as int],
        i >= dag_nodes(*d).len() ==> r is None,
{
    d.inner.node_weight(daggy::NodeIndex::new(i))
}

/// `daggy::Dag::raw_edges`: the edges in the order of their numbers, each
/// with its source, its target and its weight.
#[verifier::external_body]
fn store_edge_list(d: &Store) -> (r: Vec<(usize, usize, Edge)>)
    ensures
        r@ == dag_edges(*d),
{
    d.inner.raw_edges().iter().map(|e| (e.source().index(), e.target().index(), e.weight)).collect()
}

/// The edges lead to the same nodes whatever their kinds are.
proof fn lemma_same_steps(
    before: Seq<(usize, usize, Edge)>,
    after: Seq<(usize, usize, Edge)>,
    x: usize,
    y: usize,
)
    requires
        forall|p: usize, q: usize| has_edge(before, p, q) <==> has_edge(after, p, q),
    ensures
        reaches(before, x, y) <==> reaches(after, x, y),
{
    if reaches(before, x, y) {
        lemma_walk_mono(steps_of(before), nowhere(), steps_of(after), nowhere(), x, y);
    }
    if reaches(after, x, y) {
        lemma_walk_mono(steps_of(after), nowhere(), steps_of(before), nowhere(), x, y);
    }
}

/// A walk along the edges and one more edge, from `a` to `b`, either is a
/// walk along the edges, or it comes to `a` along the edges and goes on
/// from `b` along the edges.
proof fn lemma_walk_over_new_edge(
    edges: Seq<(usize, usize, Edge)>,
    a: usize,
    b: usize,
    kind: Edge,
    p: Seq<usize>,
    i: int,
)
    requires
        is_walk(steps_of(edges.push((a, b, kind))), nowhere(), p),
        0 <= i < p.len(),
    ensures
        reaches(edges, p[0], p[i]) || (reaches(edges, p[0], a) && reaches(edges, b, p[i])),
    decreases i,
{
    let step = steps_of(edges);
    if i == 0 {
        lemma_walk_self(step, nowhere(), p[0]);
    } else {
        lemma_walk_over_new_edge(edges, a, b, kind, p, i - 1);
        let x = p[i - 1];
        let y = p[i];
        assert(steps_of(edges.push((a, b, kind)))(p[i - 1], p[i - 1 + 1]));
        let k = choose|k: int| edge_at(edges.push((a, b, kind)), x, y, k);
        if k < edges.len() {
            assert(edge_at(edges, x, y, k));
            assert(step(x, y));
            if reaches(edges, p[0], x) {
                lemma_walk_extend(step, nowhere(), p[0], x, y);
            } else {
                lemma_walk_extend(step, nowhere(), b, x, y);
            }
        } else {
            assert(x == a && y == b);
            lemma_walk_self(step, nowhere(), b);
            if !reaches(edges, p[0], a) {
                assert(reaches(edges, b, x));
                assert(reaches(edges, p[0], a) && reaches(edges, b, x));
            }
        }
    }
}

/// A graph without cycles stays without cycles when it gets an edge from
/// `a` to `b`, unless some path led from `b` to `a`. Where no edge led from
/// `a` to `b` before, no two edges lead from the same node to the same node
/// afterwards either.
pub proof fn law_edge_keeps_acyclic(
    edges: Seq<(usize, usize, Edge)>,
    n: nat,
    a: usize,
    b: usize,
    kind: Edge,
)
    requires
        edges_wf(edges, n),
        a < n,
        b < n,
        !has_edge(edges, a, b),
        !reaches(edges, b, a),
    ensures
        edges_wf(edges.push((a, b, kind)), n),
{
    let after = edges.push((a, b, kind));
    let step = steps_of(edges);
    assert(stored_once(after)) by {
        assert forall|i: int, j: int| 0 <= i < j < after.len() implies !((#[trigger] after[i]).0
            == (#[trigger] after[j]).0 && after[i].1 == after[j].1) by {
            if j < edges.len() {
                assert(after[i] == edges[i] && after[j] == edges[j]);
            } else if after[i].0 == a && after[i].1 == b {
                assert(edge_at(edges, a, b, i));
            }
        }
    }
    assert forall|i: int| 0 <= i < after.len() implies !reaches(
        after,
        (#[trigger] after[i]).1,
        after[i].0,
    ) by {
        let x = after[i].0;
        let y = after[i].1;
        if reaches(after, y, x) {
            let p = choose|p: Seq<usize>| #[trigger]
                is_walk(steps_of(after), nowhere(), p) && p.first() == y && p.last() == x;
            lemma_walk_over_new_edge(edges, a, b, kind, p, p.len() - 1);
            if i < edges.len() {
                assert(edges[i] == after[i]);
                assert(!reaches(edges, y, x));
                assert(edge_at(edges, x, y, i));
                assert(step(x, y));
                // from b to x, over the edge to y, and on to a
                lemma_walk_extend(step, nowhere(), b, x, y);
                lemma_walk_concat(step, nowhere(), b, y, a);
            } else {
                assert(x == a && y == b);
                if !reaches(edges, y, x) {
                    assert(reaches(edges, y, a));
                }
            }
        }
    }
}

/// An edge that takes a new kind closes no cycle, and joins the nodes that
/// it joined.
proof fn lemma_update_keeps_wf(
    edges: Seq<(usize, usize, Edge)>,
    n: nat,
    a: usize,
    b: usize,
    kind: Edge,
    i: int,
)
    requires
        edges_wf(edges, n),
        edge_at(edges, a, b, i),
    ensures
        edges_wf(edges.update(i, (a, b, kind)), n),
{
    let after = edges.update(i, (a, b, kind));
    assert forall|p: usize, q: usize| has_edge(edges, p, q) <==> has_edge(after, p, q) by {
        if has_edge(edges, p, q) {
            let j = choose|j: int| edge_at(edges, p, q, j);
            assert(edge_at(after, p, q, j));
        }
        if has_edge(after, p, q) {
            let j = choose|j: int| edge_at(after, p, q, j);
            assert(edge_at(edges, p, q, j));
        }
    }
    assert(stored_once(after)) by {
        assert forall|p: int, q: int| 0 <= p < q < after.len() implies !((#[trigger] after[p]).0
            == (#[trigger] after[q]).0 && after[p].1 == after[q].1) by {
            assert(after[p].0 == edges[p].0 && after[p].1 == edges[p].1);
            assert(after[q].0 == edges[q].0 && after[q].1 == edges[q].1);
        }
    }
    assert forall|j: int| 0 <= j < after.len() implies !reaches(
        after,
        (#[trigger] after[j]).1,
        after[j].0,
    ) by {
        assert(after[j].0 == edges[j].0 && after[j].1 == edges[j].1);
        lemma_same_steps(edges, after, after[j].1, after[j].0);
    }
}

/// A graph without nodes and edges.
pub(crate) fn dag_new() -> (d: Dag)
    ensures
        d@.nodes.len() == 0,
        d@.edges.len() == 0,
{
    Dag { store: store_new() }
}

/// Puts a node behind the existing ones and returns its number.
pub(crate) fn dag_add_node(d: &mut Dag, weight: Device) -> (i: usize)
    ensures
        final(d)@.nodes == old(d)@.nodes.push(weight@),
        final(d)@.edges == old(d)@.edges,
        i == old(d)@.nodes.len(),
{
    proof {
        use_type_invariant(&*d);
    }
    let mut store = store_new();
    core::mem::swap(&mut store, &mut d.store);
    let i = store_add_node(&mut store, weight);
    d.store = store;
    i
}

/// Sets the kind of the edge from `a` to `b`, or adds the edge unless it
/// would close a cycle.
pub(crate) fn dag_update_edge(d: &mut Dag, a: usize, b: usize, weight: Edge) -> (r: Result<
    usize,
    daggy::WouldCycle<Edge>,
>)
    requires
        a < old(d)@.nodes.len(),
        b < old(d)@.nodes.len(),
    ensures
        final(d)@.nodes == old(d)@.nodes,
        r is Ok ==> final(d)@.edges == with_edge(old(d)@.edges, a, b, weight, r->Ok_0 as int),
        r is Ok ==> edge_at(final(d)@.edges, a, b, r->Ok_0 as int),
        r is Ok ==> has_edge(old(d)@.edges, a, b) || !reaches(old(d)@.edges, b, a),
        r is Err ==> final(d)@.edges == old(d)@.edges,
        r is Err ==> !has_edge(old(d)@.edges, a, b) && reaches(old(d)@.edges, b, a),
{
    proof {
        use_type_invariant(&*d);
    }
    let ghost before = d@;
    let mut store = store_new();
    core::mem::swap(&mut store, &mut d.store);
    let r = store_update_edge(&mut store, a, b, weight);
    proof {
        match r {
            Ok(i) => {
                if edge_at(before.edges, a, b, i as int) {
                    lemma_update_keeps_wf(before.edges, before.nodes.len(), a, b, weight, i as int);
                } else {
                    law_edge_keeps_acyclic(before.edges, before.nodes.len(), a, b, weight);
                }
            },
            Err(_) => {},
        }
    }
    d.store = store;
    r
}

/// How many nodes the graph has.
pub(crate) fn dag_node_count(d: &Dag) -> (n: usize)
    ensures
        n == d@.nodes.len(),
{
    store_node_count(&d.store)
}

/// The device at the node with the given number, if there is such a node.
pub(crate) fn dag_node_weight(d: &Dag, i: usize) -> (r: Option<&Device>)
    ensures
        i < d@.nodes.len() ==> r is Some && r->0@ == d@.nodes[i as int],
        i >= d@.nodes.len() ==> r is None,
{
    store_node_weight(&d.store, i)
}

/// The edges in the order of their numbers. They join nodes of the graph
/// and close no cycle.
pub(crate) fn dag_edge_list(d: &Dag) -> (r: Vec<(usize, usize, Edge)>)
    ensures
        r@ == d@.edges,
        d@.wf(),
{
    proof {
        use_type_invariant(d);
    }
    store_edge_list(&d.store)
}

impl Dag {
    #[verifier::type_invariant]
    spec fn inv(self) -> bool {
        edges_wf(dag_edges(self.store), dag_nodes(self.store).len())
    }

    /// A graph without nodes and edges.
    pub fn new() -> (d: Dag)
        ensures
            d@.nodes.len() == 0,
            d@.edges.len() == 0,
    {
        dag_new()
    }

    /// Adds a node and returns its number.
    pub fn add_node(&mut self, device: Device) -> (i: usize)
        ensures
            final(self)@.nodes == old(self)@.nodes.push(device@),
            final(self)@.edges == old(self)@.edges,
            i == old(self)@.nodes.len(),
    {
        dag_add_node(self, device)
    }

    /// How many nodes the graph has.
    pub fn node_count(&self) -> (n: usize)
        ensures
            n == self@.nodes.len(),
    {
        dag_node_count(self)
    }

    /// The edges of the graph: source, target and kind of each.
    pub fn edges(&self) -> (r: Vec<(usize, usize, Edge)>)
        ensures
            r@ == self@.edges,
            self@.wf(),
    {
        dag_edge_list(self)
    }

    /// Sets the kind of the edge from `a` to `b`, or adds the edge if there
    /// is none. Fails with `NodeNotFound` where `a` or `b` is not a node and
    /// with `GraphCycle` where the new edge would close a cycle; the graph
    /// is then left as it was.
    pub fn update_edge(&mut self, a: usize, b: usize, kind: Edge) -> (r: Result<usize, Error>)
        ensures
            final(self)@.nodes == old(self)@.nodes,
            match r {
                Ok(i) => {
                    &&& a < old(self)@.nodes.len()
                    &&& b < old(self)@.nodes.len()
                    &&& final(self)@.edges == with_edge(old(self)@.edges, a, b, kind, i as int)
                    &&& edge_at(final(self)@.edges, a, b, i as int)
                    &&& has_edge(old(self)@.edges, a, b) || !reaches(old(self)@.edges, b, a)
                },
                Err(e) => {
                    &&& final(self)@.edges == old(self)@.edges
                    &&& e == if a >= old(self)@.nodes.len() || b >= old(self)@.nodes.len() {
                        Error::NodeNotFound
                    } else {
                        Error::GraphCycle
                    }
                    &&& e == Error::GraphCycle ==> !has_edge(old(self)@.edges, a, b) && reaches(
                        old(self)@.edges,
                        b,
                        a,
                    )
                },
            },
    {
        let n = dag_node_count(self);
        if a >= n || b >= n {
            return Err(Error::NodeNotFound);
        }
        match dag_update_edge(self, a, b, kind) {
            Ok(i) => Ok(i),
            Err(_) => Err(Error::GraphCycle),
        }
    }

    /// Adds a node as a child of `parent`, joined by an edge of the given
    /// kind, and returns the numbers of the edge and of the node. Fails with
    /// `NodeNotFound` where `parent` is not a node; the graph is then left
    /// as it was.
    pub fn add_child(&mut self, parent: usize, kind: Edge, device: Device) -> (r: Result<
        (usize, usize),
        Error,
    >)
        ensures
            match r {
                Ok((e, n)) => {
                    &&& parent < old(self)@.nodes.len()
                    &&& n == old(self)@.nodes.len()
                    &&& e == old(self)@.edges.len()
                    &&& final(self)@.nodes == old(self)@.nodes.push(device@)
                    &&& final(self)@.edges == old(self)@.edges.push((parent, n, kind))
                },
                Err(e) => {
                    &&& parent >= old(self)@.nodes.len()
                    &&& e == Error::NodeNotFound
                    &&& final(self)@ == old(self)@
                },
            },
    {
        let count = dag_node_count(self);
        if parent >= count {
            return Err(Error::NodeNotFound);
        }
        let edges = dag_edge_list(self);
        let n = dag_add_node(self, device);
        proof {
            lemma_new_node_is_apart(old(self)@, self@, parent, n);
        }
        match dag_update_edge(self, parent, n, kind) {
            Ok(e) => Ok((e, n)),
            Err(_) => {
                proof {
                    assert(false);
                }
                Err(Error::NodeNotFound)
            },
        }
    }
}

/// The edges after the one from `a` to `b` was set to `kind`: edge `i` is
/// that edge, either an old one with its kind replaced or a new one behind
/// the old ones.
pub open spec fn with_edge(
    edges: Seq<(usize, usize, Edge)>,
    a: usize,
    b: usize,
    kind: Edge,
    i: int,
) -> Seq<(usize, usize, Edge)> {
    if edge_at(edges, a, b, i) {
        edges.update(i, (a, b, kind))
    } else {
        edges.push((a, b, kind))
    }
}

/// A node that was just added has no edge, so no path leads from it to
/// another node.
proof fn lemma_new_node_is_apart(before: Graph, after: Graph, a: usize, n: usize)
    requires
        before.wf(),
        after.edges == before.edges,
        after.nodes.len() == before.nodes.len() + 1,
        n == before.nodes.len(),
        a < n,
    ensures
        !has_edge(after.edges, a, n),
        !reaches(after.edges, n, a),
{
    if has_edge(after.edges, a, n) {
        let i = choose|i: int| edge_at(after.edges, a, n, i);
        assert(before.edges[i].1 < before.nodes.len());
    }
    if reaches(after.edges, n, a) {
        let p = choose|p: Seq<usize>| #[trigger]
            crate::reach::is_walk(steps_of(after.edges), nowhere(), p) && p.first() == n
                && p.last() == a;
        assert(p.len() > 1);
        assert(steps_of(after.edges)(p[0int], p[0int + 1]));
        let k = choose|k: int| #[trigger] edge_at(after.edges, p[0int], p[0int + 1], k);
        assert(before.edges[k].0 == n);
    }
}

/// The device at a node, or `NodeNotFound` where the graph has no such node.
pub fn get_device(dag: &Dag, nx: usize) -> (r: Result<&Device, Error>)
    ensures
        nx < dag@.nodes.len() ==> r is Ok && r->Ok_0@ == dag@.nodes[nx as int],
        nx >= dag@.nodes.len() ==> r == Err::<&Device, Error>(Error::NodeNotFound),
{
    match dag_node_weight(dag, nx) {
        Some(d) => Ok(d),
        None => Err(Error::NodeNotFound),
    }
}

/// Is the device a scsi device
pub fn is_scsi(d: &Device) -> (r: bool)
    ensures
        r == d@ is ScsiDevice,
{
    match d {
        Device::ScsiDevice(_) => true,
        _ => false,
    }
}

/// Is the device a partition on the given parent
pub fn is_partition(d: &Device, parent: &Parent) -> (r: bool)
    ensures
        r == (d@ is Partition && d@.parents().contains(parent.deep_view())),
{
    match d {
        Device::Partition(p) => contains_parent(&p.parents, parent),
        _ => false,
    }
}

/// Is the device a volume group on the given parent
pub fn is_vg(d: &Device, parent: &Parent) -> (r: bool)
    ensures
        r == (d@ is VolumeGroup && d@.parents().contains(parent.deep_view())),
{
    match d {
        Device::VolumeGroup(vg) => contains_parent(&vg.parents, parent),
        _ => false,
    }
}

/// Is the device a logical volume of the given parent
pub fn is_lv(d: &Device, parent: &Parent) -> (r: bool)
    ensures
        r == (d@ is LogicalVolume && d@.parents().contains(parent.deep_view())),
{
    match d {
        Device::LogicalVolume(lv) => {
            let r = lv.parent.0 == parent.0 && lv.parent.1.0 == parent.1.0;
            assert(d@.parents() =~= seq![lv.parent.deep_view()]);
            assert(d@.parents()[0] == lv.parent.deep_view());
            r
        },
        _ => false,
    }
}

/// Is the device a multipath device on the given parent
pub fn is_mpath(d: &Device, parent: &Parent) -> (r: bool)
    ensures
        r == (d@ is Mpath && d@.parents().contains(parent.deep_view())),
{
    match d {
        Device::Mpath(m) => contains_parent(&m.parents, parent),
        _ => false,
    }
}

/// Is the device a mdraid device on the given parent
pub fn is_md(d: &Device, parent: &Parent) -> (r: bool)
    ensures
        r == (d@ is MdRaid && d@.parents().contains(parent.deep_view())),
{
    match d {
        Device::MdRaid(m) => contains_parent(&m.parents, parent),
        _ => false,
    }
}

/// Is the device a zpool on the given parent
pub fn is_pool(d: &Device, parent: &Parent) -> (r: bool)
    ensures
        r == (d@ is Zpool && d@.parents().contains(parent.deep_view())),
{
    match d {
        Device::Zpool(z) => contains_parent(&z.parents, parent),
        _ => false,
    }
}

/// Is the device a dataset of the pool with the given serial
pub fn is_dataset(d: &Device, serial: &Serial) -> (r: bool)
    ensures
        r == (d@ is Dataset && d@->Dataset_0.pool_serial == serial@),
{
    match d {
        Device::Dataset(d) => d.pool_serial.0 == serial.0,
        _ => false,
    }
}

/// Whether `c` is layered on `p` by the rule for the class of `p`.
///
/// - A host has the SCSI devices.
/// - A SCSI device has the partitions, multipath devices, volume groups,
///   RAID arrays and pools that name it as a parent.
/// - A partition, a multipath device and a RAID array have the same but for
///   multipath devices.
/// - A volume group has the logical volumes that name it.
/// - A logical volume has the partitions and pools that name it.
/// - A pool has the datasets that carry its serial.
/// - A dataset has nothing.
pub open spec fn child_rule(p: DeviceView, c: DeviceView) -> bool {
    let named = c.parents().contains(p.as_parent());
    match p {
        DeviceView::Host(_) => c is ScsiDevice,
        DeviceView::ScsiDevice(_) => named && (c is Partition || c is Mpath || c is VolumeGroup
            || c is MdRaid || c is Zpool),
        DeviceView::Partition(_) => named && (c is Partition || c is VolumeGroup || c is MdRaid
            || c is Zpool),
        DeviceView::Mpath(_) => named && (c is Partition || c is VolumeGroup || c is MdRaid
            || c is Zpool),
        DeviceView::MdRaid(_) => named && (c is Partition || c is VolumeGroup || c is MdRaid
            || c is Zpool),
        DeviceView::VolumeGroup(_) => named && c is LogicalVolume,
        DeviceView::LogicalVolume(_) => named && (c is Partition || c is Zpool),
        DeviceView::Zpool(z) => c is Dataset && c->Dataset_0.pool_serial == z.serial,
        DeviceView::Dataset(_) => false,
    }
}

/// Whether `c` is layered on `p`.
pub fn is_child(p: &Device, c: &Device) -> (r: bool)
    ensures
        r == child_rule(p@, c@),
{
    match p {
        Device::Host(_) => is_scsi(c),
        Device::ScsiDevice(s) => {
            let parent = s.as_parent();
            is_partition(c, &parent) || is_mpath(c, &parent) || is_vg(c, &parent) || is_md(
                c,
                &parent,
            ) || is_pool(c, &parent)
        },
        Device::Partition(x) => {
            let parent = x.as_parent();
            is_partition(c, &parent) || is_vg(c, &parent) || is_md(c, &parent) || is_pool(
                c,
                &parent,
            )
        },
        Device::Mpath(m) => {
            let parent = m.as_parent();
            is_vg(c, &parent) || is_partition(c, &parent) || is_md(c, &parent) || is_pool(
                c,
                &parent,
            )
        },
        Device::MdRaid(m) => {
            let parent = m.as_parent();
            is_vg(c, &parent) || is_partition(c, &parent) || is_md(c, &parent) || is_pool(
                c,
                &parent,
            )
        },
        Device::VolumeGroup(vg) => {
            let parent = vg.as_parent();
            is_lv(c, &parent)
        },
        Device::LogicalVolume(lv) => {
            let parent = lv.as_parent();
            is_partition(c, &parent) || is_pool(c, &parent)
        },
        Device::Zpool(z) => is_dataset(c, &z.serial),
        Device::Dataset(_) => false,
    }
}

/// Whether `x` is among `xs`.
fn contains_index(xs: &Vec<usize>, x: usize) -> (r: bool)
    ensures
        r == xs@.contains(x),
{
    let mut i: usize = 0;
    while i < xs.len()
        invariant
            i <= xs.len(),
            forall|j: int| 0 <= j < i ==> xs[j] != x,
        decreases xs.len() - i,
    {
        if xs[i] == x {
            return true;
        }
        i += 1;
    }
    false
}

/// Puts `x` among `xs` unless it is there already.
pub(crate) fn insert_index(xs: &mut Vec<usize>, x: usize)
    ensures
        forall|y: usize| final(xs)@.contains(y) <==> old(xs)@.contains(y) || y == x,
{
    if !contains_index(xs, x) {
        let ghost before = xs@;
        xs.push(x);
        assert forall|y: usize| xs@.contains(y) <==> before.contains(y) || y == x by {
            if before.contains(y) {
                let j = choose|j: int| 0 <= j < before.len() && before[j] == y;
                assert(xs@[j] == y);
            }
            if y == x {
                assert(xs@[before.len() as int] == y);
            }
            if xs@.contains(y) {
                let j = choose|j: int| 0 <= j < xs@.len() && xs@[j] == y;
                if j < before.len() {
                    assert(before[j] == y);
                }
            }
        }
    }
}

/// Puts the members of `more` among `xs`.
pub(crate) fn extend_unique(xs: &mut Vec<usize>, more: &Vec<usize>)
    ensures
        forall|y: usize| final(xs)@.contains(y) <==> old(xs)@.contains(y) || more@.contains(y),
{
    let mut k: usize = 0;
    while k < more.len()
        invariant
            k <= more.len(),
            forall|y: usize|
                xs@.contains(y) <==> old(xs)@.contains(y) || exists|j: int|
                    0 <= j < k && #[trigger] more[j] == y,
        decreases more.len() - k,
    {
        let ghost before = xs@;
        insert_index(xs, more[k]);
        proof {
            assert forall|y: usize|
                xs@.contains(y) <==> old(xs)@.contains(y) || exists|j: int|
                    0 <= j < k + 1 && #[trigger] more[j] == y by {
                if y == more[k as int] {
                    assert(0 <= k < k + 1 && more[k as int] == y);
                }
                if exists|j: int| 0 <= j < k && #[trigger] more[j] == y {
                    let j = choose|j: int| 0 <= j < k && #[trigger] more[j] == y;
                    assert(0 <= j < k + 1 && more[j] == y);
                }
                if exists|j: int| 0 <= j < k + 1 && #[trigger] more[j] == y {
                    let j = choose|j: int| 0 <= j < k + 1 && #[trigger] more[j] == y;
                    if j < k {
                        assert(before.contains(y));
                    }
                }
            }
        }
        k += 1;
    }
}

/// The sources of the parent edges into `nx`.
pub(crate) fn parents_in(edges: &Vec<(usize, usize, Edge)>, nx: usize) -> (r: Vec<usize>)
    ensures
        forall|a: usize| r@.contains(a) <==> edges@.contains((a, nx, Edge::Parent)),
{
    let mut r: Vec<usize> = Vec::new();
    let mut i: usize = 0;
    while i < edges.len()
        invariant
            i <= edges.len(),
            forall|a: usize|
                r@.contains(a) <==> edges@.subrange(0, i as int).contains((a, nx, Edge::Parent)),
        decreases edges.len() - i,
    {
        let e = edges[i];
        let ghost r0 = r@;
        if e.1 == nx && e.2.is_parent() {
            insert_index(&mut r, e.0);
        }
        proof {
            let prefix = edges@.subrange(0, i as int);
            let next = edges@.subrange(0, i + 1);
            assert forall|a: usize| r@.contains(a) <==> next.contains((a, nx, Edge::Parent)) by {
                lemma_prefix_step(edges@, i as int, (a, nx, Edge::Parent));
                assert(r0.contains(a) <==> prefix.contains((a, nx, Edge::Parent)));
                assert(r@.contains(a) <==> (r0.contains(a) || (e.1 == nx && e.2 == Edge::Parent
                    && a == e.0)));
            }
        }
        i += 1;
    }
    assert(edges@.subrange(0, edges.len() as int) =~= edges@);
    r
}

/// The targets of the parent edges out of `nx`.
pub(crate) fn children_in(edges: &Vec<(usize, usize, Edge)>, nx: usize) -> (r: Vec<usize>)
    ensures
        forall|b: usize| r@.contains(b) <==> edges@.contains((nx, b, Edge::Parent)),
{
    let mut r: Vec<usize> = Vec::new();
    let mut i: usize = 0;
    while i < edges.len()
        invariant
            i <= edges.len(),
            forall|b: usize|
                r@.contains(b) <==> edges@.subrange(0, i as int).contains((nx, b, Edge::Parent)),
        decreases edges.len() - i,
    {
        let e = edges[i];
        let ghost r0 = r@;
        if e.0 == nx && e.2.is_parent() {
            insert_index(&mut r, e.1);
        }
        proof {
            let prefix = edges@.subrange(0, i as int);
            let next = edges@.subrange(0, i + 1);
            assert forall|b: usize| r@.contains(b) <==> next.contains((nx, b, Edge::Parent)) by {
                lemma_prefix_step(edges@, i as int, (nx, b, Edge::Parent));
                assert(r0.contains(b) <==> prefix.contains((nx, b, Edge::Parent)));
                assert(r@.contains(b) <==> (r0.contains(b) || (e.0 == nx && e.2 == Edge::Parent
                    && b == e.1)));
            }
        }
        i += 1;
    }
    assert(edges@.subrange(0, edges.len() as int) =~= edges@);
    r
}

/// The other ends of the shared edges at `nx`, and `nx` itself if asked.
pub(crate) fn peers_in(edges: &Vec<(usize, usize, Edge)>, nx: usize, with_self: bool) -> (r: Vec<usize>)
    ensures
        forall|m: usize|
            r@.contains(m) <==> (with_self && m == nx) || edges@.contains((nx, m, Edge::Shared))
                || edges@.contains((m, nx, Edge::Shared)),
{
    let mut r: Vec<usize> = Vec::new();
    let mut i: usize = 0;
    while i < edges.len()
        invariant
            i <= edges.len(),
            forall|m: usize|
                r@.contains(m) <==> edges@.subrange(0, i as int).contains((nx, m, Edge::Shared))
                    || edges@.subrange(0, i as int).contains((m, nx, Edge::Shared)),
        decreases edges.len() - i,
    {
        let e = edges[i];
        let ghost r0 = r@;
        if e.2.is_shared() && e.0 == nx {
            insert_index(&mut r, e.1);
        }
        let ghost r1 = r@;
        if e.2.is_shared() && e.1 == nx {
            insert_index(&mut r, e.0);
        }
        proof {
            let prefix = edges@.subrange(0, i as int);
            let next = edges@.subrange(0, i + 1);
            assert forall|m: usize|
                r@.contains(m) <==> next.contains((nx, m, Edge::Shared)) || next.contains(
                    (m, nx, Edge::Shared),
                ) by {
                lemma_prefix_step(edges@, i as int, (nx, m, Edge::Shared));
                lemma_prefix_step(edges@, i as int, (m, nx, Edge::Shared));
                assert(r0.contains(m) <==> prefix.contains((nx, m, Edge::Shared))
                    || prefix.contains((m, nx, Edge::Shared)));
                assert(next.contains((nx, m, Edge::Shared)) <==> prefix.contains(
                    (nx, m, Edge::Shared),
                ) || (nx, m, Edge::Shared) == e);
                assert(next.contains((m, nx, Edge::Shared)) <==> prefix.contains(
                    (m, nx, Edge::Shared),
                ) || (m, nx, Edge::Shared) == e);
                assert(r1.contains(m) <==> r0.contains(m) || (e.2 == Edge::Shared && e.0 == nx && m
                    == e.1));
                assert(r@.contains(m) <==> r1.contains(m) || (e.2 == Edge::Shared && e.1 == nx && m
                    == e.0));
            }
        }
        i += 1;
    }
    assert(edges@.subrange(0, edges.len() as int) =~= edges@);
    if with_self {
        insert_index(&mut r, nx);
    }
    r
}

/// A prefix that is one longer holds what the prefix holds, and the next
/// element.
pub(crate) proof fn lemma_subrange_next<A>(s: Seq<A>, i: int)
    requires
        0 <= i < s.len(),
    ensures
        forall|x: A|
            s.subrange(0, i + 1).contains(x) <==> s.subrange(0, i).contains(x) || x == s[i],
{
    let a = s.subrange(0, i);
    let b = s.subrange(0, i + 1);
    assert forall|x: A| b.contains(x) <==> a.contains(x) || x == s[i] by {
        if a.contains(x) {
            let j = choose|j: int| 0 <= j < a.len() && a[j] == x;
            assert(b[j] == x);
        }
        if x == s[i] {
            assert(b[i] == x);
        }
        if b.contains(x) {
            let j = choose|j: int| 0 <= j < b.len() && b[j] == x;
            if j < i {
                assert(a[j] == x);
            }
        }
    }
}

/// A prefix that is one longer holds `x` if the prefix holds it or the next
/// element is `x`.
pub(crate) proof fn lemma_prefix_step<A>(s: Seq<A>, i: int, x: A)
    requires
        0 <= i < s.len(),
    ensures
        s.subrange(0, i + 1).contains(x) <==> s.subrange(0, i).contains(x) || x == s[i],
{
    lemma_subrange_next(s, i);
}

/// Given a dag and a starting node, return the node's parents.
pub fn get_parents(dag: &Dag, nx: usize) -> (r: Vec<usize>)
    ensures
        forall|a: usize| r@.contains(a) <==> dag@.parent_of(a, nx),
{
    let edges = dag_edge_list(dag);
    parents_in(&edges, nx)
}

/// Given a dag and a starting node, return the node's children.
pub fn get_children(dag: &Dag, nx: usize) -> (r: Vec<usize>)
    ensures
        forall|b: usize| r@.contains(b) <==> dag@.parent_of(nx, b),
{
    let edges = dag_edge_list(dag);
    children_in(&edges, nx)
}

/// Given a dag and a search node, find its shared siblings.
pub fn get_shared(dag: &Dag, nx: usize) -> (r: Vec<usize>)
    ensures
        forall|m: usize| r@.contains(m) <==> dag@.shared_with(nx, m),
{
    let edges = dag_edge_list(dag);
    peers_in(&edges, nx, false)
}

/// The shared siblings of a node, and the node itself.
pub fn get_shared_and_self(dag: &Dag, nx: usize) -> (r: Vec<usize>)
    ensures
        forall|m: usize| r@.contains(m) <==> dag@.peer(nx, m),
{
    let edges = dag_edge_list(dag);
    peers_in(&edges, nx, true)
}

impl Graph {
    /// `m` is `s` or one of its shared siblings.
    pub open spec fn peer(self, s: usize, m: usize) -> bool {
        m == s || self.shared_with(s, m)
    }

    /// `c` is a child of `v` or of one of its shared siblings.
    pub open spec fn peer_child(self, v: usize, c: usize) -> bool {
        exists|m: usize| #[trigger] self.peer(v, m) && self.parent_of(m, c)
    }

    /// `p` is a parent of `v` or of one of its shared siblings.
    pub open spec fn peer_parent(self, v: usize, p: usize) -> bool {
        exists|m: usize| #[trigger] self.peer(v, m) && self.parent_of(p, m)
    }
}

/// The children of a node and of its shared siblings.
pub fn get_all_node_children(dag: &Dag, nx: usize) -> (r: Vec<usize>)
    ensures
        forall|c: usize| r@.contains(c) <==> dag@.peer_child(nx, c),
{
    let edges = dag_edge_list(dag);
    all_children_in(&edges, nx, Ghost(dag@))
}

fn all_children_in(edges: &Vec<(usize, usize, Edge)>, nx: usize, Ghost(g): Ghost<Graph>) -> (r: Vec<
    usize,
>)
    requires
        edges@ == g.edges,
    ensures
        forall|c: usize| r@.contains(c) <==> g.peer_child(nx, c),
{
    let peers = peers_in(edges, nx, true);
    let mut r: Vec<usize> = Vec::new();
    let mut i: usize = 0;
    while i < peers.len()
        invariant
            i <= peers.len(),
            edges@ == g.edges,
            forall|m: usize| peers@.contains(m) <==> g.peer(nx, m),
            forall|c: usize|
                r@.contains(c) <==> exists|j: int|
                    0 <= j < i && g.parent_of(#[trigger] peers[j], c),
        decreases peers.len() - i,
    {
        let kids = children_in(edges, peers[i]);
        let ghost before = r@;
        extend_unique(&mut r, &kids);
        proof {
            assert forall|c: usize|
                r@.contains(c) <==> exists|j: int|
                    0 <= j < i + 1 && g.parent_of(#[trigger] peers[j], c) by {
                if before.contains(c) {
                    let j = choose|j: int| 0 <= j < i && g.parent_of(#[trigger] peers[j], c);
                    assert(0 <= j < i + 1 && g.parent_of(peers[j], c));
                }
                if kids@.contains(c) {
                    assert(g.parent_of(peers[i as int], c));
                }
                if exists|j: int| 0 <= j < i + 1 && g.parent_of(#[trigger] peers[j], c) {
                    let j = choose|j: int| 0 <= j < i + 1 && g.parent_of(#[trigger] peers[j], c);
                    if j < i {
                        assert(before.contains(c));
                    } else {
                        assert(kids@.contains(c));
                    }
                }
            }
        }
        i += 1;
    }
    assert forall|c: usize| r@.contains(c) <==> g.peer_child(nx, c) by {
        if r@.contains(c) {
            let j = choose|j: int| 0 <= j < peers.len() && g.parent_of(#[trigger] peers[j], c);
            assert(peers@.contains(peers[j]));
            assert(g.peer(nx, peers[j]) && g.parent_of(peers[j], c));
        }
        if g.peer_child(nx, c) {
            let m = choose|m: usize| #[trigger] g.peer(nx, m) && g.parent_of(m, c);
            assert(peers@.contains(m));
            let j = choose|j: int| 0 <= j < peers@.len() && peers@[j] == m;
            assert(g.parent_of(peers[j], c));
        }
    }
    r
}

/// The parents of a node and of its shared siblings.
pub fn get_all_node_parents(dag: &Dag, nx: usize) -> (r: Vec<usize>)
    ensures
        forall|p: usize| r@.contains(p) <==> dag@.peer_parent(nx, p),
{
    let edges = dag_edge_list(dag);
    all_parents_in(&edges, nx, Ghost(dag@))
}

fn all_parents_in(edges: &Vec<(usize, usize, Edge)>, nx: usize, Ghost(g): Ghost<Graph>) -> (r: Vec<
    usize,
>)
    requires
        edges@ == g.edges,
    ensures
        forall|p: usize| r@.contains(p) <==> g.peer_parent(nx, p),
{
    let peers = peers_in(edges, nx, true);
    let mut r: Vec<usize> = Vec::new();
    let mut i: usize = 0;
    while i < peers.len()
        invariant
            i <= peers.len(),
            edges@ == g.edges,
            forall|m: usize| peers@.contains(m) <==> g.peer(nx, m),
            forall|p: usize|
                r@.contains(p) <==> exists|j: int|
                    0 <= j < i && g.parent_of(p, #[trigger] peers[j]),
        decreases peers.len() - i,
    {
        let ups = parents_in(edges, peers[i]);
        let ghost before = r@;
        extend_unique(&mut r, &ups);
        proof {
            assert forall|p: usize|
                r@.contains(p) <==> exists|j: int|
                    0 <= j < i + 1 && g.parent_of(p, #[trigger] peers[j]) by {
                if before.contains(p) {
                    let j = choose|j: int| 0 <= j < i && g.parent_of(p, #[trigger] peers[j]);
                    assert(0 <= j < i + 1 && g.parent_of(p, peers[j]));
                }
                if ups@.contains(p) {
                    assert(g.parent_of(p, peers[i as int]));
                }
                if exists|j: int| 0 <= j < i + 1 && g.parent_of(p, #[trigger] peers[j]) {
                    let j = choose|j: int| 0 <= j < i + 1 && g.parent_of(p, #[trigger] peers[j]);
                    if j < i {
                        assert(before.contains(p));
                    } else {
                        assert(ups@.contains(p));
                    }
                }
            }
        }
        i += 1;
    }
    assert forall|p: usize| r@.contains(p) <==> g.peer_parent(nx, p) by {
        if r@.contains(p) {
            let j = choose|j: int| 0 <= j < peers.len() && g.parent_of(p, #[trigger] peers[j]);
            assert(peers@.contains(peers[j]));
            assert(g.peer(nx, peers[j]) && g.parent_of(p, peers[j]));
        }
        if g.peer_parent(nx, p) {
            let m = choose|m: usize| #[trigger] g.peer(nx, m) && g.parent_of(p, m);
            assert(peers@.contains(m));
            let j = choose|j: int| 0 <= j < peers@.len() && peers@[j] == m;
            assert(g.parent_of(p, peers[j]));
        }
    }
    r
}

} // verus!
