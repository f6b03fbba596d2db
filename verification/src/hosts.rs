//! Which hosts can use a device of the aggregator's graph, and which of
//! them use it now.

use crate::dag::{
    dag_edge_list, dag_node_count, dag_node_weight, edges_wf, lemma_prefix_step, parents_in,
    peers_in, Dag, Edge, Graph,
};
use crate::error::Error;
use crate::node::{insert_host, intersect_hosts, Device, DeviceView, Host};
use crate::reach::{closure, lemma_walk_mono, listed, marks, walks_to};
use vstd::prelude::*;

verus! {

impl Graph {
    /// Node `v` is a SCSI device.
    pub open spec fn is_scsi(self, v: usize) -> bool {
        v < self.nodes.len() && self.nodes[v as int] is ScsiDevice
    }

    /// Node `v` is a host.
    pub open spec fn is_host(self, v: usize) -> bool {
        v < self.nodes.len() && self.nodes[v as int] is Host
    }

    /// A walk that does not go on from a SCSI device.
    pub open spec fn scsi_stop(self) -> spec_fn(usize) -> bool {
        |v: usize| self.is_scsi(v)
    }

    /// A walk that does not go on from a host.
    pub open spec fn host_stop(self) -> spec_fn(usize) -> bool {
        |v: usize| self.is_host(v)
    }

    /// The step from a node up to one of its parents.
    pub open spec fn up(self) -> spec_fn(usize, usize) -> bool {
        |c: usize, p: usize| self.parent_of(p, c)
    }

    /// `s` is a SCSI device that a walk from `nx` up the parent edges comes
    /// to, where the walk does not go on beyond a SCSI device.
    pub open spec fn scsi_ancestor(self, nx: usize, s: usize) -> bool {
        self.is_scsi(s) && walks_to(self.up(), self.scsi_stop(), nx, s)
    }

    /// The host called `h` is a parent of `m`.
    pub open spec fn host_parent(self, m: usize, h: Seq<char>) -> bool {
        exists|p: usize|
            #[trigger] self.parent_of(p, m) && p < self.nodes.len() && self.nodes[p as int]
                == DeviceView::Host(h)
    }

    /// `m` has a parent that is not a host.
    pub open spec fn stray_parent(self, m: usize) -> bool {
        exists|p: usize| #[trigger] self.parent_of(p, m) && !self.is_host(p)
    }

    /// The host called `h` is a parent of `s` or of one of its shared
    /// siblings.
    pub open spec fn peer_host(self, s: usize, h: Seq<char>) -> bool {
        exists|m: usize| #[trigger] self.peer(s, m) && self.host_parent(m, h)
    }

    /// `s` or one of its shared siblings has a parent that is not a host.
    pub open spec fn peer_stray(self, s: usize) -> bool {
        exists|m: usize| #[trigger] self.peer(s, m) && self.stray_parent(m)
    }

    /// The host called `h` can use the device at `nx`: the device has a SCSI
    /// ancestor, and each of its SCSI ancestors is seen by `h`, itself or
    /// through one of its shared siblings.
    pub open spec fn distinct_host(self, nx: usize, h: Seq<char>) -> bool {
        &&& exists|s: usize| #[trigger] self.scsi_ancestor(nx, s)
        &&& forall|s: usize| #[trigger] self.scsi_ancestor(nx, s) ==> self.peer_host(s, h)
    }

    /// The host called `h` uses the device at `nx`: a walk from `nx` up the
    /// parent edges comes to it.
    pub open spec fn active_host(self, nx: usize, h: Seq<char>) -> bool {
        exists|p: usize|
            #[trigger] walks_to(self.up(), self.host_stop(), nx, p) && p
                < self.nodes.len() && self.nodes[p as int] == DeviceView::Host(h)
    }
}

/// Adds to `acc` the hosts that are parents of `m`.
fn hosts_of_in(
    dag: &Dag,
    edges: &Vec<(usize, usize, Edge)>,
    m: usize,
    acc: &mut Vec<Host>,
) -> (r: Result<(), Error>)
    requires
        edges@ == dag@.edges,
        dag@.wf(),
        old(acc).deep_view().no_duplicates(),
    ensures
        match r {
            Ok(()) => {
                &&& !dag@.stray_parent(m)
                &&& final(acc).deep_view().no_duplicates()
                &&& forall|h: Seq<char>|
                    final(acc).deep_view().contains(h) <==> old(acc).deep_view().contains(h)
                        || dag@.host_parent(m, h)
            },
            Err(e) => e == Error::HostNotFound && dag@.stray_parent(m),
        },
{
    let ghost g = dag@;
    let ps = parents_in(edges, m);
    let mut i: usize = 0;
    let mut ok = true;
    while i < ps.len() && ok
        invariant
            i <= ps.len(),
            g == dag@,
            forall|a: usize| ps@.contains(a) <==> g.parent_of(a, m),
            acc.deep_view().no_duplicates(),
            ok ==> forall|j: int| 0 <= j < i ==> g.is_host(#[trigger] ps[j]),
            ok ==> forall|h: Seq<char>|
                acc.deep_view().contains(h) <==> old(acc).deep_view().contains(h) || exists|j: int|
                    0 <= j < i && g.nodes[(#[trigger] ps[j]) as int] == DeviceView::Host(h),
            !ok ==> g.stray_parent(m),
        decreases ps.len() - i, if ok { 1nat } else { 0nat },
    {
        let p = ps[i];
        assert(ps@.contains(p));
        let ghost before = acc.deep_view();
        match dag_node_weight(dag, p) {
            Some(Device::Host(h)) => {
                let ghost name = h@;
                insert_host(acc, h.clone());
                proof {
                    assert forall|x: Seq<char>|
                        acc.deep_view().contains(x) <==> old(acc).deep_view().contains(x)
                            || exists|j: int|
                            0 <= j < i + 1 && g.nodes[(#[trigger] ps[j]) as int]
                                == DeviceView::Host(x) by {
                        if x == name {
                            assert(g.nodes[ps[i as int] as int] == DeviceView::Host(x));
                        }
                        if exists|j: int|
                            0 <= j < i && g.nodes[(#[trigger] ps[j]) as int] == DeviceView::Host(
                                x,
                            ) {
                            let j = choose|j: int|
                                0 <= j < i && g.nodes[(#[trigger] ps[j]) as int]
                                    == DeviceView::Host(x);
                            assert(0 <= j < i + 1 && g.nodes[ps[j] as int] == DeviceView::Host(x));
                        }
                        if exists|j: int|
                            0 <= j < i + 1 && g.nodes[(#[trigger] ps[j]) as int]
                                == DeviceView::Host(x) {
                            let j = choose|j: int|
                                0 <= j < i + 1 && g.nodes[(#[trigger] ps[j]) as int]
                                    == DeviceView::Host(x);
                            if j < i {
                                assert(before.contains(x));
                            }
                        }
                    }
                }
                i += 1;
            },
            _ => {
                assert(g.parent_of(p, m) && !g.is_host(p));
                ok = false;
            },
        }
    }
    if !ok {
        return Err(Error::HostNotFound);
    }
    proof {
        assert(!g.stray_parent(m)) by {
            if g.stray_parent(m) {
                let p = choose|p: usize| #[trigger] g.parent_of(p, m) && !g.is_host(p);
                assert(ps@.contains(p));
                let j = choose|j: int| 0 <= j < ps@.len() && ps@[j] == p;
                assert(g.is_host(ps[j]));
            }
        }
        assert forall|h: Seq<char>|
            acc.deep_view().contains(h) <==> old(acc).deep_view().contains(h) || g.host_parent(
                m,
                h,
            ) by {
            if g.host_parent(m, h) {
                let p = choose|p: usize|
                    #[trigger] g.parent_of(p, m) && p < g.nodes.len() && g.nodes[p as int]
                        == DeviceView::Host(h);
                assert(ps@.contains(p));
                let j = choose|j: int| 0 <= j < ps@.len() && ps@[j] == p;
                assert(g.nodes[ps[j] as int] == DeviceView::Host(h));
            }
            if exists|j: int|
                0 <= j < i && g.nodes[(#[trigger] ps[j]) as int] == DeviceView::Host(h) {
                let j = choose|j: int|
                    0 <= j < i && g.nodes[(#[trigger] ps[j]) as int] == DeviceView::Host(h);
                assert(ps@.contains(ps[j]));
                assert(g.is_host(ps[j]));
                assert(g.parent_of(ps[j], m) && ps[j] < g.nodes.len());
            }
        }
    }
    Ok(())
}

/// The hosts that are parents of a SCSI device, or `HostNotFound` where one
/// of its parents is not a host.
pub fn get_hosts_from_scsi(dag: &Dag, nx: usize) -> (r: Result<Vec<Host>, Error>)
    ensures
        match r {
            Ok(hs) => {
                &&& !dag@.stray_parent(nx)
                &&& hs.deep_view().no_duplicates()
                &&& forall|h: Seq<char>| hs.deep_view().contains(h) <==> dag@.host_parent(nx, h)
            },
            Err(e) => e == Error::HostNotFound && dag@.stray_parent(nx),
        },
{
    let edges = dag_edge_list(dag);
    let mut hs: Vec<Host> = Vec::new();
    assert(hs.deep_view() =~= Seq::<Seq<char>>::empty());
    match hosts_of_in(dag, &edges, nx, &mut hs) {
        Ok(()) => Ok(hs),
        Err(e) => Err(e),
    }
}

/// The hosts that are parents of `s` or of one of its shared siblings.
fn peer_hosts_in(dag: &Dag, edges: &Vec<(usize, usize, Edge)>, s: usize) -> (r: Result<
    Vec<Host>,
    Error,
>)
    requires
        edges@ == dag@.edges,
        dag@.wf(),
    ensures
        match r {
            Ok(hs) => {
                &&& !dag@.peer_stray(s)
                &&& hs.deep_view().no_duplicates()
                &&& forall|h: Seq<char>| hs.deep_view().contains(h) <==> dag@.peer_host(s, h)
            },
            Err(e) => e == Error::HostNotFound && dag@.peer_stray(s),
        },
{
    let ghost g = dag@;
    let peers = peers_in(edges, s, true);
    let mut hs: Vec<Host> = Vec::new();
    let mut i: usize = 0;
    let mut ok = true;
    assert(hs.deep_view() =~= Seq::<Seq<char>>::empty());
    while i < peers.len() && ok
        invariant
            i <= peers.len(),
            g == dag@,
            g.wf(),
            edges@ == g.edges,
            forall|m: usize| peers@.contains(m) <==> g.peer(s, m),
            ok ==> hs.deep_view().no_duplicates(),
            ok ==> forall|j: int| 0 <= j < i ==> !g.stray_parent(#[trigger] peers[j]),
            ok ==> forall|h: Seq<char>|
                hs.deep_view().contains(h) <==> exists|j: int|
                    0 <= j < i && g.host_parent(#[trigger] peers[j], h),
            !ok ==> g.peer_stray(s),
        decreases peers.len() - i, if ok { 1nat } else { 0nat },
    {
        let m = peers[i];
        assert(peers@.contains(m));
        let ghost before = hs.deep_view();
        match hosts_of_in(dag, edges, m, &mut hs) {
            Ok(()) => {
                proof {
                    assert forall|h: Seq<char>|
                        hs.deep_view().contains(h) <==> exists|j: int|
                            0 <= j < i + 1 && g.host_parent(#[trigger] peers[j], h) by {
                        if g.host_parent(m, h) {
                            assert(g.host_parent(peers[i as int], h));
                        }
                        if before.contains(h) {
                            let j = choose|j: int|
                                0 <= j < i && g.host_parent(#[trigger] peers[j], h);
                            assert(0 <= j < i + 1 && g.host_parent(peers[j], h));
                        }
                        if exists|j: int| 0 <= j < i + 1 && g.host_parent(#[trigger] peers[j], h) {
                            let j = choose|j: int|
                                0 <= j < i + 1 && g.host_parent(#[trigger] peers[j], h);
                            if j < i {
                                assert(before.contains(h));
                            }
                        }
                    }
                }
                i += 1;
            },
            Err(_) => {
                assert(g.peer(s, m) && g.stray_parent(m));
                ok = false;
            },
        }
    }
    if !ok {
        return Err(Error::HostNotFound);
    }
    proof {
        assert(!g.peer_stray(s)) by {
            if g.peer_stray(s) {
                let m = choose|m: usize| #[trigger] g.peer(s, m) && g.stray_parent(m);
                assert(peers@.contains(m));
                let j = choose|j: int| 0 <= j < peers@.len() && peers@[j] == m;
                assert(!g.stray_parent(peers[j]));
            }
        }
        assert forall|h: Seq<char>| hs.deep_view().contains(h) <==> g.peer_host(s, h) by {
            if g.peer_host(s, h) {
                let m = choose|m: usize| #[trigger] g.peer(s, m) && g.host_parent(m, h);
                assert(peers@.contains(m));
                let j = choose|j: int| 0 <= j < peers@.len() && peers@[j] == m;
                assert(g.host_parent(peers[j], h));
            }
            if exists|j: int| 0 <= j < i && g.host_parent(#[trigger] peers[j], h) {
                let j = choose|j: int| 0 <= j < i && g.host_parent(#[trigger] peers[j], h);
                assert(peers@.contains(peers[j]));
                assert(g.peer(s, peers[j]) && g.host_parent(peers[j], h));
            }
        }
    }
    Ok(hs)
}

/// Which nodes are SCSI devices, or hosts.
fn mark_nodes(dag: &Dag, hosts: bool) -> (r: Vec<bool>)
    ensures
        r.len() == dag@.nodes.len(),
        forall|v: usize|
            v < r.len() ==> r[v as int] == if hosts {
                dag@.is_host(v)
            } else {
                dag@.is_scsi(v)
            },
{
    let n = dag_node_count(dag);
    let mut r: Vec<bool> = Vec::new();
    let mut i: usize = 0;
    while i < n
        invariant
            i <= n,
            n == dag@.nodes.len(),
            r.len() == i,
            forall|v: usize|
                v < i ==> r[v as int] == if hosts {
                    dag@.is_host(v)
                } else {
                    dag@.is_scsi(v)
                },
        decreases n - i,
    {
        let mark = match dag_node_weight(dag, i) {
            Some(Device::Host(_)) => hosts,
            Some(Device::ScsiDevice(_)) => !hosts,
            _ => false,
        };
        r.push(mark);
        i += 1;
    }
    r
}

/// The parent edges, each as a step from the child to the parent.
fn up_steps(edges: &Vec<(usize, usize, Edge)>, Ghost(n): Ghost<nat>) -> (r: Vec<(usize, usize)>)
    requires
        edges_wf(edges@, n),
    ensures
        forall|c: usize, p: usize|
            #[trigger] r@.contains((c, p)) <==> edges@.contains((p, c, Edge::Parent)),
        forall|k: int| 0 <= k < r.len() ==> (#[trigger] r[k]).0 < n && r[k].1 < n,
{
    let mut r: Vec<(usize, usize)> = Vec::new();
    let mut i: usize = 0;
    while i < edges.len()
        invariant
            i <= edges.len(),
            edges_wf(edges@, n),
            forall|c: usize, p: usize|
                #[trigger] r@.contains((c, p)) <==> edges@.subrange(0, i as int).contains(
                    (p, c, Edge::Parent),
                ),
            forall|k: int| 0 <= k < r.len() ==> (#[trigger] r[k]).0 < n && r[k].1 < n,
        decreases edges.len() - i,
    {
        let e = edges[i];
        let ghost before = r@;
        if e.2.is_parent() {
            r.push((e.1, e.0));
        }
        proof {
            assert forall|c: usize, p: usize|
                #[trigger] r@.contains((c, p)) <==> edges@.subrange(0, i + 1).contains(
                    (p, c, Edge::Parent),
                ) by {
                lemma_prefix_step(edges@, i as int, (p, c, Edge::Parent));
                if before.contains((c, p)) {
                    let j = choose|j: int| 0 <= j < before.len() && before[j] == (c, p);
                    assert(r@[j] == (c, p));
                }
                if e.2 == Edge::Parent && (c, p) == (e.1, e.0) {
                    assert(r@[before.len() as int] == (c, p));
                }
                if r@.contains((c, p)) {
                    let j = choose|j: int| 0 <= j < r@.len() && r@[j] == (c, p);
                    if j < before.len() {
                        assert(before[j] == (c, p));
                    }
                }
            }
        }
        i += 1;
    }
    assert(edges@.subrange(0, edges.len() as int) =~= edges@);
    r
}

/// Given a dag and a starting leaf device, walk up towards the root
/// collecting the set of hosts that can use this device.
/// The resulting set is an intersection of all hosts that can use the device.
pub fn get_distinct_hosts(dag: &Dag, nx: usize) -> (r: Result<Vec<Host>, Error>)
    ensures
        match r {
            Ok(hs) => {
                &&& nx < dag@.nodes.len()
                &&& hs.deep_view().no_duplicates()
                &&& forall|h: Seq<char>| hs.deep_view().contains(h) <==> dag@.distinct_host(nx, h)
                &&& forall|s: usize| #[trigger] dag@.scsi_ancestor(nx, s) ==> !dag@.peer_stray(s)
            },
            Err(e) => if nx >= dag@.nodes.len() {
                e == Error::NodeNotFound
            } else {
                e == Error::HostNotFound && exists|s: usize| #[trigger]
                    dag@.scsi_ancestor(nx, s) && dag@.peer_stray(s)
            },
        },
{
    let ghost g = dag@;
    let n = dag_node_count(dag);
    if nx >= n {
        return Err(Error::NodeNotFound);
    }
    let edges = dag_edge_list(dag);
    let stop = mark_nodes(dag, false);
    let ups = up_steps(&edges, Ghost(g.nodes.len()));
    let seen = closure(n, &ups, &stop, nx);
    proof {
        assert forall|v: usize| v < n implies (seen[v as int] <==> walks_to(
            g.up(),
            g.scsi_stop(),
            nx,
            v,
        )) by {
            if seen[v as int] {
                lemma_walk_mono(
                    listed(ups@),
                    marks(stop@),
                    g.up(),
                    g.scsi_stop(),
                    nx,
                    v,
                );
            }
            if walks_to(g.up(), g.scsi_stop(), nx, v) {
                lemma_walk_mono(
                    g.up(),
                    g.scsi_stop(),
                    listed(ups@),
                    marks(stop@),
                    nx,
                    v,
                );
            }
        }
    }
    let mut acc: Option<Vec<Host>> = None;
    let mut s: usize = 0;
    let mut ok = true;
    while s < n && ok
        invariant
            s <= n,
            n == g.nodes.len(),
            g == dag@,
            g.wf(),
            edges@ == g.edges,
            seen.len() == n,
            stop.len() == n,
            forall|v: usize| v < n ==> stop[v as int] == g.is_scsi(v),
            forall|v: usize|
                v < n ==> (seen[v as int] <==> walks_to(g.up(), g.scsi_stop(), nx, v)),
            ok ==> (acc is None <==> forall|t: usize| t < s ==> !g.scsi_ancestor(nx, t)),
            ok && acc is Some ==> acc->0.deep_view().no_duplicates(),
            ok && acc is Some ==> forall|h: Seq<char>|
                acc->0.deep_view().contains(h) <==> forall|t: usize|
                    t < s && #[trigger] g.scsi_ancestor(nx, t) ==> g.peer_host(t, h),
            ok ==> forall|t: usize| t < s && #[trigger] g.scsi_ancestor(nx, t) ==> !g.peer_stray(t),
            !ok ==> exists|t: usize| #[trigger] g.scsi_ancestor(nx, t) && g.peer_stray(t),
        decreases n - s, if ok { 1nat } else { 0nat },
    {
        if seen[s] && stop[s] {
            assert(g.scsi_ancestor(nx, s));
            match peer_hosts_in(dag, &edges, s) {
                Ok(hs) => {
                    let next = match acc {
                        None => hs,
                        Some(a) => intersect_hosts(&a, &hs),
                    };
                    acc = Some(next);
                    s += 1;
                },
                Err(_) => {
                    ok = false;
                },
            }
        } else {
            assert(!g.scsi_ancestor(nx, s));
            s += 1;
        }
    }
    if !ok {
        return Err(Error::HostNotFound);
    }
    let hs = match acc {
        Some(a) => a,
        None => {
            let e: Vec<Host> = Vec::new();
            assert(e.deep_view() =~= Seq::<Seq<char>>::empty());
            e
        },
    };
    proof {
        assert forall|t: usize| #[trigger] g.scsi_ancestor(nx, t) implies t < n by {}
    }
    Ok(hs)
}

/// Given a dag and a starting node, walk up the parents until the hosts are
/// hit.
pub fn get_active_hosts(dag: &Dag, nx: usize) -> (r: Result<Vec<Host>, Error>)
    ensures
        match r {
            Ok(hs) => {
                &&& nx < dag@.nodes.len()
                &&& hs.deep_view().no_duplicates()
                &&& forall|h: Seq<char>| hs.deep_view().contains(h) <==> dag@.active_host(nx, h)
            },
            Err(e) => nx >= dag@.nodes.len() && e == Error::NodeNotFound,
        },
{
    let ghost g = dag@;
    let n = dag_node_count(dag);
    if nx >= n {
        return Err(Error::NodeNotFound);
    }
    let edges = dag_edge_list(dag);
    let stop = mark_nodes(dag, true);
    let ups = up_steps(&edges, Ghost(g.nodes.len()));
    let seen = closure(n, &ups, &stop, nx);
    proof {
        assert forall|v: usize| v < n implies (seen[v as int] <==> walks_to(
            g.up(),
            g.host_stop(),
            nx,
            v,
        )) by {
            if seen[v as int] {
                lemma_walk_mono(
                    listed(ups@),
                    marks(stop@),
                    g.up(),
                    g.host_stop(),
                    nx,
                    v,
                );
            }
            if walks_to(g.up(), g.host_stop(), nx, v) {
                lemma_walk_mono(
                    g.up(),
                    g.host_stop(),
                    listed(ups@),
                    marks(stop@),
                    nx,
                    v,
                );
            }
        }
    }
    let mut hs: Vec<Host> = Vec::new();
    let mut p: usize = 0;
    assert(hs.deep_view() =~= Seq::<Seq<char>>::empty());
    while p < n
        invariant
            p <= n,
            n == g.nodes.len(),
            g == dag@,
            seen.len() == n,
            forall|v: usize|
                v < n ==> (seen[v as int] <==> walks_to(g.up(), g.host_stop(), nx, v)),
            hs.deep_view().no_duplicates(),
            forall|h: Seq<char>|
                hs.deep_view().contains(h) <==> exists|q: usize|
                    q < p && #[trigger] walks_to(g.up(), g.host_stop(), nx, q)
                        && g.nodes[q as int] == DeviceView::Host(h),
        decreases n - p,
    {
        let ghost before = hs.deep_view();
        if seen[p] {
            match dag_node_weight(dag, p) {
                Some(Device::Host(h)) => {
                    insert_host(&mut hs, h.clone());
                },
                _ => {},
            }
        }
        proof {
            assert forall|h: Seq<char>|
                hs.deep_view().contains(h) <==> exists|q: usize|
                    q < p + 1 && #[trigger] walks_to(g.up(), g.host_stop(), nx, q)
                        && g.nodes[q as int] == DeviceView::Host(h) by {
                if before.contains(h) {
                    let q = choose|q: usize|
                        q < p && #[trigger] walks_to(g.up(), g.host_stop(), nx, q)
                            && g.nodes[q as int] == DeviceView::Host(h);
                    assert(q < p + 1);
                }
                if exists|q: usize|
                    q < p + 1 && #[trigger] walks_to(g.up(), g.host_stop(), nx, q)
                        && g.nodes[q as int] == DeviceView::Host(h) {
                    let q = choose|q: usize|
                        q < p + 1 && #[trigger] walks_to(g.up(), g.host_stop(), nx, q)
                            && g.nodes[q as int] == DeviceView::Host(h);
                    if q < p {
                        assert(before.contains(h));
                    }
                }
            }
        }
        p += 1;
    }
    Ok(hs)
}

} // verus!
