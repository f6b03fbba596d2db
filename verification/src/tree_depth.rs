//! How deep the device tree of a host can be, and that the builder
//! populates all of it.

use crate::devices::{DeviceView, RootView};
use crate::error::Error;
use crate::graph::{
    add_children, add_pools, candidates, child_of, depth_bound, expand, expand_all, layered,
    level_count, lv_node, major_minor, md_node, merge, mpath_node, node_of, partition_node,
    pool_with_guid, scsi_node, tree_of, vg_node, zpool_node, BucketsView, RuleView,
};
use crate::mount::MountView;
use crate::pool::PoolView;
use crate::tree_laws::{
    lemma_add_children_members, lemma_add_datasets_members, lemma_candidates_fresh,
    lemma_merge_members, lemma_push_unique_members,
};
use crate::uevent::UEventView;
use vstd::prelude::*;

verus! {

/// The root of a tree that is not populated yet.
pub open spec fn bare_root() -> DeviceView {
    DeviceView::Root(RootView { children: Seq::empty() })
}

/// A chain of devices that are layered on each other: it starts at the root,
/// and each further member is one of the children that the rules give the
/// member before it.
pub open spec fn is_chain(p: Seq<DeviceView>, b: BucketsView, ms: Seq<MountView>) -> bool {
    &&& p.len() > 0
    &&& p[0] == bare_root()
    &&& forall|i: int|
        0 <= i < p.len() - 1 ==> candidates(#[trigger] p[i], b, ms).contains(p[i + 1])
}

/// No device is layered on itself: no chain meets a device twice.
pub open spec fn layered_once(b: BucketsView, ms: Seq<MountView>) -> bool {
    forall|p: Seq<DeviceView>| #[trigger] is_chain(p, b, ms) ==> p.no_duplicates()
}

/// What the buckets can give, one place for each device: the node of each
/// event by the rule of its bucket, for the events of logical volumes the
/// node of the volume group too, and the node of each pool.
spec fn sources(b: BucketsView, ms: Seq<MountView>) -> Seq<Result<DeviceView, Error>> {
    Seq::new(b.rest.len(), |i: int| scsi_node(b.rest[i], ms)) + Seq::new(
        b.partitions.len(),
        |i: int| partition_node(b.partitions[i], ms),
    ) + Seq::new(b.mpaths.len(), |i: int| mpath_node(b.mpaths[i], ms)) + Seq::new(
        b.mds.len(),
        |i: int| md_node(b.mds[i], ms),
    ) + Seq::new(b.dms.len(), |i: int| vg_node(b.dms[i])) + Seq::new(
        b.dms.len(),
        |i: int| lv_node(b.dms[i], ms),
    ) + Seq::new(b.pools.len(), |i: int| zpool_node(b.pools[i], ms))
}

/// The place of a source in the list of sources.
proof fn lemma_source_at(b: BucketsView, ms: Seq<MountView>, part: int, i: int)
    requires
        0 <= part < 7,
        0 <= i,
        part == 0 ==> i < b.rest.len(),
        part == 1 ==> i < b.partitions.len(),
        part == 2 ==> i < b.mpaths.len(),
        part == 3 ==> i < b.mds.len(),
        part == 4 ==> i < b.dms.len(),
        part == 5 ==> i < b.dms.len(),
        part == 6 ==> i < b.pools.len(),
    ensures
        part == 0 ==> sources(b, ms).contains(scsi_node(b.rest[i], ms)),
        part == 1 ==> sources(b, ms).contains(partition_node(b.partitions[i], ms)),
        part == 2 ==> sources(b, ms).contains(mpath_node(b.mpaths[i], ms)),
        part == 3 ==> sources(b, ms).contains(md_node(b.mds[i], ms)),
        part == 4 ==> sources(b, ms).contains(vg_node(b.dms[i])),
        part == 5 ==> sources(b, ms).contains(lv_node(b.dms[i], ms)),
        part == 6 ==> sources(b, ms).contains(zpool_node(b.pools[i], ms)),
{
    let s = sources(b, ms);
    let n0 = b.rest.len() as int;
    let n1 = n0 + b.partitions.len();
    let n2 = n1 + b.mpaths.len();
    let n3 = n2 + b.mds.len();
    let n4 = n3 + b.dms.len();
    let n5 = n4 + b.dms.len();
    if part == 0 {
        assert(s[i] == scsi_node(b.rest[i], ms));
    } else if part == 1 {
        assert(s[n0 + i] == partition_node(b.partitions[i], ms));
    } else if part == 2 {
        assert(s[n1 + i] == mpath_node(b.mpaths[i], ms));
    } else if part == 3 {
        assert(s[n2 + i] == md_node(b.mds[i], ms));
    } else if part == 4 {
        assert(s[n3 + i] == vg_node(b.dms[i]));
    } else if part == 5 {
        assert(s[n4 + i] == lv_node(b.dms[i], ms));
    } else {
        assert(s[n5 + i] == zpool_node(b.pools[i], ms));
    }
}

/// A child that a rule yields over a bucket is the node of one of its events.
proof fn lemma_picked_event(
    part: Seq<UEventView>,
    rule: RuleView,
    ms: Seq<MountView>,
    x: DeviceView,
) -> (i: int)
    requires
        add_children(Seq::empty(), part, rule, ms).contains(x),
    ensures
        0 <= i < part.len(),
        node_of(rule, part[i], ms) == Ok::<DeviceView, Error>(x),
{
    lemma_add_children_members(Seq::empty(), part, rule, ms, x);
    let e = choose|e: UEventView| #[trigger] part.contains(e) && child_of(rule, e, ms) == Some(x);
    choose|i: int| 0 <= i < part.len() && part[i] == e
}

/// A pool that is picked is the node of one of the pools.
proof fn lemma_picked_pool(
    acc: Seq<DeviceView>,
    pools: Seq<PoolView>,
    paths: Seq<Seq<char>>,
    ms: Seq<MountView>,
    x: DeviceView,
)
    requires
        add_pools(acc, pools, paths, ms).contains(x),
    ensures
        acc.contains(x) || exists|i: int|
            0 <= i < pools.len() && #[trigger] zpool_node(pools[i], ms) == Ok::<DeviceView, Error>(
                x,
            ),
    decreases pools.len(),
{
    if pools.len() > 0 {
        let r = add_pools(acc, pools.drop_last(), paths, ms);
        let p = pools.last();
        if crate::text::intersects(paths, crate::pool::vdev_paths(p.vdev)) && zpool_node(p, ms)
            is Ok {
            lemma_push_unique_members(r, zpool_node(p, ms)->Ok_0, x);
            if x == zpool_node(p, ms)->Ok_0 {
                assert(zpool_node(pools[pools.len() - 1], ms) == Ok::<DeviceView, Error>(x));
            }
        }
        if r.contains(x) {
            lemma_picked_pool(acc, pools.drop_last(), paths, ms, x);
            if !acc.contains(x) {
                let i = choose|i: int|
                    0 <= i < pools.drop_last().len() && #[trigger] zpool_node(
                        pools.drop_last()[i],
                        ms,
                    ) == Ok::<DeviceView, Error>(x);
                assert(zpool_node(pools[i], ms) == Ok::<DeviceView, Error>(x));
            }
        }
    }
}

proof fn lemma_pool_source(b: BucketsView, ms: Seq<MountView>, paths: Seq<Seq<char>>, x: DeviceView)
    requires
        add_pools(Seq::empty(), b.pools, paths, ms).contains(x),
    ensures
        sources(b, ms).contains(Ok(x)),
{
    lemma_picked_pool(Seq::empty(), b.pools, paths, ms, x);
    let i = choose|i: int|
        0 <= i < b.pools.len() && #[trigger] zpool_node(b.pools[i], ms) == Ok::<DeviceView, Error>(
            x,
        );
    lemma_source_at(b, ms, 6, i);
}

proof fn lemma_layered_source(
    b: BucketsView,
    ms: Seq<MountView>,
    major: Seq<char>,
    minor: Seq<char>,
    paths: Seq<Seq<char>>,
    x: DeviceView,
)
    requires
        layered(b, ms, major, minor, paths).contains(x),
    ensures
        sources(b, ms).contains(Ok(x)),
{
    let mm = major_minor(major, minor);
    let vgs = add_children(Seq::empty(), b.dms, RuleView::VolumeGroup(mm), Seq::empty());
    let partitions = add_children(Seq::empty(), b.partitions, RuleView::Partition(mm), ms);
    let mds = add_children(Seq::empty(), b.mds, RuleView::MdRaid(paths), ms);
    let pools = add_pools(Seq::empty(), b.pools, paths, ms);
    lemma_merge_members(merge(merge(vgs, partitions), mds), pools, x);
    if pools.contains(x) {
        lemma_pool_source(b, ms, paths, x);
    } else {
        lemma_merge_members(merge(vgs, partitions), mds, x);
        if mds.contains(x) {
            let i = lemma_picked_event(b.mds, RuleView::MdRaid(paths), ms, x);
            lemma_source_at(b, ms, 3, i);
        } else {
            lemma_merge_members(vgs, partitions, x);
            if partitions.contains(x) {
                let i = lemma_picked_event(b.partitions, RuleView::Partition(mm), ms, x);
                lemma_source_at(b, ms, 1, i);
            } else {
                let i = lemma_picked_event(b.dms, RuleView::VolumeGroup(mm), Seq::empty(), x);
                lemma_source_at(b, ms, 4, i);
            }
        }
    }
}

/// A child that the rules give a device is a dataset or one of the sources.
proof fn lemma_candidate_source(d: DeviceView, b: BucketsView, ms: Seq<MountView>, x: DeviceView)
    requires
        candidates(d, b, ms).contains(x),
    ensures
        x is Dataset || sources(b, ms).contains(Ok(x)),
{
    match d {
        DeviceView::Root(_) => {
            let i = lemma_picked_event(b.rest, RuleView::Scsi, ms, x);
            lemma_source_at(b, ms, 0, i);
        },
        DeviceView::ScsiDevice(v) => {
            let mm = major_minor(v.major, v.minor);
            let mpaths = add_children(Seq::empty(), b.mpaths, RuleView::Mpath(mm), ms);
            lemma_merge_members(mpaths, layered(b, ms, v.major, v.minor, v.paths), x);
            if mpaths.contains(x) {
                let i = lemma_picked_event(b.mpaths, RuleView::Mpath(mm), ms, x);
                lemma_source_at(b, ms, 2, i);
            } else {
                lemma_layered_source(b, ms, v.major, v.minor, v.paths, x);
            }
        },
        DeviceView::Partition(v) => {
            let mm = major_minor(v.major, v.minor);
            let mpaths = add_children(Seq::empty(), b.mpaths, RuleView::Mpath(mm), ms);
            lemma_merge_members(mpaths, layered(b, ms, v.major, v.minor, v.paths), x);
            if mpaths.contains(x) {
                let i = lemma_picked_event(b.mpaths, RuleView::Mpath(mm), ms, x);
                lemma_source_at(b, ms, 2, i);
            } else {
                lemma_layered_source(b, ms, v.major, v.minor, v.paths, x);
            }
        },
        DeviceView::Mpath(v) => {
            lemma_layered_source(b, ms, v.major, v.minor, v.paths, x);
        },
        DeviceView::MdRaid(v) => {
            lemma_layered_source(b, ms, v.major, v.minor, v.paths, x);
        },
        DeviceView::VolumeGroup(v) => {
            let i = lemma_picked_event(b.dms, RuleView::LogicalVolume(v.uuid), ms, x);
            lemma_source_at(b, ms, 5, i);
        },
        DeviceView::LogicalVolume(v) => {
            let mm = major_minor(v.major, v.minor);
            let partitions = add_children(Seq::empty(), b.partitions, RuleView::Partition(mm), ms);
            let pools = add_pools(Seq::empty(), b.pools, v.paths, ms);
            lemma_merge_members(partitions, pools, x);
            if partitions.contains(x) {
                let i = lemma_picked_event(b.partitions, RuleView::Partition(mm), ms, x);
                lemma_source_at(b, ms, 1, i);
            } else {
                lemma_pool_source(b, ms, v.paths, x);
            }
        },
        DeviceView::Zpool(v) => {
            match pool_with_guid(b.pools, v.guid) {
                Some(p) => {
                    lemma_add_datasets_members(Seq::empty(), v.guid, p.datasets, ms, x);
                },
                None => {},
            }
        },
        DeviceView::Dataset(_) => {},
    }
}

/// A chain without a device twice has at most a member for each device that
/// the buckets can give, the root before them and a dataset after them.
pub proof fn law_chains_are_short(p: Seq<DeviceView>, b: BucketsView, ms: Seq<MountView>)
    requires
        is_chain(p, b, ms),
        p.no_duplicates(),
    ensures
        p.len() <= level_count(b) + 2,
{
    let s = sources(b, ms);
    if p.len() > 2 {
        // all but the first and the last are sources, each another one
        let q = Seq::new((p.len() - 2) as nat, |j: int| Ok::<DeviceView, Error>(p[j + 1]));
        assert forall|j: int| 0 <= j < q.len() implies s.to_set().contains(#[trigger] q[j]) by {
            assert(candidates(p[j], b, ms).contains(p[j + 1]));
            lemma_candidate_source(p[j], b, ms, p[j + 1]);
            assert(candidates(p[j + 1], b, ms).contains(p[j + 2]));
        }
        assert forall|i: int, j: int| 0 <= i < q.len() && 0 <= j < q.len() && i != j implies q[i]
            != q[j] by {
            assert(p[i + 1] != p[j + 1]);
        }
        q.unique_seq_to_set();
        s.lemma_cardinality_of_set();
        vstd::seq_lib::seq_to_set_is_finite(s);
        assert(q.to_set().subset_of(s.to_set())) by {
            assert forall|r: Result<DeviceView, Error>| q.to_set().contains(r) implies s.to_set().contains(
                r,
            ) by {
                let j = choose|j: int| 0 <= j < q.len() && q[j] == r;
                assert(s.to_set().contains(q[j]));
            }
        }
        vstd::set_lib::lemma_len_subset(q.to_set(), s.to_set());
        assert(s.len() == level_count(b));
    }
}

/// Where no device is layered on itself, a device at the end of a chain that
/// is as long as a chain can be has no children.
pub proof fn law_longest_chains_end(p: Seq<DeviceView>, b: BucketsView, ms: Seq<MountView>)
    requires
        layered_once(b, ms),
        is_chain(p, b, ms),
        p.len() >= level_count(b) + 2,
    ensures
        candidates(p.last(), b, ms) =~= Seq::empty(),
{
    let c = candidates(p.last(), b, ms);
    if c.len() > 0 {
        lemma_chain_grows(p, b, ms, c[0]);
        law_chains_are_short(p.push(c[0]), b, ms);
    }
}

/// A chain with a child of its last member at its end is a chain.
proof fn lemma_chain_grows(p: Seq<DeviceView>, b: BucketsView, ms: Seq<MountView>, x: DeviceView)
    requires
        is_chain(p, b, ms),
        candidates(p.last(), b, ms).contains(x),
    ensures
        is_chain(p.push(x), b, ms),
        layered_once(b, ms) ==> p.push(x).no_duplicates(),
{
    let q = p.push(x);
    assert forall|i: int| 0 <= i < q.len() - 1 implies candidates(#[trigger] q[i], b, ms).contains(
        q[i + 1],
    ) by {
        if i < p.len() - 1 {
            assert(q[i] == p[i] && q[i + 1] == p[i + 1]);
        }
    }
}

/// The last member of a chain has nothing below it.
proof fn lemma_chain_end_is_bare(p: Seq<DeviceView>, b: BucketsView, ms: Seq<MountView>)
    requires
        is_chain(p, b, ms),
    ensures
        p.last().with_children(Seq::empty()) == p.last(),
{
    if p.len() > 1 {
        assert(candidates(p[p.len() - 2], b, ms).contains(p[p.len() - 2 + 1]));
        lemma_candidates_fresh(p[p.len() - 2], b, ms, p.last());
        assert(p.last().children() =~= Seq::empty());
    }
}

/// Below the end of a chain, one level more than a chain can still reach
/// adds nothing.
proof fn lemma_expand_settles(p: Seq<DeviceView>, b: BucketsView, ms: Seq<MountView>, r: nat)
    requires
        layered_once(b, ms),
        is_chain(p, b, ms),
        p.len() + r >= level_count(b) + 2,
    ensures
        expand(p.last(), b, ms, r) == expand(p.last(), b, ms, r + 1),
    decreases r,
{
    let x = p.last();
    let c = candidates(x, b, ms);
    if r == 0 {
        law_longest_chains_end(p, b, ms);
        lemma_chain_end_is_bare(p, b, ms);
        assert(expand_all(c, b, ms, 0) =~= Seq::empty());
    } else {
        assert forall|i: int| 0 <= i < c.len() implies expand(c[i], b, ms, (r - 1) as nat)
            == expand(c[i], b, ms, r) by {
            lemma_chain_grows(p, b, ms, c[i]);
            lemma_expand_settles(p.push(c[i]), b, ms, (r - 1) as nat);
        }
        assert(expand_all(c, b, ms, (r - 1) as nat) =~= expand_all(c, b, ms, r));
    }
}

/// Where no device is layered on itself, the tree of a host is complete: to
/// populate it any deeper gives the same tree.
pub proof fn law_tree_is_complete(b: BucketsView, ms: Seq<MountView>, depth: nat)
    requires
        layered_once(b, ms),
        level_count(b) + 2 <= usize::MAX,
        depth >= depth_bound(b),
    ensures
        expand(bare_root(), b, ms, depth) == tree_of(b, ms),
    decreases depth,
{
    if depth > depth_bound(b) {
        let p = seq![bare_root()];
        assert(is_chain(p, b, ms));
        assert(p.last() == bare_root());
        lemma_expand_settles(p, b, ms, (depth - 1) as nat);
        law_tree_is_complete(b, ms, (depth - 1) as nat);
    }
}

/// Every node of the tree has below it exactly the children that the rules
/// give it, in their order, and each of them is populated in the same way.
pub open spec fn populated(t: DeviceView, b: BucketsView, ms: Seq<MountView>) -> bool
    decreases t,
{
    &&& t.children().len() == candidates(t, b, ms).len()
    &&& forall|i: int|
        #![trigger t.children()[i]]
        0 <= i < t.children().len() ==> t.children()[i].with_children(Seq::empty()) == candidates(
            t,
            b,
            ms,
        )[i] && populated(t.children()[i], b, ms)
}

/// The children that the rules give a node do not depend on what hangs
/// below it.
proof fn lemma_candidates_of_bare(
    d: DeviceView,
    k: Seq<DeviceView>,
    b: BucketsView,
    ms: Seq<MountView>,
)
    ensures
        candidates(d.with_children(k), b, ms) == candidates(d, b, ms),
        d.with_children(k).with_children(Seq::empty()) == d.with_children(Seq::empty()),
        d is Dataset ==> d.with_children(k).children() == Seq::<DeviceView>::empty(),
        !(d is Dataset) ==> d.with_children(k).children() == k,
{
}

/// Below the end of a chain, the builder populates all there is, given as
/// many levels as a chain can still reach.
proof fn lemma_expand_populated(p: Seq<DeviceView>, b: BucketsView, ms: Seq<MountView>, r: nat)
    requires
        layered_once(b, ms),
        is_chain(p, b, ms),
        p.len() + r >= level_count(b) + 2,
    ensures
        populated(expand(p.last(), b, ms, r), b, ms),
    decreases r,
{
    let x = p.last();
    let c = candidates(x, b, ms);
    let t = expand(x, b, ms, r);
    lemma_chain_end_is_bare(p, b, ms);
    lemma_candidates_of_bare(x, Seq::empty(), b, ms);
    if r == 0 {
        law_longest_chains_end(p, b, ms);
    } else {
        let kids = expand_all(c, b, ms, (r - 1) as nat);
        lemma_candidates_of_bare(x, kids, b, ms);
        assert(t.children().len() == c.len());
        assert forall|i: int| #![trigger t.children()[i]] 0 <= i < t.children().len() implies t.children()[i].with_children(
        Seq::empty()) == c[i] && populated(t.children()[i], b, ms) by {
            assert(t.children()[i] == expand(c[i], b, ms, (r - 1) as nat));
            assert(c.contains(c[i]));
            lemma_candidates_fresh(x, b, ms, c[i]);
            if r > 1 {
                lemma_candidates_of_bare(
                    c[i],
                    expand_all(candidates(c[i], b, ms), b, ms, (r - 2) as nat),
                    b,
                    ms,
                );
            }
            lemma_chain_grows(p, b, ms, c[i]);
            lemma_expand_populated(p.push(c[i]), b, ms, (r - 1) as nat);
        }
    }
}

/// Where no device is layered on itself, every node of the tree of a host
/// has below it all the children that the rules give it: no level is cut
/// off.
pub proof fn law_tree_is_populated(b: BucketsView, ms: Seq<MountView>)
    requires
        layered_once(b, ms),
        level_count(b) + 2 <= usize::MAX,
    ensures
        populated(tree_of(b, ms), b, ms),
{
    let p = seq![bare_root()];
    assert(is_chain(p, b, ms));
    assert(p.last() == bare_root());
    lemma_expand_populated(p, b, ms, depth_bound(b));
}

} // verus!
