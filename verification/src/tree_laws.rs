//! What holds of every device tree that the builder makes.

use crate::daemon::{buckets_of, pool_values, usable_values};
use crate::devices::DeviceView;
use crate::error::Error;
use crate::graph::{
    add_children, add_datasets, add_pools, candidates, child_of, dataset_node, expand, expand_all,
    layered, merge, node_of, pool_with_guid, push_unique, tree_of, zpool_node, BucketsView,
    RuleView,
};
use crate::mount::MountView;
use crate::node::DeviceType;
use crate::pool::{DatasetView, PoolView};
use crate::uevent::UEventView;
use vstd::prelude::*;

verus! {

/// `n` is the node that some rule makes of the event `e`, with whatever
/// hangs below it.
pub open spec fn made_from(n: DeviceView, e: UEventView, ms: Seq<MountView>) -> bool {
    exists|rule: RuleView| #[trigger]
        node_of(rule, e, ms) == Ok::<DeviceView, Error>(n.with_children(Seq::empty()))
}

/// `n` is the root, a pool or a dataset, or it is made from one of the
/// events `evs`.
pub open spec fn grounded(n: DeviceView, evs: Seq<UEventView>, ms: Seq<MountView>) -> bool {
    n is Root || n is Zpool || n is Dataset || exists|e: UEventView| #[trigger]
        evs.contains(e) && made_from(n, e, ms)
}

/// Every node of the tree `t` is grounded.
pub open spec fn grounded_tree(t: DeviceView, evs: Seq<UEventView>, ms: Seq<MountView>) -> bool
    decreases t,
{
    &&& grounded(t, evs, ms)
    &&& forall|i: int|
        0 <= i < t.children().len() ==> grounded_tree(#[trigger] t.children()[i], evs, ms)
}

/// All the events of the buckets.
pub open spec fn all_events(b: BucketsView) -> Seq<UEventView> {
    b.dms + b.mds + b.mpaths + b.partitions + b.rest
}

/// A node as a rule has just made it: grounded and with nothing below it.
pub(crate) open spec fn fresh(c: DeviceView, evs: Seq<UEventView>, ms: Seq<MountView>) -> bool {
    c.children() =~= Seq::empty() && grounded(c, evs, ms)
}

pub(crate) proof fn lemma_push_unique_members(s: Seq<DeviceView>, d: DeviceView, x: DeviceView)
    requires
        push_unique(s, d).contains(x),
    ensures
        s.contains(x) || x == d,
{
    if !s.contains(d) {
        let i = choose|i: int| 0 <= i < s.push(d).len() && s.push(d)[i] == x;
        if i < s.len() {
            assert(s[i] == x);
        }
    }
}

pub(crate) proof fn lemma_add_children_members(
    acc: Seq<DeviceView>,
    evs: Seq<UEventView>,
    rule: RuleView,
    ms: Seq<MountView>,
    x: DeviceView,
)
    requires
        add_children(acc, evs, rule, ms).contains(x),
    ensures
        acc.contains(x) || exists|e: UEventView| #[trigger]
            evs.contains(e) && child_of(rule, e, ms) == Some(x),
    decreases evs.len(),
{
    if evs.len() > 0 {
        let r = add_children(acc, evs.drop_last(), rule, ms);
        let last = evs.last();
        assert(evs.contains(last)) by {
            assert(evs[evs.len() - 1] == last);
        }
        match child_of(rule, last, ms) {
            Some(d) => {
                lemma_push_unique_members(r, d, x);
                if x == d {
                    assert(evs.contains(last) && child_of(rule, last, ms) == Some(x));
                }
            },
            None => {},
        }
        if r.contains(x) {
            lemma_add_children_members(acc, evs.drop_last(), rule, ms, x);
            if !acc.contains(x) {
                let e = choose|e: UEventView| #[trigger]
                    evs.drop_last().contains(e) && child_of(rule, e, ms) == Some(x);
                let i = choose|i: int| 0 <= i < evs.drop_last().len() && evs.drop_last()[i] == e;
                assert(evs[i] == e);
                assert(evs.contains(e) && child_of(rule, e, ms) == Some(x));
            }
        }
    }
}

proof fn lemma_add_pools_members(
    acc: Seq<DeviceView>,
    pools: Seq<PoolView>,
    paths: Seq<Seq<char>>,
    ms: Seq<MountView>,
    x: DeviceView,
)
    requires
        add_pools(acc, pools, paths, ms).contains(x),
    ensures
        acc.contains(x) || (x is Zpool && x.children() =~= Seq::empty()),
    decreases pools.len(),
{
    if pools.len() > 0 {
        let r = add_pools(acc, pools.drop_last(), paths, ms);
        let p = pools.last();
        if crate::text::intersects(paths, crate::pool::vdev_paths(p.vdev)) && zpool_node(p, ms)
            is Ok {
            lemma_push_unique_members(r, zpool_node(p, ms)->Ok_0, x);
        }
        if r.contains(x) {
            lemma_add_pools_members(acc, pools.drop_last(), paths, ms, x);
        }
    }
}

pub(crate) proof fn lemma_add_datasets_members(
    acc: Seq<DeviceView>,
    guid: u64,
    ds: Seq<DatasetView>,
    ms: Seq<MountView>,
    x: DeviceView,
)
    requires
        add_datasets(acc, guid, ds, ms).contains(x),
    ensures
        acc.contains(x) || (x is Dataset && x->Dataset_0.pool_guid == guid),
    decreases ds.len(),
{
    if ds.len() > 0 {
        let r = add_datasets(acc, guid, ds.drop_last(), ms);
        lemma_push_unique_members(r, dataset_node(guid, ds.last(), ms), x);
        if r.contains(x) {
            lemma_add_datasets_members(acc, guid, ds.drop_last(), ms, x);
        }
    }
}

pub(crate) proof fn lemma_merge_members(a: Seq<DeviceView>, b: Seq<DeviceView>, x: DeviceView)
    requires
        merge(a, b).contains(x),
    ensures
        a.contains(x) || b.contains(x),
    decreases b.len(),
{
    if b.len() > 0 {
        lemma_push_unique_members(merge(a, b.drop_last()), b.last(), x);
        if x == b.last() {
            assert(b[b.len() - 1] == x);
        } else {
            lemma_merge_members(a, b.drop_last(), x);
            if !a.contains(x) {
                let i = choose|i: int| 0 <= i < b.drop_last().len() && b.drop_last()[i] == x;
                assert(b[i] == x);
            }
        }
    }
}

/// A child that a rule yields over some of the buckets' events is fresh.
proof fn lemma_picked_is_fresh(
    part: Seq<UEventView>,
    rule: RuleView,
    b: BucketsView,
    ms: Seq<MountView>,
    x: DeviceView,
)
    requires
        add_children(Seq::empty(), part, rule, ms).contains(x),
        forall|e: UEventView| part.contains(e) ==> all_events(b).contains(e),
    ensures
        fresh(x, all_events(b), ms),
{
    lemma_add_children_members(Seq::empty(), part, rule, ms, x);
    let e = choose|e: UEventView| #[trigger] part.contains(e) && child_of(rule, e, ms) == Some(x);
    assert(node_of(rule, e, ms) == Ok::<DeviceView, Error>(x));
    assert(x.children() =~= Seq::empty());
    assert(x.with_children(Seq::empty()) == x);
    assert(all_events(b).contains(e) && made_from(x, e, ms));
}

/// A child that a rule yields over one of the buckets, with the mounts left
/// out, is fresh. (Volume groups are made without looking at the mounts.)
proof fn lemma_picked_vg_is_fresh(b: BucketsView, mm: Seq<char>, ms: Seq<MountView>, x: DeviceView)
    requires
        add_children(Seq::empty(), b.dms, RuleView::VolumeGroup(mm), Seq::empty()).contains(x),
    ensures
        fresh(x, all_events(b), ms),
{
    let rule = RuleView::VolumeGroup(mm);
    lemma_add_children_members(Seq::empty(), b.dms, rule, Seq::empty(), x);
    let e = choose|e: UEventView| #[trigger]
        b.dms.contains(e) && child_of(rule, e, Seq::empty()) == Some(x);
    lemma_buckets_in_all(b);
    assert(node_of(rule, e, ms) == Ok::<DeviceView, Error>(x));
    assert(x.children() =~= Seq::empty());
    assert(x.with_children(Seq::empty()) == x);
    assert(all_events(b).contains(e) && made_from(x, e, ms));
}

proof fn lemma_buckets_in_all(b: BucketsView)
    ensures
        forall|e: UEventView| b.dms.contains(e) ==> all_events(b).contains(e),
        forall|e: UEventView| b.mds.contains(e) ==> all_events(b).contains(e),
        forall|e: UEventView| b.mpaths.contains(e) ==> all_events(b).contains(e),
        forall|e: UEventView| b.partitions.contains(e) ==> all_events(b).contains(e),
        forall|e: UEventView| b.rest.contains(e) ==> all_events(b).contains(e),
{
    let all = all_events(b);
    assert forall|e: UEventView| b.dms.contains(e) implies all.contains(e) by {
        let i = choose|i: int| 0 <= i < b.dms.len() && b.dms[i] == e;
        assert(all[i] == e);
    }
    assert forall|e: UEventView| b.mds.contains(e) implies all.contains(e) by {
        let i = choose|i: int| 0 <= i < b.mds.len() && b.mds[i] == e;
        assert(all[b.dms.len() + i] == e);
    }
    assert forall|e: UEventView| b.mpaths.contains(e) implies all.contains(e) by {
        let i = choose|i: int| 0 <= i < b.mpaths.len() && b.mpaths[i] == e;
        assert(all[b.dms.len() + b.mds.len() + i] == e);
    }
    assert forall|e: UEventView| b.partitions.contains(e) implies all.contains(e) by {
        let i = choose|i: int| 0 <= i < b.partitions.len() && b.partitions[i] == e;
        assert(all[b.dms.len() + b.mds.len() + b.mpaths.len() + i] == e);
    }
    assert forall|e: UEventView| b.rest.contains(e) implies all.contains(e) by {
        let i = choose|i: int| 0 <= i < b.rest.len() && b.rest[i] == e;
        assert(all[b.dms.len() + b.mds.len() + b.mpaths.len() + b.partitions.len() + i] == e);
    }
}

proof fn lemma_layered_fresh(
    b: BucketsView,
    ms: Seq<MountView>,
    major: Seq<char>,
    minor: Seq<char>,
    paths: Seq<Seq<char>>,
    x: DeviceView,
)
    requires
        layered(b, ms, major, minor, paths).contains(x),
    ensures
        fresh(x, all_events(b), ms),
{
    let mm = crate::graph::major_minor(major, minor);
    let vgs = add_children(Seq::empty(), b.dms, RuleView::VolumeGroup(mm), Seq::empty());
    let partitions = add_children(Seq::empty(), b.partitions, RuleView::Partition(mm), ms);
    let mds = add_children(Seq::empty(), b.mds, RuleView::MdRaid(paths), ms);
    let pools = add_pools(Seq::empty(), b.pools, paths, ms);
    lemma_buckets_in_all(b);
    lemma_merge_members(merge(merge(vgs, partitions), mds), pools, x);
    if pools.contains(x) {
        lemma_add_pools_members(Seq::empty(), b.pools, paths, ms, x);
    } else {
        lemma_merge_members(merge(vgs, partitions), mds, x);
        if mds.contains(x) {
            lemma_picked_is_fresh(b.mds, RuleView::MdRaid(paths), b, ms, x);
        } else {
            lemma_merge_members(vgs, partitions, x);
            if partitions.contains(x) {
                lemma_picked_is_fresh(b.partitions, RuleView::Partition(mm), b, ms, x);
            } else {
                lemma_picked_vg_is_fresh(b, mm, ms, x);
            }
        }
    }
}

pub(crate) proof fn lemma_candidates_fresh(d: DeviceView, b: BucketsView, ms: Seq<MountView>, x: DeviceView)
    requires
        candidates(d, b, ms).contains(x),
    ensures
        fresh(x, all_events(b), ms),
{
    lemma_buckets_in_all(b);
    match d {
        DeviceView::Root(_) => {
            lemma_picked_is_fresh(b.rest, RuleView::Scsi, b, ms, x);
        },
        DeviceView::ScsiDevice(v) => {
            let mm = crate::graph::major_minor(v.major, v.minor);
            let mpaths = add_children(Seq::empty(), b.mpaths, RuleView::Mpath(mm), ms);
            lemma_merge_members(mpaths, layered(b, ms, v.major, v.minor, v.paths), x);
            if mpaths.contains(x) {
                lemma_picked_is_fresh(b.mpaths, RuleView::Mpath(mm), b, ms, x);
            } else {
                lemma_layered_fresh(b, ms, v.major, v.minor, v.paths, x);
            }
        },
        DeviceView::Partition(v) => {
            let mm = crate::graph::major_minor(v.major, v.minor);
            let mpaths = add_children(Seq::empty(), b.mpaths, RuleView::Mpath(mm), ms);
            lemma_merge_members(mpaths, layered(b, ms, v.major, v.minor, v.paths), x);
            if mpaths.contains(x) {
                lemma_picked_is_fresh(b.mpaths, RuleView::Mpath(mm), b, ms, x);
            } else {
                lemma_layered_fresh(b, ms, v.major, v.minor, v.paths, x);
            }
        },
        DeviceView::Mpath(v) => {
            lemma_layered_fresh(b, ms, v.major, v.minor, v.paths, x);
        },
        DeviceView::MdRaid(v) => {
            lemma_layered_fresh(b, ms, v.major, v.minor, v.paths, x);
        },
        DeviceView::VolumeGroup(v) => {
            lemma_picked_is_fresh(b.dms, RuleView::LogicalVolume(v.uuid), b, ms, x);
        },
        DeviceView::LogicalVolume(v) => {
            let mm = crate::graph::major_minor(v.major, v.minor);
            let partitions = add_children(Seq::empty(), b.partitions, RuleView::Partition(mm), ms);
            let pools = add_pools(Seq::empty(), b.pools, v.paths, ms);
            lemma_merge_members(partitions, pools, x);
            if partitions.contains(x) {
                lemma_picked_is_fresh(b.partitions, RuleView::Partition(mm), b, ms, x);
            } else {
                lemma_add_pools_members(Seq::empty(), b.pools, v.paths, ms, x);
            }
        },
        DeviceView::Zpool(v) => {
            match pool_with_guid(b.pools, v.guid) {
                Some(p) => {
                    lemma_add_datasets_members(Seq::empty(), v.guid, p.datasets, ms, x);
                },
                None => {},
            }
        },
        DeviceView::Dataset(_) => {},
    }
}

proof fn lemma_expand_grounded(d: DeviceView, b: BucketsView, ms: Seq<MountView>, depth: nat)
    requires
        fresh(d, all_events(b), ms),
    ensures
        grounded_tree(expand(d, b, ms, depth), all_events(b), ms),
    decreases depth,
{
    let evs = all_events(b);
    if depth > 0 {
        let c = candidates(d, b, ms);
        let kids = expand_all(c, b, ms, (depth - 1) as nat);
        let t = expand(d, b, ms, depth);
        assert(t == d.with_children(kids));
        assert(t.with_children(Seq::empty()) == d.with_children(Seq::empty()));
        if !(d is Root || d is Zpool || d is Dataset) {
            let e = choose|e: UEventView| #[trigger] evs.contains(e) && made_from(d, e, ms);
            assert(evs.contains(e) && made_from(t, e, ms));
        }
        assert forall|i: int| 0 <= i < t.children().len() implies grounded_tree(
            #[trigger] t.children()[i],
            evs,
            ms,
        ) by {
            assert(!(d is Dataset));
            assert(t.children() == kids);
            assert(c.contains(c[i]));
            lemma_candidates_fresh(d, b, ms, c[i]);
            lemma_expand_grounded(c[i], b, ms, (depth - 1) as nat);
        }
    }
}

/// Every device node of a tree that the builder makes is made from one of
/// the events in the buckets: nothing else finds its way into the tree.
pub proof fn law_tree_is_grounded(b: BucketsView, ms: Seq<MountView>)
    ensures
        grounded_tree(tree_of(b, ms), all_events(b), ms),
{
    let root = DeviceView::Root(crate::devices::RootView { children: Seq::empty() });
    lemma_expand_grounded(root, b, ms, crate::graph::depth_bound(b));
}

/// The buckets that are made of the usable events of a listing hold usable
/// events only. Together with [`law_tree_is_grounded`]: an event without a
/// positive size, or one that is read-only or a BIOS boot partition, is not
/// what any node of the tree is made from.
pub proof fn law_buckets_hold_usable_events(
    es: Seq<(Seq<char>, UEventView)>,
    ps: Seq<(u64, PoolView)>,
    e: UEventView,
)
    requires
        all_events(buckets_of(usable_values(es), pool_values(ps))).contains(e),
    ensures
        e.usable(),
        e.size is Some && e.size->0 > 0,
        e.read_only != Some(true),
        e.bios_boot != Some(true),
        exists|i: int| 0 <= i < es.len() && (#[trigger] es[i]).1 == e,
{
    let vals = es.map_values(|x: (Seq<char>, UEventView)| x.1);
    let evs = usable_values(es);
    let b = buckets_of(evs, pool_values(ps));
    let all = all_events(b);
    let i = choose|i: int| 0 <= i < all.len() && all[i] == e;
    assert(evs.contains(e)) by {
        if i < b.dms.len() {
            assert(b.dms[i] == e);
            lemma_filter_member(
                evs,
                |x: UEventView| x.device_type() == DeviceType::VolumeGroup,
                e,
            );
        } else if i < b.dms.len() + b.mds.len() {
            assert(b.mds[i - b.dms.len()] == e);
            lemma_filter_member(evs, |x: UEventView| x.device_type() == DeviceType::MdRaid, e);
        } else if i < b.dms.len() + b.mds.len() + b.mpaths.len() {
            assert(b.mpaths[i - b.dms.len() - b.mds.len()] == e);
            lemma_filter_member(evs, |x: UEventView| x.device_type() == DeviceType::Mpath, e);
        } else if i < b.dms.len() + b.mds.len() + b.mpaths.len() + b.partitions.len() {
            assert(b.partitions[i - b.dms.len() - b.mds.len() - b.mpaths.len()] == e);
            lemma_filter_member(evs, |x: UEventView| x.device_type() == DeviceType::Partition, e);
        } else {
            assert(b.rest[i - b.dms.len() - b.mds.len() - b.mpaths.len() - b.partitions.len()]
                == e);
            lemma_filter_member(
                evs,
                |x: UEventView| x.device_type() == DeviceType::ScsiDevice,
                e,
            );
        }
    }
    lemma_filter_member(vals, |x: UEventView| x.usable(), e);
    let k = choose|k: int| 0 <= k < vals.len() && vals[k] == e;
    assert(es[k].1 == e);
}

/// A member of a filtered sequence is a member of the sequence and passes
/// the test.
proof fn lemma_filter_member<A>(s: Seq<A>, keep: spec_fn(A) -> bool, x: A)
    requires
        s.filter(keep).contains(x),
    ensures
        s.contains(x),
        keep(x),
{
    let i = choose|i: int| 0 <= i < s.filter(keep).len() && s.filter(keep)[i] == x;
    s.lemma_filter_contains_rev(keep, x);
    s.lemma_filter_pred(keep, i);
}

/// Below every pool of the tree `t` hang datasets only, and each carries
/// the GUID of the pool.
pub open spec fn pools_hold_datasets(t: DeviceView) -> bool
    decreases t,
{
    &&& t is Zpool ==> forall|i: int|
        0 <= i < t.children().len() ==> (#[trigger] t.children()[i]) is Dataset && t.children()[i]->Dataset_0.pool_guid
            == t->Zpool_0.guid
    &&& forall|i: int| 0 <= i < t.children().len() ==> pools_hold_datasets(#[trigger] t.children()[i])
}

proof fn lemma_expand_pools(d: DeviceView, b: BucketsView, ms: Seq<MountView>, depth: nat)
    requires
        d.children() =~= Seq::empty(),
    ensures
        pools_hold_datasets(expand(d, b, ms, depth)),
    decreases depth,
{
    if depth > 0 {
        let c = candidates(d, b, ms);
        let kids = expand_all(c, b, ms, (depth - 1) as nat);
        let t = expand(d, b, ms, depth);
        assert(t == d.with_children(kids));
        assert forall|i: int| 0 <= i < t.children().len() implies pools_hold_datasets(
            #[trigger] t.children()[i],
        ) by {
            assert(!(d is Dataset));
            assert(t.children() == kids);
            assert(c.contains(c[i]));
            lemma_candidates_fresh(d, b, ms, c[i]);
            lemma_expand_pools(c[i], b, ms, (depth - 1) as nat);
        }
        if t is Zpool {
            let guid = d->Zpool_0.guid;
            assert forall|i: int| 0 <= i < t.children().len() implies (#[trigger] t.children()[i])
                is Dataset && t.children()[i]->Dataset_0.pool_guid == guid by {
                assert(t.children() == kids);
                assert(c.contains(c[i]));
                match pool_with_guid(b.pools, guid) {
                    Some(p) => {
                        lemma_add_datasets_members(Seq::empty(), guid, p.datasets, ms, c[i]);
                    },
                    None => {},
                }
                assert(kids[i] == expand(c[i], b, ms, (depth - 1) as nat));
            }
        }
    }
}

/// In every tree that the builder makes, the children of a pool are
/// datasets of that pool.
pub proof fn law_pools_hold_their_datasets(b: BucketsView, ms: Seq<MountView>)
    ensures
        pools_hold_datasets(tree_of(b, ms)),
{
    let root = DeviceView::Root(crate::devices::RootView { children: Seq::empty() });
    lemma_expand_pools(root, b, ms, crate::graph::depth_bound(b));
}

} // verus!
