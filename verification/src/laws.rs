//! Laws that relate the reducers to each other and to themselves.

use crate::mount::{MountCommandView, MountView};
use crate::pool::{DatasetView, PoolView, ZPropView};
use crate::reducers::mount::next_mounts;
use crate::reducers::udev::next_uevents;
use crate::reducers::zed::{
    is_first_named, named_pool, next_pools, with_dataset, with_dataset_prop, with_prop,
};
use crate::udev::UdevCommandView;
use crate::uevent::UEventView;
use crate::zed::PoolCommandView;
use vstd::prelude::*;

verus! {

/// Adding a mount that was not there and then removing it leaves the set of
/// mounts as it was.
pub proof fn law_add_then_remove_mount(s: Set<MountView>, m: MountView)
    requires
        !s.contains(m),
    ensures
        next_mounts(
            next_mounts(s, MountCommandView::AddMount(m)),
            MountCommandView::RemoveMount(m),
        ) == s,
{
    assert(s.insert(m).remove(m) =~= s);
}

/// After a mount's options are replaced by different ones, the set holds the
/// mount with the new options and not the one with the old options.
pub proof fn law_replace_mount(s: Set<MountView>, new: MountView, old: MountView)
    requires
        new != old,
    ensures
        next_mounts(s, MountCommandView::ReplaceMount { new, old }).contains(new),
        !next_mounts(s, MountCommandView::ReplaceMount { new, old }).contains(old),
{
}

/// After a mount's options are replaced, no other mount of the same target,
/// source and type appears that was not there before.
pub proof fn law_replace_mount_adds_only_new(
    s: Set<MountView>,
    new: MountView,
    old: MountView,
    other: MountView,
)
    requires
        next_mounts(s, MountCommandView::ReplaceMount { new, old }).contains(other),
        other != new,
    ensures
        s.contains(other),
        other != old,
{
}

/// Adding a device that was not known and then removing it leaves the map of
/// events as it was.
pub proof fn law_add_then_remove_uevent(m: Map<Seq<char>, UEventView>, ev: UEventView)
    requires
        !m.contains_key(ev.devpath),
    ensures
        next_uevents(next_uevents(m, UdevCommandView::Add(ev)), UdevCommandView::Remove(ev)) == m,
{
    assert(m.insert(ev.devpath, ev).remove(ev.devpath) =~= m);
}

/// Adding or changing a device twice is the same as doing it once.
pub proof fn law_uevent_idempotent(m: Map<Seq<char>, UEventView>, cmd: UdevCommandView)
    requires
        cmd is Add || cmd is Change,
    ensures
        next_uevents(next_uevents(m, cmd), cmd) == next_uevents(m, cmd),
{
    assert(next_uevents(next_uevents(m, cmd), cmd) =~= next_uevents(m, cmd));
}

/// Adding a mount twice is the same as adding it once.
pub proof fn law_add_mount_idempotent(s: Set<MountView>, m: MountView)
    ensures
        next_mounts(next_mounts(s, MountCommandView::AddMount(m)), MountCommandView::AddMount(m))
            == next_mounts(s, MountCommandView::AddMount(m)),
{
    assert(s.insert(m).insert(m) =~= s.insert(m));
}

/// Filtering a second time by the same test changes nothing.
proof fn lemma_filter_idempotent<A>(s: Seq<A>, keep: spec_fn(A) -> bool)
    ensures
        s.filter(keep).filter(keep) == s.filter(keep),
    decreases s.len(),
{
    reveal(Seq::filter);
    if s.len() > 0 {
        lemma_filter_idempotent(s.drop_last(), keep);
        if keep(s.last()) {
            s.drop_last().filter(keep).lemma_filter_push(s.last(), keep);
        }
    }
}

/// Setting a property twice is the same as setting it once.
pub proof fn law_with_prop_idempotent(xs: Seq<ZPropView>, name: Seq<char>, value: Seq<char>)
    ensures
        with_prop(with_prop(xs, name, value), name, value) == with_prop(xs, name, value),
{
    let keep = |p: ZPropView| p.name != name;
    let p = ZPropView { name, value };
    lemma_filter_idempotent(xs, keep);
    xs.filter(keep).lemma_filter_push(p, keep);
}

/// Adding a dataset twice is the same as adding it once.
pub proof fn law_with_dataset_idempotent(ds: Seq<DatasetView>, d: DatasetView)
    ensures
        with_dataset(with_dataset(ds, d), d) == with_dataset(ds, d),
{
    let keep = |x: DatasetView| x.name != d.name;
    lemma_filter_idempotent(ds, keep);
    ds.filter(keep).lemma_filter_push(d, keep);
}

/// Setting a property of a dataset twice is the same as setting it once.
pub proof fn law_with_dataset_prop_idempotent(
    ds: Seq<DatasetView>,
    name: Seq<char>,
    key: Seq<char>,
    value: Seq<char>,
)
    requires
        exists|i: int| 0 <= i < ds.len() && ds[i].name == name,
    ensures
        with_dataset_prop(with_dataset_prop(ds, name, key, value), name, key, value)
            == with_dataset_prop(ds, name, key, value),
{
    lemma_first_named_exists(ds, name, 0);
    let i = choose|i: int| is_first_named(ds, name, i);
    let once = with_dataset_prop(ds, name, key, value);
    assert(is_first_named(once, name, i));
    let j = choose|j: int| is_first_named(once, name, j);
    assert(j == i) by {
        if j < i {
            assert(once[j].name == name);
            assert(ds[j].name == name);
        } else if i < j {
            assert(once[i].name == name);
        }
    }
    law_with_prop_idempotent(ds[i].props, key, value);
    assert(with_dataset_prop(once, name, key, value) =~= once);
}

/// Where some dataset from `from` on is called `name`, one of them is the
/// first in the whole list, given that none before `from` is.
proof fn lemma_first_named_exists(ds: Seq<DatasetView>, name: Seq<char>, from: int)
    requires
        0 <= from <= ds.len(),
        forall|j: int| 0 <= j < from ==> ds[j].name != name,
        exists|i: int| 0 <= i < ds.len() && ds[i].name == name,
    ensures
        exists|i: int| is_first_named(ds, name, i),
    decreases ds.len() - from,
{
    let w = choose|i: int| 0 <= i < ds.len() && ds[i].name == name;
    if from < ds.len() {
        if ds[from].name == name {
            assert(is_first_named(ds, name, from));
        } else {
            lemma_first_named_exists(ds, name, from + 1);
        }
    } else {
        assert(ds[w].name != name);
    }
}

/// A command that adds or updates pools or datasets, or sets a property,
/// yields the same pools when it is applied a second time.
pub proof fn law_pool_command_idempotent(m: Map<u64, PoolView>, cmd: PoolCommandView)
    requires
        !(cmd is RemovePool),
        !(cmd is RemoveDataset),
        next_pools(m, cmd) is Ok,
    ensures
        next_pools(next_pools(m, cmd)->Ok_0, cmd) == next_pools(m, cmd),
{
    let once = next_pools(m, cmd)->Ok_0;
    match cmd {
        PoolCommandView::AddPools(xs) => {},
        PoolCommandView::AddPool(p) => {
            assert(once.insert(p.guid, p) =~= once);
        },
        PoolCommandView::UpdatePool(p) => {
            assert(once.insert(p.guid, p) =~= once);
        },
        PoolCommandView::AddDataset(g, d) => {
            let k = named_pool(m, g)->Ok_0;
            law_with_dataset_idempotent(m[k].datasets, d);
            assert(next_pools(once, cmd)->Ok_0 =~= once);
        },
        PoolCommandView::SetZpoolProp(g, key, value) => {
            let k = named_pool(m, g)->Ok_0;
            law_with_prop_idempotent(m[k].props, key, value);
            assert(next_pools(once, cmd)->Ok_0 =~= once);
        },
        PoolCommandView::SetZfsProp(g, name, key, value) => {
            let k = named_pool(m, g)->Ok_0;
            law_with_dataset_prop_idempotent(m[k].datasets, name, key, value);
            lemma_first_named_exists(m[k].datasets, name, 0);
            let i = choose|i: int| is_first_named(m[k].datasets, name, i);
            let ds = with_dataset_prop(m[k].datasets, name, key, value);
            assert(ds[i].name == name);
            assert(next_pools(once, cmd) is Ok);
            assert(next_pools(once, cmd)->Ok_0 =~= once);
        },
        _ => {},
    }
}

} // verus!
