//! ZFS pool events.

use crate::error::Error;
use crate::pool::{Dataset, DatasetView, Pool, PoolView, ZProp, ZPropView};
use crate::state::{
    pool_map, pools_new, pools_remove, pools_update, pools_wf, ZedEvents,
};
use crate::zed::zpool::{guid_value, Guid};
use crate::zed::{PoolCommand, PoolCommandView};
use vstd::prelude::*;

verus! {

/// The map that files each pool of a list under its GUID. Where two pools of
/// the list have the same GUID the later one stays.
pub open spec fn pools_of(xs: Seq<PoolView>) -> Map<u64, PoolView>
    decreases xs.len(),
{
    if xs.len() == 0 {
        Map::empty()
    } else {
        pools_of(xs.drop_last()).insert(xs.last().guid, xs.last())
    }
}

/// The properties after `name` is set to `value`: any earlier settings of
/// `name` are gone and the new one stands last.
pub open spec fn with_prop(xs: Seq<ZPropView>, name: Seq<char>, value: Seq<char>) -> Seq<
    ZPropView,
> {
    xs.filter(|p: ZPropView| p.name != name).push(ZPropView { name, value })
}

/// The datasets that are not called `name`.
pub open spec fn without_dataset(ds: Seq<DatasetView>, name: Seq<char>) -> Seq<DatasetView> {
    ds.filter(|d: DatasetView| d.name != name)
}

/// The datasets after `d` is added: any of the same name are gone and `d`
/// stands last.
pub open spec fn with_dataset(ds: Seq<DatasetView>, d: DatasetView) -> Seq<DatasetView> {
    without_dataset(ds, d.name).push(d)
}

/// `i` is the place of the first dataset called `name`.
pub open spec fn is_first_named(ds: Seq<DatasetView>, name: Seq<char>, i: int) -> bool {
    &&& 0 <= i < ds.len()
    &&& ds[i].name == name
    &&& forall|j: int| 0 <= j < i ==> ds[j].name != name
}

/// Some dataset is called `name`.
pub open spec fn has_dataset(ds: Seq<DatasetView>, name: Seq<char>) -> bool {
    exists|i: int| 0 <= i < ds.len() && ds[i].name == name
}

/// The datasets after a property of the first one called `name` is set.
pub open spec fn with_dataset_prop(
    ds: Seq<DatasetView>,
    name: Seq<char>,
    key: Seq<char>,
    value: Seq<char>,
) -> Seq<DatasetView> {
    let i = choose|i: int| is_first_named(ds, name, i);
    ds.update(i, DatasetView { props: with_prop(ds[i].props, key, value), ..ds[i] })
}

/// The pools known after a command, or the reason why the command fails.
/// A command that names a pool fails with `ParseInt` where the GUID is
/// malformed and with `PoolNotFound` where no such pool is known; setting a
/// property of a dataset fails with `ZfsNotFound` where the pool has no
/// dataset of that name.
pub open spec fn next_pools(m: Map<u64, PoolView>, cmd: PoolCommandView) -> Result<
    Map<u64, PoolView>,
    Error,
> {
    match cmd {
        PoolCommandView::AddPools(xs) => Ok(pools_of(xs)),
        PoolCommandView::AddPool(p) => Ok(m.insert(p.guid, p)),
        PoolCommandView::UpdatePool(p) => Ok(m.insert(p.guid, p)),
        PoolCommandView::RemovePool(g) => match named_pool(m, g) {
            Err(e) => Err(e),
            Ok(k) => Ok(m.remove(k)),
        },
        PoolCommandView::AddDataset(g, d) => match named_pool(m, g) {
            Err(e) => Err(e),
            Ok(k) => Ok(m.insert(k, PoolView { datasets: with_dataset(m[k].datasets, d), ..m[k] })),
        },
        PoolCommandView::RemoveDataset(g, name) => match named_pool(m, g) {
            Err(e) => Err(e),
            Ok(k) => Ok(
                m.insert(k, PoolView { datasets: without_dataset(m[k].datasets, name), ..m[k] }),
            ),
        },
        PoolCommandView::SetZpoolProp(g, key, value) => match named_pool(m, g) {
            Err(e) => Err(e),
            Ok(k) => Ok(m.insert(k, PoolView { props: with_prop(m[k].props, key, value), ..m[k] })),
        },
        PoolCommandView::SetZfsProp(g, name, key, value) => match named_pool(m, g) {
            Err(e) => Err(e),
            Ok(k) => if has_dataset(m[k].datasets, name) {
                Ok(
                    m.insert(
                        k,
                        PoolView {
                            datasets: with_dataset_prop(m[k].datasets, name, key, value),
                            ..m[k]
                        },
                    ),
                )
            } else {
                Err(Error::ZfsNotFound)
            },
        },
    }
}

/// The key of the pool that the text of a GUID names.
pub open spec fn named_pool(m: Map<u64, PoolView>, guid: Seq<char>) -> Result<u64, Error> {
    match guid_value(guid) {
        None => Err(Error::ParseInt),
        Some(k) => if m.contains_key(k) {
            Ok(k)
        } else {
            Err(Error::PoolNotFound)
        },
    }
}

/// Files each pool of a list under its GUID.
pub fn into_zed_events(xs: Vec<Pool>) -> (r: ZedEvents)
    ensures
        pool_map(r) == pools_of(xs.deep_view()),
        pools_wf(pool_map(r)),
{
    let mut r = pools_new();
    let mut i: usize = 0;
    assert(xs.deep_view().subrange(0, 0) =~= Seq::<PoolView>::empty());
    while i < xs.len()
        invariant
            i <= xs.len(),
            pool_map(r) == pools_of(xs.deep_view().subrange(0, i as int)),
            pools_wf(pool_map(r)),
        decreases xs.len() - i,
    {
        let p = xs[i].clone();
        proof {
            let next = xs.deep_view().subrange(0, i + 1);
            assert(next.drop_last() =~= xs.deep_view().subrange(0, i as int));
            assert(next.last() == xs[i as int]@);
        }
        r = pools_update(&r, p.guid, p);
        i += 1;
    }
    assert(xs.deep_view().subrange(0, xs.len() as int) =~= xs.deep_view());
    r
}

/// Takes the pool with the given GUID out of the map.
pub fn take_pool(zed_events: &mut ZedEvents, guid: u64) -> (r: Result<Pool, Error>)
    ensures
        pool_map(*old(zed_events)).contains_key(guid) ==> r is Ok && r->Ok_0@ == pool_map(
            *old(zed_events),
        )[guid],
        !pool_map(*old(zed_events)).contains_key(guid) ==> r == Err::<Pool, Error>(
            Error::PoolNotFound,
        ),
        pool_map(*final(zed_events)) == pool_map(*old(zed_events)).remove(guid),
{
    match pools_remove(zed_events, guid) {
        Some(p) => Ok(p),
        None => Err(Error::PoolNotFound),
    }
}

/// Sets a property in a list of properties.
pub fn update_prop(name: &str, value: &str, xs: Vec<ZProp>) -> (r: Vec<ZProp>)
    ensures
        r.deep_view() == with_prop(xs.deep_view(), name@, value@),
{
    let ghost keep = |p: ZPropView| p.name != name@;
    let wanted = name.to_owned();
    let mut r: Vec<ZProp> = Vec::new();
    let mut i: usize = 0;
    proof {
        reveal(Seq::filter);
        assert(xs.deep_view().subrange(0, 0) =~= Seq::<ZPropView>::empty());
        assert(r.deep_view() =~= xs.deep_view().subrange(0, 0).filter(keep));
    }
    while i < xs.len()
        invariant
            i <= xs.len(),
            keep == |p: ZPropView| p.name != name@,
            wanted@ == name@,
            r.deep_view() == xs.deep_view().subrange(0, i as int).filter(keep),
        decreases xs.len() - i,
    {
        let ghost before = r.deep_view();
        if xs[i].name != wanted {
            r.push(xs[i].clone());
        }
        proof {
            reveal(Seq::filter);
            let next = xs.deep_view().subrange(0, i + 1);
            assert(next.drop_last() =~= xs.deep_view().subrange(0, i as int));
            assert(next.last() == xs[i as int]@);
            if keep(xs[i as int]@) {
                assert(r.deep_view() =~= before.push(xs[i as int]@));
            }
            assert(r.deep_view() =~= next.filter(keep));
        }
        i += 1;
    }
    assert(xs.deep_view().subrange(0, xs.len() as int) =~= xs.deep_view());
    let ghost kept = r.deep_view();
    r.push(ZProp { name: name.to_owned(), value: value.to_owned() });
    assert(r.deep_view() =~= kept.push(ZPropView { name: name@, value: value@ }));
    r
}

/// The datasets of a list that are not called `name`.
fn datasets_without(ds: &Vec<Dataset>, name: &String) -> (r: Vec<Dataset>)
    ensures
        r.deep_view() == without_dataset(ds.deep_view(), name@),
{
    let ghost keep = |d: DatasetView| d.name != name@;
    let mut r: Vec<Dataset> = Vec::new();
    let mut i: usize = 0;
    proof {
        reveal(Seq::filter);
        assert(ds.deep_view().subrange(0, 0) =~= Seq::<DatasetView>::empty());
        assert(r.deep_view() =~= ds.deep_view().subrange(0, 0).filter(keep));
    }
    while i < ds.len()
        invariant
            i <= ds.len(),
            keep == |d: DatasetView| d.name != name@,
            r.deep_view() == ds.deep_view().subrange(0, i as int).filter(keep),
        decreases ds.len() - i,
    {
        let ghost before = r.deep_view();
        if ds[i].name != *name {
            r.push(ds[i].clone());
        }
        proof {
            reveal(Seq::filter);
            let next = ds.deep_view().subrange(0, i + 1);
            assert(next.drop_last() =~= ds.deep_view().subrange(0, i as int));
            assert(next.last() == ds[i as int]@);
            if keep(ds[i as int]@) {
                assert(r.deep_view() =~= before.push(ds[i as int]@));
            }
            assert(r.deep_view() =~= next.filter(keep));
        }
        i += 1;
    }
    assert(ds.deep_view().subrange(0, ds.len() as int) =~= ds.deep_view());
    r
}

/// The place of the first dataset called `name`, if there is one.
fn find_dataset(ds: &Vec<Dataset>, name: &String) -> (r: Option<usize>)
    ensures
        r is Some <==> has_dataset(ds.deep_view(), name@),
        r is Some ==> is_first_named(ds.deep_view(), name@, r->0 as int),
{
    let mut i: usize = 0;
    while i < ds.len()
        invariant
            i <= ds.len(),
            forall|j: int| 0 <= j < i ==> ds.deep_view()[j].name != name@,
        decreases ds.len() - i,
    {
        if ds[i].name == *name {
            assert(ds.deep_view()[i as int].name == name@);
            return Some(i);
        }
        i += 1;
    }
    None
}

/// The number a GUID stands for.
pub fn guid_to_u64(guid: Guid) -> (r: Result<u64, Error>)
    ensures
        r == match guid_value(guid@) {
            Some(n) => Ok::<u64, Error>(n),
            None => Err::<u64, Error>(Error::ParseInt),
        },
{
    guid.to_u64()
}

/// Updates the pool portion of the state in response to a command.
pub fn update_zed_events(zed_events: ZedEvents, cmd: PoolCommand) -> (r: Result<ZedEvents, Error>)
    ensures
        match next_pools(pool_map(zed_events), cmd@) {
            Ok(m) => r is Ok && pool_map(r->Ok_0) == m,
            Err(e) => r is Err && r->Err_0 == e,
        },
        pools_wf(pool_map(zed_events)) && r is Ok ==> pools_wf(pool_map(r->Ok_0)),
{
    let mut zed_events = zed_events;
    let ghost m = pool_map(zed_events);
    match cmd {
        PoolCommand::AddPools(pools) => Ok(into_zed_events(pools)),
        PoolCommand::AddPool(pool) => {
            let k = pool.guid;
            Ok(pools_update(&zed_events, k, pool))
        },
        PoolCommand::UpdatePool(pool) => {
            let k = pool.guid;
            Ok(pools_update(&zed_events, k, pool))
        },
        PoolCommand::RemovePool(guid) => {
            let guid = guid_to_u64(guid)?;
            take_pool(&mut zed_events, guid)?;
            Ok(zed_events)
        },
        PoolCommand::AddDataset(guid, dataset) => {
            let guid = guid_to_u64(guid)?;
            let mut pool = take_pool(&mut zed_events, guid)?;
            let mut ds = datasets_without(&pool.datasets, &dataset.name);
            let ghost kept = ds.deep_view();
            let ghost d = dataset@;
            ds.push(dataset);
            assert(ds.deep_view() =~= kept.push(d));
            pool.datasets = ds;
            let r = pools_update(&zed_events, guid, pool);
            assert(pool_map(r) =~= m.insert(
                guid,
                PoolView { datasets: with_dataset(m[guid].datasets, d), ..m[guid] },
            ));
            Ok(r)
        },
        PoolCommand::RemoveDataset(guid, name) => {
            let guid = guid_to_u64(guid)?;
            let mut pool = take_pool(&mut zed_events, guid)?;
            pool.datasets = datasets_without(&pool.datasets, &name.0);
            let r = pools_update(&zed_events, guid, pool);
            assert(pool_map(r) =~= m.insert(
                guid,
                PoolView { datasets: without_dataset(m[guid].datasets, name@), ..m[guid] },
            ));
            Ok(r)
        },
        PoolCommand::SetZpoolProp(guid, key, value) => {
            let guid = guid_to_u64(guid)?;
            let mut pool = take_pool(&mut zed_events, guid)?;
            let Pool {
                name,
                guid: pool_guid,
                health,
                hostname,
                hostid,
                state,
                readonly,
                size,
                vdev,
                props,
                datasets,
            } = pool;
            let props = update_prop(key.0.as_str(), value.0.as_str(), props);
            let pool = Pool {
                name,
                guid: pool_guid,
                health,
                hostname,
                hostid,
                state,
                readonly,
                size,
                vdev,
                props,
                datasets,
            };
            let r = pools_update(&zed_events, guid, pool);
            assert(pool_map(r) =~= m.insert(
                guid,
                PoolView { props: with_prop(m[guid].props, key@, value@), ..m[guid] },
            ));
            Ok(r)
        },
        PoolCommand::SetZfsProp(guid, name, key, value) => {
            let guid = guid_to_u64(guid)?;
            let mut pool = take_pool(&mut zed_events, guid)?;
            match find_dataset(&pool.datasets, &name.0) {
                None => Err(Error::ZfsNotFound),
                Some(i) => {
                    let ghost old_ds = pool.datasets.deep_view();
                    let ghost first = choose|j: int| is_first_named(old_ds, name@, j);
                    assert(first == i) by {
                        if first < i {
                            assert(old_ds[first].name == name@);
                        } else if i < first {
                            assert(old_ds[i as int].name == name@);
                        }
                    }
                    let d = pool.datasets[i].clone();
                    let Dataset { name: dname, guid: dguid, kind, props } = d;
                    let props = update_prop(key.0.as_str(), value.0.as_str(), props);
                    let d = Dataset { name: dname, guid: dguid, kind, props };
                    pool.datasets.set(i, d);
                    assert(pool.datasets.deep_view() =~= with_dataset_prop(
                        old_ds,
                        name@,
                        key@,
                        value@,
                    ));
                    let r = pools_update(&zed_events, guid, pool);
                    assert(pool_map(r) =~= m.insert(
                        guid,
                        PoolView {
                            datasets: with_dataset_prop(m[guid].datasets, name@, key@, value@),
                            ..m[guid]
                        },
                    ));
                    Ok(r)
                },
            }
        },
    }
}

} // verus!
