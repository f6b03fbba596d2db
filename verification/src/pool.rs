//! ZFS pools as the scanner holds them: a pool with its properties, its tree
//! of virtual devices and its datasets.

use crate::text::{clone_opt, opt_eq};
use vstd::prelude::*;

verus! {

/// One property of a pool or of a dataset.
#[derive(Debug, PartialEq, Eq, Hash)]
pub struct ZProp {
    pub name: String,
    pub value: String,
}

pub ghost struct ZPropView {
    pub name: Seq<char>,
    pub value: Seq<char>,
}

impl View for ZProp {
    type V = ZPropView;

    open spec fn view(&self) -> ZPropView {
        ZPropView { name: self.name@, value: self.value@ }
    }
}

impl DeepView for ZProp {
    type V = ZPropView;

    open spec fn deep_view(&self) -> ZPropView {
        self@
    }
}

impl Clone for ZProp {
    fn clone(&self) -> (r: Self)
        ensures
            r == *self,
    {
        ZProp { name: self.name.clone(), value: self.value.clone() }
    }
}

/// A copy of a list of properties.
pub fn clone_props(v: &Vec<ZProp>) -> (r: Vec<ZProp>)
    ensures
        r@ == v@,
        r.deep_view() == v.deep_view(),
{
    let mut r: Vec<ZProp> = Vec::new();
    let mut i: usize = 0;
    while i < v.len()
        invariant
            i <= v.len(),
            r@ == v@.subrange(0, i as int),
        decreases v.len() - i,
    {
        r.push(v[i].clone());
        assert(r@ =~= v@.subrange(0, i + 1));
        i += 1;
    }
    assert(r@ =~= v@);
    assert(r.deep_view() =~= v.deep_view());
    r
}

/// Whether two lists hold the same properties in the same order.
pub fn props_eq(a: &Vec<ZProp>, b: &Vec<ZProp>) -> (r: bool)
    ensures
        r == (a.deep_view() == b.deep_view()),
{
    if a.len() != b.len() {
        assert(a.deep_view().len() != b.deep_view().len());
        return false;
    }
    let mut i: usize = 0;
    while i < a.len()
        invariant
            i <= a.len(),
            a.len() == b.len(),
            forall|j: int| 0 <= j < i ==> a[j]@ == b[j]@,
        decreases a.len() - i,
    {
        if a[i].name != b[i].name || a[i].value != b[i].value {
            assert(a.deep_view()[i as int] == a[i as int]@);
            assert(b.deep_view()[i as int] == b[i as int]@);
            return false;
        }
        i += 1;
    }
    assert(a.deep_view() =~= b.deep_view());
    true
}

/// A filesystem or volume inside a pool.
#[derive(Debug, PartialEq)]
pub struct Dataset {
    pub name: String,
    pub guid: String,
    pub kind: String,
    pub props: Vec<ZProp>,
}

pub ghost struct DatasetView {
    pub name: Seq<char>,
    pub guid: Seq<char>,
    pub kind: Seq<char>,
    pub props: Seq<ZPropView>,
}

impl View for Dataset {
    type V = DatasetView;

    open spec fn view(&self) -> DatasetView {
        DatasetView {
            name: self.name@,
            guid: self.guid@,
            kind: self.kind@,
            props: self.props.deep_view(),
        }
    }
}

impl DeepView for Dataset {
    type V = DatasetView;

    open spec fn deep_view(&self) -> DatasetView {
        self@
    }
}

impl Clone for Dataset {
    fn clone(&self) -> (r: Self)
        ensures
            r@ == self@,
    {
        Dataset {
            name: self.name.clone(),
            guid: self.guid.clone(),
            kind: self.kind.clone(),
            props: clone_props(&self.props),
        }
    }
}

/// A copy of a list of datasets.
pub fn clone_datasets(v: &Vec<Dataset>) -> (r: Vec<Dataset>)
    ensures
        r.deep_view() == v.deep_view(),
{
    let mut r: Vec<Dataset> = Vec::new();
    let mut i: usize = 0;
    while i < v.len()
        invariant
            i <= v.len(),
            r.len() == i,
            forall|j: int| 0 <= j < i ==> r[j]@ == v[j]@,
        decreases v.len() - i,
    {
        r.push(v[i].clone());
        i += 1;
    }
    assert(r.deep_view() =~= v.deep_view());
    r
}

/// A node of a pool's tree of virtual devices.
#[derive(Debug, PartialEq)]
pub enum VDev {
    Mirror { children: Vec<VDev>, is_log: Option<bool> },
    RaidZ { children: Vec<VDev> },
    Replacing { children: Vec<VDev> },
    Root { children: Vec<VDev>, spares: Vec<VDev>, cache: Vec<VDev> },
    Disk {
        guid: Option<u64>,
        state: String,
        path: String,
        dev_id: Option<String>,
        phys_path: Option<String>,
        whole_disk: Option<bool>,
        is_log: Option<bool>,
    },
    File { guid: Option<u64>, state: String, path: String, is_log: Option<bool> },
}

pub ghost enum VDevView {
    Mirror { children: Seq<VDevView>, is_log: Option<bool> },
    RaidZ { children: Seq<VDevView> },
    Replacing { children: Seq<VDevView> },
    Root { children: Seq<VDevView>, spares: Seq<VDevView>, cache: Seq<VDevView> },
    Disk {
        guid: Option<u64>,
        state: Seq<char>,
        path: Seq<char>,
        dev_id: Option<Seq<char>>,
        phys_path: Option<Seq<char>>,
        whole_disk: Option<bool>,
        is_log: Option<bool>,
    },
    File { guid: Option<u64>, state: Seq<char>, path: Seq<char>, is_log: Option<bool> },
}

/// The values of a list of virtual devices, in order.
pub open spec fn vdev_views(v: Seq<VDev>) -> Seq<VDevView>
    decreases v,
{
    Seq::new(
        v.len(),
        |i: int|
            if 0 <= i < v.len() {
                v[i].view()
            } else {
                arbitrary()
            },
    )
}

impl View for VDev {
    type V = VDevView;

    open spec fn view(&self) -> VDevView
        decreases self,
    {
        match self {
            VDev::Mirror { children, is_log } => VDevView::Mirror {
                children: vdev_views(children@),
                is_log: *is_log,
            },
            VDev::RaidZ { children } => VDevView::RaidZ { children: vdev_views(children@) },
            VDev::Replacing { children } => VDevView::Replacing {
                children: vdev_views(children@),
            },
            VDev::Root { children, spares, cache } => VDevView::Root {
                children: vdev_views(children@),
                spares: vdev_views(spares@),
                cache: vdev_views(cache@),
            },
            VDev::Disk { guid, state, path, dev_id, phys_path, whole_disk, is_log } => {
                VDevView::Disk {
                    guid: *guid,
                    state: state@,
                    path: path@,
                    dev_id: dev_id.deep_view(),
                    phys_path: phys_path.deep_view(),
                    whole_disk: *whole_disk,
                    is_log: *is_log,
                }
            },
            VDev::File { guid, state, path, is_log } => VDevView::File {
                guid: *guid,
                state: state@,
                path: path@,
                is_log: *is_log,
            },
        }
    }
}

impl DeepView for VDev {
    type V = VDevView;

    open spec fn deep_view(&self) -> VDevView {
        self@
    }
}

/// A copy of a list of virtual devices.
pub fn clone_vdevs(v: &Vec<VDev>) -> (r: Vec<VDev>)
    ensures
        vdev_views(r@) == vdev_views(v@),
    decreases v,
{
    let mut r: Vec<VDev> = Vec::new();
    let mut i: usize = 0;
    while i < v.len()
        invariant
            i <= v.len(),
            r.len() == i,
            forall|j: int| 0 <= j < i ==> r[j]@ == v[j]@,
        decreases v.len() - i,
    {
        r.push(v[i].clone());
        i += 1;
    }
    assert(vdev_views(r@) =~= vdev_views(v@));
    r
}

impl Clone for VDev {
    fn clone(&self) -> (r: Self)
        ensures
            r@ == self@,
        decreases self,
    {
        match self {
            VDev::Mirror { children, is_log } => VDev::Mirror {
                children: clone_vdevs(children),
                is_log: *is_log,
            },
            VDev::RaidZ { children } => VDev::RaidZ { children: clone_vdevs(children) },
            VDev::Replacing { children } => VDev::Replacing { children: clone_vdevs(children) },
            VDev::Root { children, spares, cache } => VDev::Root {
                children: clone_vdevs(children),
                spares: clone_vdevs(spares),
                cache: clone_vdevs(cache),
            },
            VDev::Disk { guid, state, path, dev_id, phys_path, whole_disk, is_log } => VDev::Disk {
                guid: *guid,
                state: state.clone(),
                path: path.clone(),
                dev_id: clone_opt(dev_id),
                phys_path: clone_opt(phys_path),
                whole_disk: *whole_disk,
                is_log: *is_log,
            },
            VDev::File { guid, state, path, is_log } => VDev::File {
                guid: *guid,
                state: state.clone(),
                path: path.clone(),
                is_log: *is_log,
            },
        }
    }
}

/// Whether two lists hold the same virtual devices in the same order.
pub fn vdevs_eq(a: &Vec<VDev>, b: &Vec<VDev>) -> (r: bool)
    ensures
        r == (vdev_views(a@) == vdev_views(b@)),
    decreases a,
{
    if a.len() != b.len() {
        assert(vdev_views(a@).len() != vdev_views(b@).len());
        return false;
    }
    let mut i: usize = 0;
    while i < a.len()
        invariant
            i <= a.len(),
            a.len() == b.len(),
            forall|j: int| 0 <= j < i ==> a[j]@ == b[j]@,
        decreases a.len() - i,
    {
        if !a[i].same(&b[i]) {
            assert(vdev_views(a@)[i as int] == a[i as int]@);
            assert(vdev_views(b@)[i as int] == b[i as int]@);
            return false;
        }
        i += 1;
    }
    assert(vdev_views(a@) =~= vdev_views(b@));
    true
}

impl VDev {
    /// Whether two virtual devices are equal, with all that hangs below them.
    pub fn same(&self, other: &VDev) -> (r: bool)
        ensures
            r == (self@ == other@),
        decreases self,
    {
        match (self, other) {
            (VDev::Mirror { children: c1, is_log: l1 }, VDev::Mirror { children: c2, is_log: l2 }) => {
                vdevs_eq(c1, c2) && *l1 == *l2
            },
            (VDev::RaidZ { children: c1 }, VDev::RaidZ { children: c2 }) => vdevs_eq(c1, c2),
            (VDev::Replacing { children: c1 }, VDev::Replacing { children: c2 }) => vdevs_eq(
                c1,
                c2,
            ),
            (
                VDev::Root { children: c1, spares: s1, cache: k1 },
                VDev::Root { children: c2, spares: s2, cache: k2 },
            ) => vdevs_eq(c1, c2) && vdevs_eq(s1, s2) && vdevs_eq(k1, k2),
            (
                VDev::Disk {
                    guid: g1,
                    state: st1,
                    path: p1,
                    dev_id: d1,
                    phys_path: pp1,
                    whole_disk: w1,
                    is_log: l1,
                },
                VDev::Disk {
                    guid: g2,
                    state: st2,
                    path: p2,
                    dev_id: d2,
                    phys_path: pp2,
                    whole_disk: w2,
                    is_log: l2,
                },
            ) => {
                *g1 == *g2 && *st1 == *st2 && *p1 == *p2 && opt_eq(d1, d2) && opt_eq(pp1, pp2)
                    && *w1 == *w2 && *l1 == *l2
            },
            (
                VDev::File { guid: g1, state: st1, path: p1, is_log: l1 },
                VDev::File { guid: g2, state: st2, path: p2, is_log: l2 },
            ) => *g1 == *g2 && *st1 == *st2 && *p1 == *p2 && *l1 == *l2,
            _ => false,
        }
    }
}

/// The paths of the disks below a virtual device, left to right. Files
/// contribute nothing.
pub open spec fn vdev_paths(v: VDevView) -> Seq<Seq<char>>
    decreases v,
{
    match v {
        VDevView::Disk { path, .. } => seq![path],
        VDevView::File { .. } => seq![],
        VDevView::Mirror { children, .. } => vdevs_paths(children),
        VDevView::RaidZ { children } => vdevs_paths(children),
        VDevView::Replacing { children } => vdevs_paths(children),
        VDevView::Root { children, spares, cache } => vdevs_paths(children) + vdevs_paths(spares)
            + vdevs_paths(cache),
    }
}

/// The paths of the disks below each of a list of virtual devices, in order.
pub open spec fn vdevs_paths(vs: Seq<VDevView>) -> Seq<Seq<char>>
    decreases vs,
{
    if vs.len() == 0 {
        seq![]
    } else {
        vdevs_paths(vs.drop_last()) + vdev_paths(vs.last())
    }
}

/// Appends to `acc` the disk paths below each element of `vs`.
fn collect_vdev_paths(vs: &Vec<VDev>, acc: &mut Vec<String>)
    ensures
        final(acc).deep_view() == old(acc).deep_view() + vdevs_paths(vdev_views(vs@)),
    decreases vs,
{
    let ghost views = vdev_views(vs@);
    let mut i: usize = 0;
    assert(views.subrange(0, 0) =~= Seq::<VDevView>::empty());
    assert(acc.deep_view() =~= old(acc).deep_view() + vdevs_paths(views.subrange(0, 0)));
    while i < vs.len()
        invariant
            i <= vs.len(),
            views == vdev_views(vs@),
            acc.deep_view() == old(acc).deep_view() + vdevs_paths(views.subrange(0, i as int)),
        decreases vs.len() - i,
    {
        let ghost before = acc.deep_view();
        let mut part = get_vdev_paths(&vs[i]);
        append_strs(acc, &mut part);
        proof {
            let next = views.subrange(0, i + 1);
            assert(next.drop_last() =~= views.subrange(0, i as int));
            assert(next.last() == vs[i as int]@);
            assert(acc.deep_view() =~= old(acc).deep_view() + vdevs_paths(next));
        }
        i += 1;
    }
    assert(views.subrange(0, vs.len() as int) =~= views);
}

/// Moves the strings of `tail` to the end of `acc`.
fn append_strs(acc: &mut Vec<String>, tail: &mut Vec<String>)
    ensures
        final(acc).deep_view() == old(acc).deep_view() + old(tail).deep_view(),
{
    let ghost a = acc@;
    let ghost t = tail@;
    acc.append(tail);
    assert(acc@ == a + t);
    assert(acc.deep_view() =~= old(acc).deep_view() + old(tail).deep_view());
}

/// The paths of the disks in a tree of virtual devices.
pub fn get_vdev_paths(vdev: &VDev) -> (r: Vec<String>)
    ensures
        r.deep_view() == vdev_paths(vdev@),
    decreases vdev,
{
    let mut r: Vec<String> = Vec::new();
    assert(r.deep_view() =~= Seq::<Seq<char>>::empty());
    match vdev {
        VDev::Disk { path, .. } => {
            r.push(path.clone());
            assert(r.deep_view() =~= seq![path@]);
        },
        VDev::File { .. } => {},
        VDev::Mirror { children, .. } => {
            collect_vdev_paths(children, &mut r);
        },
        VDev::RaidZ { children } => {
            collect_vdev_paths(children, &mut r);
        },
        VDev::Replacing { children } => {
            collect_vdev_paths(children, &mut r);
        },
        VDev::Root { children, spares, cache } => {
            collect_vdev_paths(children, &mut r);
            collect_vdev_paths(spares, &mut r);
            collect_vdev_paths(cache, &mut r);
        },
    }
    r
}

/// A pool at one moment.
#[derive(Debug, PartialEq)]
pub struct Pool {
    pub name: String,
    pub guid: u64,
    pub health: String,
    pub hostname: String,
    pub hostid: Option<u64>,
    pub state: String,
    pub readonly: bool,
    pub size: String,
    pub vdev: VDev,
    pub props: Vec<ZProp>,
    pub datasets: Vec<Dataset>,
}

pub ghost struct PoolView {
    pub name: Seq<char>,
    pub guid: u64,
    pub health: Seq<char>,
    pub hostname: Seq<char>,
    pub hostid: Option<u64>,
    pub state: Seq<char>,
    pub readonly: bool,
    pub size: Seq<char>,
    pub vdev: VDevView,
    pub props: Seq<ZPropView>,
    pub datasets: Seq<DatasetView>,
}

impl View for Pool {
    type V = PoolView;

    open spec fn view(&self) -> PoolView {
        PoolView {
            name: self.name@,
            guid: self.guid,
            health: self.health@,
            hostname: self.hostname@,
            hostid: self.hostid,
            state: self.state@,
            readonly: self.readonly,
            size: self.size@,
            vdev: self.vdev@,
            props: self.props.deep_view(),
            datasets: self.datasets.deep_view(),
        }
    }
}

impl DeepView for Pool {
    type V = PoolView;

    open spec fn deep_view(&self) -> PoolView {
        self@
    }
}

impl Clone for Pool {
    fn clone(&self) -> (r: Self)
        ensures
            r@ == self@,
    {
        Pool {
            name: self.name.clone(),
            guid: self.guid,
            health: self.health.clone(),
            hostname: self.hostname.clone(),
            hostid: self.hostid,
            state: self.state.clone(),
            readonly: self.readonly,
            size: self.size.clone(),
            vdev: self.vdev.clone(),
            props: clone_props(&self.props),
            datasets: clone_datasets(&self.datasets),
        }
    }
}

} // verus!
