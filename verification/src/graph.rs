//! From a scanner's state to its device tree.
//!
//! The usable events are sorted into buckets by the class of their device.
//! Starting at the root, each node then collects its children from the
//! buckets by the rule of its class, and each child does the same in turn.

use crate::devices::{
    device_views, Dataset, DatasetView as DatasetNodeView, Device, DeviceView, LogicalVolume,
    LogicalVolumeView, MdRaid, MdRaidView, Mpath, MpathView, Partition, PartitionView, Root,
    RootView, ScsiDevice, ScsiDeviceView, VolumeGroup, VolumeGroupView, Zpool, ZpoolView,
};
use crate::error::Error;
use crate::mount::{Mount, MountView};
use crate::node::DeviceType;
use crate::number::{parse_decimal, parse_unsigned};
use crate::pool::{clone_props, get_vdev_paths, vdev_paths, DatasetView, Pool, PoolView};
use crate::text::{clone_opt, clone_strs, contains_str, intersects, share_member};
use crate::uevent::{UEvent, UEventView};
use vstd::prelude::*;
use vstd::string::*;

verus! {

/// `major:minor`, the name by which a device refers to the device below it.
pub open spec fn major_minor(major: Seq<char>, minor: Seq<char>) -> Seq<char> {
    major + seq![':'] + minor
}

pub fn format_major_minor(major: &str, minor: &str) -> (r: String)
    ensures
        r@ == major_minor(major@, minor@),
{
    proof {
        reveal_strlit(":");
    }
    let mut r = String::from_str(major);
    r.append(":");
    r.append(minor);
    assert(r@ =~= major_minor(major@, minor@));
    r
}

/// Whether `major:minor` is among `xs`.
pub fn find_by_major_minor(xs: &Vec<String>, major: &str, minor: &str) -> (r: bool)
    ensures
        r == xs.deep_view().contains(major_minor(major@, minor@)),
{
    let mm = format_major_minor(major, minor);
    contains_str(xs, &mm)
}

/// The first mount of `ms` whose source is one of `paths`.
pub open spec fn mount_for(paths: Seq<Seq<char>>, ms: Seq<MountView>) -> Option<MountView>
    decreases ms.len(),
{
    if ms.len() == 0 {
        None
    } else if paths.contains(ms[0].source) {
        Some(ms[0])
    } else {
        mount_for(paths, ms.drop_first())
    }
}

/// The first mount of `ys` whose source is one of the paths `xs`.
pub fn find_mount<'a>(xs: &Vec<String>, ys: &'a Vec<Mount>) -> (r: Option<&'a Mount>)
    ensures
        r.deep_view() == mount_for(xs.deep_view(), ys.deep_view()),
{
    let mut i: usize = 0;
    assert(ys.deep_view().skip(0) =~= ys.deep_view());
    while i < ys.len()
        invariant
            i <= ys.len(),
            mount_for(xs.deep_view(), ys.deep_view()) == mount_for(
                xs.deep_view(),
                ys.deep_view().skip(i as int),
            ),
        decreases ys.len() - i,
    {
        let ghost rest = ys.deep_view().skip(i as int);
        assert(rest[0] == ys[i as int]@);
        if contains_str(xs, &ys[i].source.0) {
            return Some(&ys[i]);
        }
        assert(rest.drop_first() =~= ys.deep_view().skip(i + 1));
        i += 1;
    }
    None
}

/// The filesystem type and the mount point of a device: those of its mount
/// where it is mounted, else the type it reports itself and no mount point.
pub open spec fn fs_and_mount(
    own: Option<Seq<char>>,
    paths: Seq<Seq<char>>,
    ms: Seq<MountView>,
) -> (Option<Seq<char>>, Option<Seq<char>>) {
    match mount_for(paths, ms) {
        Some(m) => (Some(m.fs_type), Some(m.target)),
        None => (own, None),
    }
}

fn fs_and_mount_of(own: &Option<String>, paths: &Vec<String>, ms: &Vec<Mount>) -> (r: (
    Option<String>,
    Option<String>,
))
    ensures
        r.deep_view() == fs_and_mount(own.deep_view(), paths.deep_view(), ms.deep_view()),
{
    match find_mount(paths, ms) {
        Some(m) => (Some(m.fs_type.0.clone()), Some(m.target.0.clone())),
        None => (clone_opt(own), None),
    }
}

/// The SCSI device that an event describes. It needs a serial and a size.
pub open spec fn scsi_node(e: UEventView, ms: Seq<MountView>) -> Result<DeviceView, Error> {
    if e.scsi83 is Some && e.size is Some {
        let fm = fs_and_mount(e.fs_type, e.paths, ms);
        Ok(
            DeviceView::ScsiDevice(
                ScsiDeviceView {
                    serial: e.scsi83->0,
                    scsi80: e.scsi80,
                    major: e.major,
                    minor: e.minor,
                    devpath: e.devpath,
                    size: e.size->0,
                    filesystem_type: fm.0,
                    paths: e.paths,
                    mount_path: fm.1,
                    children: Seq::empty(),
                },
            ),
        )
    } else {
        Err(Error::MissingField)
    }
}

/// The partition that an event describes. It needs a partition number and a
/// size.
pub open spec fn partition_node(e: UEventView, ms: Seq<MountView>) -> Result<DeviceView, Error> {
    if e.part_entry_number is Some && e.size is Some {
        let fm = fs_and_mount(e.fs_type, e.paths, ms);
        Ok(
            DeviceView::Partition(
                PartitionView {
                    partition_number: e.part_entry_number->0,
                    size: e.size->0,
                    major: e.major,
                    minor: e.minor,
                    devpath: e.devpath,
                    filesystem_type: fm.0,
                    paths: e.paths,
                    mount_path: fm.1,
                    children: Seq::empty(),
                },
            ),
        )
    } else {
        Err(Error::MissingField)
    }
}

/// The multipath device that an event describes. It needs a serial and a
/// size.
pub open spec fn mpath_node(e: UEventView, ms: Seq<MountView>) -> Result<DeviceView, Error> {
    if e.scsi83 is Some && e.size is Some {
        let fm = fs_and_mount(e.fs_type, e.paths, ms);
        Ok(
            DeviceView::Mpath(
                MpathView {
                    devpath: e.devpath,
                    serial: e.scsi83->0,
                    size: e.size->0,
                    major: e.major,
                    minor: e.minor,
                    filesystem_type: fm.0,
                    paths: e.paths,
                    children: Seq::empty(),
                    mount_path: fm.1,
                },
            ),
        )
    } else {
        Err(Error::MissingField)
    }
}

/// The RAID array that an event describes. It needs a size and a UUID.
pub open spec fn md_node(e: UEventView, ms: Seq<MountView>) -> Result<DeviceView, Error> {
    if e.size is Some && e.md_uuid is Some {
        let fm = fs_and_mount(e.fs_type, e.paths, ms);
        Ok(
            DeviceView::MdRaid(
                MdRaidView {
                    size: e.size->0,
                    major: e.major,
                    minor: e.minor,
                    filesystem_type: fm.0,
                    paths: e.paths,
                    mount_path: fm.1,
                    uuid: e.md_uuid->0,
                    children: Seq::empty(),
                },
            ),
        )
    } else {
        Err(Error::MissingField)
    }
}

/// The volume group that the event of one of its logical volumes describes.
/// It needs the group's name, size and UUID.
pub open spec fn vg_node(e: UEventView) -> Result<DeviceView, Error> {
    if e.dm_vg_name is Some && e.dm_vg_size is Some && e.vg_uuid is Some {
        Ok(
            DeviceView::VolumeGroup(
                VolumeGroupView {
                    name: e.dm_vg_name->0,
                    uuid: e.vg_uuid->0,
                    size: e.dm_vg_size->0,
                    children: Seq::empty(),
                },
            ),
        )
    } else {
        Err(Error::MissingField)
    }
}

/// The logical volume that an event describes. It needs a name, a UUID and
/// a size.
pub open spec fn lv_node(e: UEventView, ms: Seq<MountView>) -> Result<DeviceView, Error> {
    if e.dm_lv_name is Some && e.lv_uuid is Some && e.size is Some {
        let fm = fs_and_mount(e.fs_type, e.paths, ms);
        Ok(
            DeviceView::LogicalVolume(
                LogicalVolumeView {
                    name: e.dm_lv_name->0,
                    uuid: e.lv_uuid->0,
                    major: e.major,
                    minor: e.minor,
                    size: e.size->0,
                    children: Seq::empty(),
                    devpath: e.devpath,
                    paths: e.paths,
                    filesystem_type: fm.0,
                    mount_path: fm.1,
                },
            ),
        )
    } else {
        Err(Error::MissingField)
    }
}

/// The node of a pool. Its size is kept as decimal text and must parse. A
/// pool is looked up among the mounts by its name.
pub open spec fn zpool_node(p: PoolView, ms: Seq<MountView>) -> Result<DeviceView, Error> {
    match parse_unsigned(p.size, 10) {
        Some(size) => {
            let fm = fs_and_mount(None, seq![p.name], ms);
            Ok(
                DeviceView::Zpool(
                    ZpoolView {
                        guid: p.guid,
                        name: p.name,
                        health: p.health,
                        state: p.state,
                        size,
                        vdev: p.vdev,
                        props: p.props,
                        filesystem_type: fm.0,
                        mount_path: fm.1,
                        children: Seq::empty(),
                    },
                ),
            )
        },
        None => Err(Error::ParseInt),
    }
}

/// The node of a dataset of the pool with the given GUID. A dataset is
/// looked up among the mounts by its name.
pub open spec fn dataset_node(pool_guid: u64, d: DatasetView, ms: Seq<MountView>) -> DeviceView {
    let fm = fs_and_mount(None, seq![d.name], ms);
    DeviceView::Dataset(
        DatasetNodeView {
            pool_guid,
            guid: d.guid,
            name: d.name,
            kind: d.kind,
            props: d.props,
            filesystem_type: fm.0,
            mount_path: fm.1,
        },
    )
}

/// The rule by which a node picks its children out of a bucket of events.
pub enum Rule<'a> {
    /// Every event, as a SCSI device.
    Scsi,
    /// The partitions that sit on the device `major:minor`.
    Partition(&'a String),
    /// The multipath devices that have `major:minor` as a slave.
    Mpath(&'a String),
    /// The volume groups of the logical volumes that have `major:minor` as a
    /// slave.
    VolumeGroup(&'a String),
    /// The RAID arrays with a member among the paths.
    MdRaid(&'a Vec<String>),
    /// The logical volumes of the volume group with the UUID.
    LogicalVolume(&'a String),
}

/// The mathematical value of a [`Rule`].
pub ghost enum RuleView {
    Scsi,
    Partition(Seq<char>),
    Mpath(Seq<char>),
    VolumeGroup(Seq<char>),
    MdRaid(Seq<Seq<char>>),
    LogicalVolume(Seq<char>),
}

impl<'a> View for Rule<'a> {
    type V = RuleView;

    open spec fn view(&self) -> RuleView {
        match self {
            Rule::Scsi => RuleView::Scsi,
            Rule::Partition(mm) => RuleView::Partition(mm@),
            Rule::Mpath(mm) => RuleView::Mpath(mm@),
            Rule::VolumeGroup(mm) => RuleView::VolumeGroup(mm@),
            Rule::MdRaid(paths) => RuleView::MdRaid(paths.deep_view()),
            Rule::LogicalVolume(uuid) => RuleView::LogicalVolume(uuid@),
        }
    }
}

/// Whether the rule selects the event.
pub open spec fn selects(rule: RuleView, e: UEventView) -> bool {
    match rule {
        RuleView::Scsi => true,
        RuleView::Partition(mm) => e.part_entry_mm == Some(mm),
        RuleView::Mpath(mm) => e.dm_slave_mms.contains(mm),
        RuleView::VolumeGroup(mm) => e.dm_slave_mms.contains(mm),
        RuleView::MdRaid(paths) => intersects(paths, e.md_devs),
        RuleView::LogicalVolume(uuid) => e.vg_uuid == Some(uuid),
    }
}

/// The node that the rule makes of the event, or the reason why it cannot.
pub open spec fn node_of(rule: RuleView, e: UEventView, ms: Seq<MountView>) -> Result<
    DeviceView,
    Error,
> {
    match rule {
        RuleView::Scsi => scsi_node(e, ms),
        RuleView::Partition(_) => partition_node(e, ms),
        RuleView::Mpath(_) => mpath_node(e, ms),
        RuleView::VolumeGroup(_) => vg_node(e),
        RuleView::MdRaid(_) => md_node(e, ms),
        RuleView::LogicalVolume(_) => lv_node(e, ms),
    }
}

/// The child that the rule yields for the event, if any: the event must be
/// selected and have what its node needs. An event that lacks something is
/// passed over.
pub open spec fn child_of(rule: RuleView, e: UEventView, ms: Seq<MountView>) -> Option<DeviceView> {
    if selects(rule, e) {
        match node_of(rule, e, ms) {
            Ok(d) => Some(d),
            Err(_) => None,
        }
    } else {
        None
    }
}

/// `s` with `d` at its end, unless `d` is in `s` already.
pub open spec fn push_unique(s: Seq<DeviceView>, d: DeviceView) -> Seq<DeviceView> {
    if s.contains(d) {
        s
    } else {
        s.push(d)
    }
}

/// `acc`, then the distinct children that the rule yields over `evs` and that
/// `acc` does not hold yet, in the order of `evs`.
pub open spec fn add_children(
    acc: Seq<DeviceView>,
    evs: Seq<UEventView>,
    rule: RuleView,
    ms: Seq<MountView>,
) -> Seq<DeviceView>
    decreases evs.len(),
{
    if evs.len() == 0 {
        acc
    } else {
        let r = add_children(acc, evs.drop_last(), rule, ms);
        match child_of(rule, evs.last(), ms) {
            Some(d) => push_unique(r, d),
            None => r,
        }
    }
}

/// `acc`, then the nodes of the pools among `pools` that have a disk among
/// `paths`, have a size that parses, and are not in `acc` yet.
pub open spec fn add_pools(
    acc: Seq<DeviceView>,
    pools: Seq<PoolView>,
    paths: Seq<Seq<char>>,
    ms: Seq<MountView>,
) -> Seq<DeviceView>
    decreases pools.len(),
{
    if pools.len() == 0 {
        acc
    } else {
        let r = add_pools(acc, pools.drop_last(), paths, ms);
        let p = pools.last();
        if intersects(paths, vdev_paths(p.vdev)) && zpool_node(p, ms) is Ok {
            push_unique(r, zpool_node(p, ms)->Ok_0)
        } else {
            r
        }
    }
}

/// `acc`, then the nodes of the datasets `ds` that are not in `acc` yet.
pub open spec fn add_datasets(
    acc: Seq<DeviceView>,
    pool_guid: u64,
    ds: Seq<DatasetView>,
    ms: Seq<MountView>,
) -> Seq<DeviceView>
    decreases ds.len(),
{
    if ds.len() == 0 {
        acc
    } else {
        push_unique(
            add_datasets(acc, pool_guid, ds.drop_last(), ms),
            dataset_node(pool_guid, ds.last(), ms),
        )
    }
}

/// The first pool of `pools` with the given GUID.
pub open spec fn pool_with_guid(pools: Seq<PoolView>, guid: u64) -> Option<PoolView>
    decreases pools.len(),
{
    if pools.len() == 0 {
        None
    } else if pools[0].guid == guid {
        Some(pools[0])
    } else {
        pool_with_guid(pools.drop_first(), guid)
    }
}

/// The usable events of a host by class, and its pools.
pub struct Buckets<'a> {
    pub dms: Vec<&'a UEvent>,
    pub mds: Vec<&'a UEvent>,
    pub mpaths: Vec<&'a UEvent>,
    pub partitions: Vec<&'a UEvent>,
    pub pools: Vec<&'a Pool>,
    pub rest: Vec<&'a UEvent>,
}

/// The mathematical value of [`Buckets`].
pub ghost struct BucketsView {
    pub dms: Seq<UEventView>,
    pub mds: Seq<UEventView>,
    pub mpaths: Seq<UEventView>,
    pub partitions: Seq<UEventView>,
    pub pools: Seq<PoolView>,
    pub rest: Seq<UEventView>,
}

impl<'a> View for Buckets<'a> {
    type V = BucketsView;

    open spec fn view(&self) -> BucketsView {
        BucketsView {
            dms: self.dms.deep_view(),
            mds: self.mds.deep_view(),
            mpaths: self.mpaths.deep_view(),
            partitions: self.partitions.deep_view(),
            pools: self.pools.deep_view(),
            rest: self.rest.deep_view(),
        }
    }
}

/// The events of `xs` whose device is of class `t`, in the order of `xs`.
pub open spec fn of_class(xs: Seq<UEventView>, t: DeviceType) -> Seq<UEventView> {
    xs.filter(|e: UEventView| e.device_type() == t)
}

/// Sorts events into buckets by the class of their device, the first class
/// that applies, and puts the pools beside them.
pub fn bucket_devices<'a>(xs: &'a Vec<UEvent>, ys: &'a Vec<Pool>) -> (b: Buckets<'a>)
    ensures
        b@.dms == of_class(xs.deep_view(), DeviceType::VolumeGroup),
        b@.mds == of_class(xs.deep_view(), DeviceType::MdRaid),
        b@.mpaths == of_class(xs.deep_view(), DeviceType::Mpath),
        b@.partitions == of_class(xs.deep_view(), DeviceType::Partition),
        b@.rest == of_class(xs.deep_view(), DeviceType::ScsiDevice),
        b@.pools == ys.deep_view(),
{
    let mut b = Buckets {
        dms: Vec::new(),
        mds: Vec::new(),
        mpaths: Vec::new(),
        partitions: Vec::new(),
        pools: Vec::new(),
        rest: Vec::new(),
    };
    let mut i: usize = 0;
    proof {
        reveal(Seq::filter);
        assert(xs.deep_view().subrange(0, 0) =~= Seq::<UEventView>::empty());
        assert(b@.dms =~= of_class(xs.deep_view().subrange(0, 0), DeviceType::VolumeGroup));
        assert(b@.mds =~= of_class(xs.deep_view().subrange(0, 0), DeviceType::MdRaid));
        assert(b@.mpaths =~= of_class(xs.deep_view().subrange(0, 0), DeviceType::Mpath));
        assert(b@.partitions =~= of_class(xs.deep_view().subrange(0, 0), DeviceType::Partition));
        assert(b@.rest =~= of_class(xs.deep_view().subrange(0, 0), DeviceType::ScsiDevice));
    }
    while i < xs.len()
        invariant
            i <= xs.len(),
            b.pools@.len() == 0,
            b@.dms == of_class(xs.deep_view().subrange(0, i as int), DeviceType::VolumeGroup),
            b@.mds == of_class(xs.deep_view().subrange(0, i as int), DeviceType::MdRaid),
            b@.mpaths == of_class(xs.deep_view().subrange(0, i as int), DeviceType::Mpath),
            b@.partitions == of_class(xs.deep_view().subrange(0, i as int), DeviceType::Partition),
            b@.rest == of_class(xs.deep_view().subrange(0, i as int), DeviceType::ScsiDevice),
        decreases xs.len() - i,
    {
        let x = &xs[i];
        let ghost before = b@;
        let ghost prefix = xs.deep_view().subrange(0, i as int);
        let ghost next = xs.deep_view().subrange(0, i + 1);
        proof {
            assert(next =~= prefix.push(x@));
            prefix.lemma_filter_push(x@, |e: UEventView| e.device_type() == DeviceType::VolumeGroup);
            prefix.lemma_filter_push(x@, |e: UEventView| e.device_type() == DeviceType::MdRaid);
            prefix.lemma_filter_push(x@, |e: UEventView| e.device_type() == DeviceType::Mpath);
            prefix.lemma_filter_push(x@, |e: UEventView| e.device_type() == DeviceType::Partition);
            prefix.lemma_filter_push(x@, |e: UEventView| e.device_type() == DeviceType::ScsiDevice);
        }
        if x.is_dm() {
            b.dms.push(x);
            assert(b@.dms =~= before.dms.push(x@));
        } else if x.is_mdraid() {
            b.mds.push(x);
            assert(b@.mds =~= before.mds.push(x@));
        } else if x.is_mpath() {
            b.mpaths.push(x);
            assert(b@.mpaths =~= before.mpaths.push(x@));
        } else if x.is_partition() {
            b.partitions.push(x);
            assert(b@.partitions =~= before.partitions.push(x@));
        } else {
            b.rest.push(x);
            assert(b@.rest =~= before.rest.push(x@));
        }
        assert(b@.dms =~= of_class(next, DeviceType::VolumeGroup));
        assert(b@.mds =~= of_class(next, DeviceType::MdRaid));
        assert(b@.mpaths =~= of_class(next, DeviceType::Mpath));
        assert(b@.partitions =~= of_class(next, DeviceType::Partition));
        assert(b@.rest =~= of_class(next, DeviceType::ScsiDevice));
        i += 1;
    }
    assert(xs.deep_view().subrange(0, xs.len() as int) =~= xs.deep_view());
    let mut j: usize = 0;
    while j < ys.len()
        invariant
            j <= ys.len(),
            b.pools@.len() == j,
            forall|k: int| 0 <= k < j ==> b.pools@[k]@ == ys@[k]@,
            b@.dms == of_class(xs.deep_view(), DeviceType::VolumeGroup),
            b@.mds == of_class(xs.deep_view(), DeviceType::MdRaid),
            b@.mpaths == of_class(xs.deep_view(), DeviceType::Mpath),
            b@.partitions == of_class(xs.deep_view(), DeviceType::Partition),
            b@.rest == of_class(xs.deep_view(), DeviceType::ScsiDevice),
        decreases ys.len() - j,
    {
        b.pools.push(&ys[j]);
        j += 1;
    }
    assert(b@.pools =~= ys.deep_view());
    b
}

/// An empty list of children.
fn no_children() -> (r: Vec<Device>)
    ensures
        device_views(r@) == Seq::<DeviceView>::empty(),
{
    let r: Vec<Device> = Vec::new();
    assert(device_views(r@) =~= Seq::<DeviceView>::empty());
    r
}

/// The node that a rule makes of an event.
pub fn make_node(rule: &Rule, x: &UEvent, ys: &Vec<Mount>) -> (r: Result<Device, Error>)
    ensures
        match node_of(rule@, x@, ys.deep_view()) {
            Ok(d) => r is Ok && r->Ok_0@ == d,
            Err(e) => r is Err && r->Err_0 == e,
        },
{
    match rule {
        Rule::Scsi => {
            let serial = match &x.scsi83 {
                Some(s) => s.clone(),
                None => { return Err(Error::MissingField); },
            };
            let size = match x.size {
                Some(n) => n,
                None => { return Err(Error::MissingField); },
            };
            let (filesystem_type, mount_path) = fs_and_mount_of(&x.fs_type, &x.paths, ys);
            Ok(
                Device::ScsiDevice(
                    ScsiDevice {
                        serial,
                        scsi80: clone_opt(&x.scsi80),
                        major: x.major.clone(),
                        minor: x.minor.clone(),
                        devpath: x.devpath.clone(),
                        size,
                        filesystem_type,
                        paths: clone_strs(&x.paths),
                        mount_path,
                        children: no_children(),
                    },
                ),
            )
        },
        Rule::Partition(_) => {
            let partition_number = match x.part_entry_number {
                Some(n) => n,
                None => { return Err(Error::MissingField); },
            };
            let size = match x.size {
                Some(n) => n,
                None => { return Err(Error::MissingField); },
            };
            let (filesystem_type, mount_path) = fs_and_mount_of(&x.fs_type, &x.paths, ys);
            Ok(
                Device::Partition(
                    Partition {
                        partition_number,
                        size,
                        major: x.major.clone(),
                        minor: x.minor.clone(),
                        devpath: x.devpath.clone(),
                        filesystem_type,
                        paths: clone_strs(&x.paths),
                        mount_path,
                        children: no_children(),
                    },
                ),
            )
        },
        Rule::Mpath(_) => {
            let serial = match &x.scsi83 {
                Some(s) => s.clone(),
                None => { return Err(Error::MissingField); },
            };
            let size = match x.size {
                Some(n) => n,
                None => { return Err(Error::MissingField); },
            };
            let (filesystem_type, mount_path) = fs_and_mount_of(&x.fs_type, &x.paths, ys);
            Ok(
                Device::Mpath(
                    Mpath {
                        devpath: x.devpath.clone(),
                        serial,
                        size,
                        major: x.major.clone(),
                        minor: x.minor.clone(),
                        filesystem_type,
                        paths: clone_strs(&x.paths),
                        children: no_children(),
                        mount_path,
                    },
                ),
            )
        },
        Rule::VolumeGroup(_) => {
            let name = match &x.dm_vg_name {
                Some(s) => s.clone(),
                None => { return Err(Error::MissingField); },
            };
            let size = match x.dm_vg_size {
                Some(n) => n,
                None => { return Err(Error::MissingField); },
            };
            let uuid = match &x.vg_uuid {
                Some(s) => s.clone(),
                None => { return Err(Error::MissingField); },
            };
            Ok(Device::VolumeGroup(VolumeGroup { name, uuid, size, children: no_children() }))
        },
        Rule::MdRaid(_) => {
            let size = match x.size {
                Some(n) => n,
                None => { return Err(Error::MissingField); },
            };
            let uuid = match &x.md_uuid {
                Some(s) => s.clone(),
                None => { return Err(Error::MissingField); },
            };
            let (filesystem_type, mount_path) = fs_and_mount_of(&x.fs_type, &x.paths, ys);
            Ok(
                Device::MdRaid(
                    MdRaid {
                        size,
                        major: x.major.clone(),
                        minor: x.minor.clone(),
                        filesystem_type,
                        paths: clone_strs(&x.paths),
                        mount_path,
                        uuid,
                        children: no_children(),
                    },
                ),
            )
        },
        Rule::LogicalVolume(_) => {
            let name = match &x.dm_lv_name {
                Some(s) => s.clone(),
                None => { return Err(Error::MissingField); },
            };
            let uuid = match &x.lv_uuid {
                Some(s) => s.clone(),
                None => { return Err(Error::MissingField); },
            };
            let size = match x.size {
                Some(n) => n,
                None => { return Err(Error::MissingField); },
            };
            let (filesystem_type, mount_path) = fs_and_mount_of(&x.fs_type, &x.paths, ys);
            Ok(
                Device::LogicalVolume(
                    LogicalVolume {
                        name,
                        uuid,
                        major: x.major.clone(),
                        minor: x.minor.clone(),
                        size,
                        children: no_children(),
                        devpath: x.devpath.clone(),
                        paths: clone_strs(&x.paths),
                        filesystem_type,
                        mount_path,
                    },
                ),
            )
        },
    }
}

/// The node of a pool.
pub fn make_zpool(p: &Pool, ys: &Vec<Mount>) -> (r: Result<Device, Error>)
    ensures
        match zpool_node(p@, ys.deep_view()) {
            Ok(d) => r is Ok && r->Ok_0@ == d,
            Err(e) => r is Err && r->Err_0 == e,
        },
{
    let size = match parse_decimal(p.size.as_str()) {
        Some(n) => n,
        None => { return Err(Error::ParseInt); },
    };
    let mut names: Vec<String> = Vec::new();
    names.push(p.name.clone());
    assert(names.deep_view() =~= seq![p.name@]);
    let (filesystem_type, mount_path) = fs_and_mount_of(&None, &names, ys);
    Ok(
        Device::Zpool(
            Zpool {
                guid: p.guid,
                name: p.name.clone(),
                health: p.health.clone(),
                state: p.state.clone(),
                size,
                vdev: p.vdev.clone(),
                props: clone_props(&p.props),
                filesystem_type,
                mount_path,
                children: no_children(),
            },
        ),
    )
}

/// The node of a dataset of the pool with the given GUID.
pub fn make_dataset(pool_guid: u64, d: &crate::pool::Dataset, ys: &Vec<Mount>) -> (r: Device)
    ensures
        r@ == dataset_node(pool_guid, d@, ys.deep_view()),
{
    let mut names: Vec<String> = Vec::new();
    names.push(d.name.clone());
    assert(names.deep_view() =~= seq![d.name@]);
    let (filesystem_type, mount_path) = fs_and_mount_of(&None, &names, ys);
    Device::Dataset(
        Dataset {
            pool_guid,
            guid: d.guid.clone(),
            name: d.name.clone(),
            kind: d.kind.clone(),
            props: clone_props(&d.props),
            filesystem_type,
            mount_path,
        },
    )
}

/// Whether the rule selects the event.
fn rule_selects(rule: &Rule, x: &UEvent) -> (r: bool)
    ensures
        r == selects(rule@, x@),
{
    match rule {
        Rule::Scsi => true,
        Rule::Partition(mm) => match &x.part_entry_mm {
            Some(p) => *p == **mm,
            None => false,
        },
        Rule::Mpath(mm) => contains_str(&x.dm_slave_mms, mm),
        Rule::VolumeGroup(mm) => contains_str(&x.dm_slave_mms, mm),
        Rule::MdRaid(paths) => share_member(paths, &x.md_devs),
        Rule::LogicalVolume(uuid) => match &x.vg_uuid {
            Some(p) => *p == **uuid,
            None => false,
        },
    }
}

/// Puts `d` at the end of `acc` unless an equal device is there already.
fn add_unique(acc: &mut Vec<Device>, d: Device)
    ensures
        device_views(final(acc)@) == push_unique(device_views(old(acc)@), d@),
{
    let ghost before = device_views(acc@);
    let mut i: usize = 0;
    while i < acc.len()
        invariant
            i <= acc.len(),
            acc@ == old(acc)@,
            before == device_views(acc@),
            forall|j: int| 0 <= j < i ==> acc[j]@ != d@,
        decreases acc.len() - i,
    {
        if acc[i].same(&d) {
            assert(before[i as int] == d@);
            return ;
        }
        i += 1;
    }
    assert forall|j: int| 0 <= j < before.len() implies before[j] != d@ by {
        assert(before[j] == acc[j]@);
    }
    acc.push(d);
    assert(device_views(acc@) =~= before.push(d@));
}

/// Adds to `acc` the children that the rule yields over a bucket.
fn collect_children(acc: &mut Vec<Device>, evs: &Vec<&UEvent>, rule: &Rule, ys: &Vec<Mount>)
    ensures
        device_views(final(acc)@) == add_children(
            device_views(old(acc)@),
            evs.deep_view(),
            rule@,
            ys.deep_view(),
        ),
{
    let mut i: usize = 0;
    assert(evs.deep_view().subrange(0, 0) =~= Seq::<UEventView>::empty());
    while i < evs.len()
        invariant
            i <= evs.len(),
            device_views(acc@) == add_children(
                device_views(old(acc)@),
                evs.deep_view().subrange(0, i as int),
                rule@,
                ys.deep_view(),
            ),
        decreases evs.len() - i,
    {
        let x = evs[i];
        proof {
            let next = evs.deep_view().subrange(0, i + 1);
            assert(next.drop_last() =~= evs.deep_view().subrange(0, i as int));
            assert(next.last() == x@);
        }
        if rule_selects(rule, x) {
            match make_node(rule, x, ys) {
                Ok(d) => add_unique(acc, d),
                Err(_) => {},
            }
        }
        i += 1;
    }
    assert(evs.deep_view().subrange(0, evs.len() as int) =~= evs.deep_view());
}

/// Adds to `acc` the nodes of the pools that have a disk among `paths`.
fn collect_pools(acc: &mut Vec<Device>, pools: &Vec<&Pool>, paths: &Vec<String>, ys: &Vec<Mount>)
    ensures
        device_views(final(acc)@) == add_pools(
            device_views(old(acc)@),
            pools.deep_view(),
            paths.deep_view(),
            ys.deep_view(),
        ),
{
    let mut i: usize = 0;
    assert(pools.deep_view().subrange(0, 0) =~= Seq::<PoolView>::empty());
    while i < pools.len()
        invariant
            i <= pools.len(),
            device_views(acc@) == add_pools(
                device_views(old(acc)@),
                pools.deep_view().subrange(0, i as int),
                paths.deep_view(),
                ys.deep_view(),
            ),
        decreases pools.len() - i,
    {
        let p = pools[i];
        proof {
            let next = pools.deep_view().subrange(0, i + 1);
            assert(next.drop_last() =~= pools.deep_view().subrange(0, i as int));
            assert(next.last() == p@);
        }
        let vdev_paths = get_vdev_paths(&p.vdev);
        if share_member(paths, &vdev_paths) {
            match make_zpool(p, ys) {
                Ok(d) => add_unique(acc, d),
                Err(_) => {},
            }
        }
        i += 1;
    }
    assert(pools.deep_view().subrange(0, pools.len() as int) =~= pools.deep_view());
}

/// The volume groups that have `major:minor` as a slave.
pub fn get_vgs(b: &Buckets, major: &str, minor: &str) -> (r: Vec<Device>)
    ensures
        device_views(r@) == add_children(
            Seq::empty(),
            b@.dms,
            RuleView::VolumeGroup(major_minor(major@, minor@)),
            Seq::empty(),
        ),
{
    let mm = format_major_minor(major, minor);
    let mut r: Vec<Device> = Vec::new();
    let none: Vec<Mount> = Vec::new();
    assert(device_views(r@) =~= Seq::<DeviceView>::empty());
    assert(none.deep_view() =~= Seq::<MountView>::empty());
    collect_children(&mut r, &b.dms, &Rule::VolumeGroup(&mm), &none);
    r
}

/// The partitions that sit on the device `major:minor`.
pub fn get_partitions(b: &Buckets, ys: &Vec<Mount>, major: &str, minor: &str) -> (r: Vec<Device>)
    ensures
        device_views(r@) == add_children(
            Seq::empty(),
            b@.partitions,
            RuleView::Partition(major_minor(major@, minor@)),
            ys.deep_view(),
        ),
{
    let mm = format_major_minor(major, minor);
    let mut r: Vec<Device> = Vec::new();
    assert(device_views(r@) =~= Seq::<DeviceView>::empty());
    collect_children(&mut r, &b.partitions, &Rule::Partition(&mm), ys);
    r
}

/// The logical volumes of the volume group with the given UUID.
pub fn get_lvs(b: &Buckets, ys: &Vec<Mount>, uuid: &String) -> (r: Vec<Device>)
    ensures
        device_views(r@) == add_children(
            Seq::empty(),
            b@.dms,
            RuleView::LogicalVolume(uuid@),
            ys.deep_view(),
        ),
{
    let mut r: Vec<Device> = Vec::new();
    assert(device_views(r@) =~= Seq::<DeviceView>::empty());
    collect_children(&mut r, &b.dms, &Rule::LogicalVolume(uuid), ys);
    r
}

/// The SCSI devices: one for each event that fits no other class.
pub fn get_scsis(b: &Buckets, ys: &Vec<Mount>) -> (r: Vec<Device>)
    ensures
        device_views(r@) == add_children(Seq::empty(), b@.rest, RuleView::Scsi, ys.deep_view()),
{
    let mut r: Vec<Device> = Vec::new();
    assert(device_views(r@) =~= Seq::<DeviceView>::empty());
    collect_children(&mut r, &b.rest, &Rule::Scsi, ys);
    r
}

/// The multipath devices that have `major:minor` as a slave.
pub fn get_mpaths(b: &Buckets, ys: &Vec<Mount>, major: &str, minor: &str) -> (r: Vec<Device>)
    ensures
        device_views(r@) == add_children(
            Seq::empty(),
            b@.mpaths,
            RuleView::Mpath(major_minor(major@, minor@)),
            ys.deep_view(),
        ),
{
    let mm = format_major_minor(major, minor);
    let mut r: Vec<Device> = Vec::new();
    assert(device_views(r@) =~= Seq::<DeviceView>::empty());
    collect_children(&mut r, &b.mpaths, &Rule::Mpath(&mm), ys);
    r
}

/// The RAID arrays that have a member among `paths`.
pub fn get_mds(b: &Buckets, ys: &Vec<Mount>, paths: &Vec<String>) -> (r: Vec<Device>)
    ensures
        device_views(r@) == add_children(
            Seq::empty(),
            b@.mds,
            RuleView::MdRaid(paths.deep_view()),
            ys.deep_view(),
        ),
{
    let mut r: Vec<Device> = Vec::new();
    assert(device_views(r@) =~= Seq::<DeviceView>::empty());
    collect_children(&mut r, &b.mds, &Rule::MdRaid(paths), ys);
    r
}

/// The pools that have a disk among `paths`.
pub fn get_pools(b: &Buckets, ys: &Vec<Mount>, paths: &Vec<String>) -> (r: Vec<Device>)
    ensures
        device_views(r@) == add_pools(
            Seq::empty(),
            b@.pools,
            paths.deep_view(),
            ys.deep_view(),
        ),
{
    let mut r: Vec<Device> = Vec::new();
    assert(device_views(r@) =~= Seq::<DeviceView>::empty());
    collect_pools(&mut r, &b.pools, paths, ys);
    r
}

/// The datasets of the first pool in the buckets with the given GUID, or
/// `PoolNotFound` where the buckets hold no such pool.
pub fn get_datasets(b: &Buckets, ys: &Vec<Mount>, guid: u64) -> (r: Result<Vec<Device>, Error>)
    ensures
        match pool_with_guid(b@.pools, guid) {
            Some(p) => r is Ok && device_views(r->Ok_0@) == add_datasets(
                Seq::empty(),
                guid,
                p.datasets,
                ys.deep_view(),
            ),
            None => r == Err::<Vec<Device>, Error>(Error::PoolNotFound),
        },
{
    let mut i: usize = 0;
    assert(b@.pools.skip(0) =~= b@.pools);
    while i < b.pools.len()
        invariant
            i <= b.pools.len(),
            pool_with_guid(b@.pools, guid) == pool_with_guid(b@.pools.skip(i as int), guid),
        decreases b.pools.len() - i,
    {
        let p = b.pools[i];
        let ghost rest = b@.pools.skip(i as int);
        assert(rest[0] == p@);
        if p.guid == guid {
            let mut r: Vec<Device> = Vec::new();
            let mut j: usize = 0;
            assert(device_views(r@) =~= Seq::<DeviceView>::empty());
            assert(p.datasets.deep_view().subrange(0, 0) =~= Seq::<DatasetView>::empty());
            while j < p.datasets.len()
                invariant
                    j <= p.datasets.len(),
                    device_views(r@) == add_datasets(
                        Seq::empty(),
                        guid,
                        p.datasets.deep_view().subrange(0, j as int),
                        ys.deep_view(),
                    ),
                decreases p.datasets.len() - j,
            {
                proof {
                    let next = p.datasets.deep_view().subrange(0, j + 1);
                    assert(next.drop_last() =~= p.datasets.deep_view().subrange(0, j as int));
                    assert(next.last() == p.datasets[j as int]@);
                }
                let d = make_dataset(guid, &p.datasets[j], ys);
                add_unique(&mut r, d);
                j += 1;
            }
            assert(p.datasets.deep_view().subrange(0, p.datasets.len() as int)
                =~= p.datasets.deep_view());
            return Ok(r);
        }
        assert(rest.drop_first() =~= b@.pools.skip(i + 1));
        i += 1;
    }
    Err(Error::PoolNotFound)
}

/// `a`, then the members of `b` that are not there yet, in their order.
pub open spec fn merge(a: Seq<DeviceView>, b: Seq<DeviceView>) -> Seq<DeviceView>
    decreases b.len(),
{
    if b.len() == 0 {
        a
    } else {
        push_unique(merge(a, b.drop_last()), b.last())
    }
}

/// Adds to `acc` the devices of `more` that it does not hold yet.
fn union_into(acc: &mut Vec<Device>, more: &Vec<Device>)
    ensures
        device_views(final(acc)@) == merge(device_views(old(acc)@), device_views(more@)),
{
    let mut i: usize = 0;
    assert(device_views(more@).subrange(0, 0) =~= Seq::<DeviceView>::empty());
    while i < more.len()
        invariant
            i <= more.len(),
            device_views(acc@) == merge(
                device_views(old(acc)@),
                device_views(more@).subrange(0, i as int),
            ),
        decreases more.len() - i,
    {
        proof {
            let next = device_views(more@).subrange(0, i + 1);
            assert(next.drop_last() =~= device_views(more@).subrange(0, i as int));
            assert(next.last() == more[i as int]@);
        }
        add_unique(acc, more[i].clone());
        i += 1;
    }
    assert(device_views(more@).subrange(0, more.len() as int) =~= device_views(more@));
}

/// The children that a device on `major:minor` with the given paths has
/// by the rules for partitions, volume groups, RAID arrays and pools.
pub open spec fn layered(
    b: BucketsView,
    ms: Seq<MountView>,
    major: Seq<char>,
    minor: Seq<char>,
    paths: Seq<Seq<char>>,
) -> Seq<DeviceView> {
    let mm = major_minor(major, minor);
    let vgs = add_children(Seq::empty(), b.dms, RuleView::VolumeGroup(mm), Seq::empty());
    let partitions = add_children(Seq::empty(), b.partitions, RuleView::Partition(mm), ms);
    let mds = add_children(Seq::empty(), b.mds, RuleView::MdRaid(paths), ms);
    let pools = add_pools(Seq::empty(), b.pools, paths, ms);
    merge(merge(merge(vgs, partitions), mds), pools)
}

/// The children of a node, as its class prescribes, each still without
/// children of its own.
///
/// - The root has the SCSI devices.
/// - A SCSI device and a partition have the partitions on them, the
///   multipath devices and volume groups they are a slave of, the RAID arrays
///   they are a member of and the pools they hold a disk of.
/// - A multipath device and a RAID array have the same but for multipath
///   devices.
/// - A volume group has its logical volumes.
/// - A logical volume has the partitions on it and the pools it holds a disk
///   of.
/// - A pool has its datasets.
/// - A dataset has nothing.
pub open spec fn candidates(d: DeviceView, b: BucketsView, ms: Seq<MountView>) -> Seq<DeviceView> {
    match d {
        DeviceView::Root(_) => add_children(Seq::empty(), b.rest, RuleView::Scsi, ms),
        DeviceView::ScsiDevice(x) => {
            let mm = major_minor(x.major, x.minor);
            let mpaths = add_children(Seq::empty(), b.mpaths, RuleView::Mpath(mm), ms);
            merge(mpaths, layered(b, ms, x.major, x.minor, x.paths))
        },
        DeviceView::Partition(x) => {
            let mm = major_minor(x.major, x.minor);
            let mpaths = add_children(Seq::empty(), b.mpaths, RuleView::Mpath(mm), ms);
            merge(mpaths, layered(b, ms, x.major, x.minor, x.paths))
        },
        DeviceView::Mpath(x) => layered(b, ms, x.major, x.minor, x.paths),
        DeviceView::MdRaid(x) => layered(b, ms, x.major, x.minor, x.paths),
        DeviceView::VolumeGroup(x) => add_children(
            Seq::empty(),
            b.dms,
            RuleView::LogicalVolume(x.uuid),
            ms,
        ),
        DeviceView::LogicalVolume(x) => {
            let mm = major_minor(x.major, x.minor);
            let partitions = add_children(Seq::empty(), b.partitions, RuleView::Partition(mm), ms);
            merge(partitions, add_pools(Seq::empty(), b.pools, x.paths, ms))
        },
        DeviceView::Zpool(x) => match pool_with_guid(b.pools, x.guid) {
            Some(p) => add_datasets(Seq::empty(), x.guid, p.datasets, ms),
            None => Seq::empty(),
        },
        DeviceView::Dataset(_) => Seq::empty(),
    }
}

fn layered_children(
    b: &Buckets,
    ys: &Vec<Mount>,
    major: &String,
    minor: &String,
    paths: &Vec<String>,
) -> (r: Vec<Device>)
    ensures
        device_views(r@) == layered(b@, ys.deep_view(), major@, minor@, paths.deep_view()),
{
    let mut r = get_vgs(b, major.as_str(), minor.as_str());
    let ps = get_partitions(b, ys, major.as_str(), minor.as_str());
    union_into(&mut r, &ps);
    let mds = get_mds(b, ys, paths);
    union_into(&mut r, &mds);
    let pools = get_pools(b, ys, paths);
    union_into(&mut r, &pools);
    r
}

/// The children of a node, each still without children of its own.
pub fn children_of(d: &Device, b: &Buckets, ys: &Vec<Mount>) -> (r: Vec<Device>)
    ensures
        device_views(r@) == candidates(d@, b@, ys.deep_view()),
{
    match d {
        Device::Root(_) => get_scsis(b, ys),
        Device::ScsiDevice(x) => {
            let mut r = get_mpaths(b, ys, x.major.as_str(), x.minor.as_str());
            let more = layered_children(b, ys, &x.major, &x.minor, &x.paths);
            union_into(&mut r, &more);
            r
        },
        Device::Partition(x) => {
            let mut r = get_mpaths(b, ys, x.major.as_str(), x.minor.as_str());
            let more = layered_children(b, ys, &x.major, &x.minor, &x.paths);
            union_into(&mut r, &more);
            r
        },
        Device::Mpath(x) => layered_children(b, ys, &x.major, &x.minor, &x.paths),
        Device::MdRaid(x) => layered_children(b, ys, &x.major, &x.minor, &x.paths),
        Device::VolumeGroup(x) => get_lvs(b, ys, &x.uuid),
        Device::LogicalVolume(x) => {
            let mut r = get_partitions(b, ys, x.major.as_str(), x.minor.as_str());
            let pools = get_pools(b, ys, &x.paths);
            union_into(&mut r, &pools);
            r
        },
        Device::Zpool(x) => match get_datasets(b, ys, x.guid) {
            Ok(r) => r,
            Err(_) => no_children(),
        },
        Device::Dataset(_) => no_children(),
    }
}

/// The node with `c` below it in place of its children.
fn set_children(d: Device, c: Vec<Device>) -> (r: Device)
    ensures
        r@ == d@.with_children(device_views(c@)),
{
    match d {
        Device::Root(x) => Device::Root(Root { children: c }),
        Device::ScsiDevice(x) => {
            let ScsiDevice {
                serial,
                scsi80,
                major,
                minor,
                devpath,
                size,
                filesystem_type,
                paths,
                mount_path,
                children,
            } = x;
            Device::ScsiDevice(
                ScsiDevice {
                    serial,
                    scsi80,
                    major,
                    minor,
                    devpath,
                    size,
                    filesystem_type,
                    paths,
                    mount_path,
                    children: c,
                },
            )
        },
        Device::Partition(x) => {
            let Partition {
                partition_number,
                size,
                major,
                minor,
                devpath,
                filesystem_type,
                paths,
                mount_path,
                children,
            } = x;
            Device::Partition(
                Partition {
                    partition_number,
                    size,
                    major,
                    minor,
                    devpath,
                    filesystem_type,
                    paths,
                    mount_path,
                    children: c,
                },
            )
        },
        Device::MdRaid(x) => {
            let MdRaid { size, major, minor, filesystem_type, paths, mount_path, uuid, children } =
                x;
            Device::MdRaid(
                MdRaid { size, major, minor, filesystem_type, paths, mount_path, uuid, children: c },
            )
        },
        Device::Mpath(x) => {
            let Mpath {
                devpath,
                serial,
                size,
                major,
                minor,
                filesystem_type,
                paths,
                children,
                mount_path,
            } = x;
            Device::Mpath(
                Mpath {
                    devpath,
                    serial,
                    size,
                    major,
                    minor,
                    filesystem_type,
                    paths,
                    children: c,
                    mount_path,
                },
            )
        },
        Device::VolumeGroup(x) => {
            let VolumeGroup { name, uuid, size, children } = x;
            Device::VolumeGroup(VolumeGroup { name, uuid, size, children: c })
        },
        Device::LogicalVolume(x) => {
            let LogicalVolume {
                name,
                uuid,
                major,
                minor,
                size,
                children,
                devpath,
                paths,
                filesystem_type,
                mount_path,
            } = x;
            Device::LogicalVolume(
                LogicalVolume {
                    name,
                    uuid,
                    major,
                    minor,
                    size,
                    children: c,
                    devpath,
                    paths,
                    filesystem_type,
                    mount_path,
                },
            )
        },
        Device::Zpool(x) => {
            let Zpool {
                guid,
                name,
                health,
                state,
                size,
                vdev,
                props,
                filesystem_type,
                mount_path,
                children,
            } = x;
            Device::Zpool(
                Zpool {
                    guid,
                    name,
                    health,
                    state,
                    size,
                    vdev,
                    props,
                    filesystem_type,
                    mount_path,
                    children: c,
                },
            )
        },
        Device::Dataset(x) => Device::Dataset(x),
    }
}

/// The subtree below a node: the node with its children, each with its own
/// subtree, down to `depth` levels. Below that the nodes are left as they
/// are.
pub open spec fn expand(d: DeviceView, b: BucketsView, ms: Seq<MountView>, depth: nat) -> DeviceView
    decreases depth, 0nat,
{
    if depth == 0 {
        d
    } else {
        d.with_children(expand_all(candidates(d, b, ms), b, ms, (depth - 1) as nat))
    }
}

/// Each of the nodes with its subtree, down to `depth` levels.
pub open spec fn expand_all(
    c: Seq<DeviceView>,
    b: BucketsView,
    ms: Seq<MountView>,
    depth: nat,
) -> Seq<DeviceView>
    decreases depth, 1nat,
{
    Seq::new(c.len(), |i: int| expand(c[i], b, ms, depth))
}

/// Populates the subtree below a node, down to `depth` levels.
pub fn build_device_graph(dev: Device, b: &Buckets, ys: &Vec<Mount>, depth: usize) -> (r: Device)
    ensures
        r@ == expand(dev@, b@, ys.deep_view(), depth as nat),
    decreases depth,
{
    if depth == 0 {
        return dev;
    }
    let cands = children_of(&dev, b, ys);
    let mut kids: Vec<Device> = Vec::new();
    let mut i: usize = 0;
    while i < cands.len()
        invariant
            i <= cands.len(),
            depth > 0,
            kids.len() == i,
            forall|j: int|
                0 <= j < i ==> (#[trigger] kids[j])@ == expand(
                    cands[j]@,
                    b@,
                    ys.deep_view(),
                    (depth - 1) as nat,
                ),
        decreases cands.len() - i,
    {
        let kid = build_device_graph(cands[i].clone(), b, ys, depth - 1);
        kids.push(kid);
        i += 1;
    }
    let ghost c = candidates(dev@, b@, ys.deep_view());
    assert(device_views(kids@) =~= expand_all(c, b@, ys.deep_view(), (depth - 1) as nat));
    set_children(dev, kids)
}

/// How many devices the buckets can give that something may be layered on:
/// one for each event, one more for each event of a logical volume, which
/// gives its volume group too, and one for each pool.
pub open spec fn level_count(b: BucketsView) -> nat {
    2 * b.dms.len() + b.mds.len() + b.mpaths.len() + b.partitions.len() + b.rest.len()
        + b.pools.len()
}

/// How deep a tree over the buckets is populated: a level for each device
/// that the buckets can give, and two more for the root and the datasets,
/// as far as a `usize` can count them. A chain of devices that are layered
/// on each other has no more members, unless it meets a device twice.
pub open spec fn depth_bound(b: BucketsView) -> nat {
    let n = level_count(b) + 2;
    if n <= usize::MAX {
        n
    } else {
        usize::MAX as nat
    }
}

/// The device tree of a host, from its usable events by class, its pools
/// and its mounts.
pub open spec fn tree_of(b: BucketsView, ms: Seq<MountView>) -> DeviceView {
    expand(DeviceView::Root(RootView { children: Seq::empty() }), b, ms, depth_bound(b))
}

fn bounded_add(a: usize, b: usize) -> (r: usize)
    ensures
        r == if a + b <= usize::MAX {
            (a + b) as usize
        } else {
            usize::MAX
        },
{
    if b <= usize::MAX - a {
        a + b
    } else {
        usize::MAX
    }
}

/// Builds the device tree of a host.
pub fn device_tree(b: &Buckets, ys: &Vec<Mount>) -> (root: Device)
    ensures
        root@ == tree_of(b@, ys.deep_view()),
{
    let mut depth = bounded_add(b.dms.len(), b.dms.len());
    depth = bounded_add(depth, b.mds.len());
    depth = bounded_add(depth, b.mpaths.len());
    depth = bounded_add(depth, b.partitions.len());
    depth = bounded_add(depth, b.rest.len());
    depth = bounded_add(depth, b.pools.len());
    depth = bounded_add(depth, 2);
    let root = Device::Root(Root { children: no_children() });
    build_device_graph(root, b, ys, depth)
}

} // verus!
