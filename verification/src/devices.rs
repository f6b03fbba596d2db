//! The device tree that a host's scanner publishes: a root, below it the
//! host's SCSI devices, and below each device whatever is layered on it.

use crate::pool::{clone_props, props_eq, VDev, VDevView, ZProp, ZPropView};
use crate::text::{clone_opt, clone_strs, opt_eq, strs_eq};
use vstd::prelude::*;

verus! {

/// The root of a host's device tree: its children are the host's SCSI devices.
#[derive(Debug, PartialEq)]
pub struct Root {
    pub children: Vec<Device>,
}

/// The mathematical value of a [`Root`].
pub ghost struct RootView {
    pub children: Seq<DeviceView>,
}

/// A disk as the SCSI layer presents it.
#[derive(Debug, PartialEq)]
pub struct ScsiDevice {
    pub serial: String,
    pub scsi80: Option<String>,
    pub major: String,
    pub minor: String,
    pub devpath: String,
    pub size: i64,
    pub filesystem_type: Option<String>,
    pub paths: Vec<String>,
    pub mount_path: Option<String>,
    pub children: Vec<Device>,
}

/// The mathematical value of a [`ScsiDevice`].
pub ghost struct ScsiDeviceView {
    pub serial: Seq<char>,
    pub scsi80: Option<Seq<char>>,
    pub major: Seq<char>,
    pub minor: Seq<char>,
    pub devpath: Seq<char>,
    pub size: i64,
    pub filesystem_type: Option<Seq<char>>,
    pub paths: Seq<Seq<char>>,
    pub mount_path: Option<Seq<char>>,
    pub children: Seq<DeviceView>,
}

/// A partition of a block device.
#[derive(Debug, PartialEq)]
pub struct Partition {
    pub partition_number: i64,
    pub size: i64,
    pub major: String,
    pub minor: String,
    pub devpath: String,
    pub filesystem_type: Option<String>,
    pub paths: Vec<String>,
    pub mount_path: Option<String>,
    pub children: Vec<Device>,
}

/// The mathematical value of a [`Partition`].
pub ghost struct PartitionView {
    pub partition_number: i64,
    pub size: i64,
    pub major: Seq<char>,
    pub minor: Seq<char>,
    pub devpath: Seq<char>,
    pub filesystem_type: Option<Seq<char>>,
    pub paths: Seq<Seq<char>>,
    pub mount_path: Option<Seq<char>>,
    pub children: Seq<DeviceView>,
}

/// A software RAID array.
#[derive(Debug, PartialEq)]
pub struct MdRaid {
    pub size: i64,
    pub major: String,
    pub minor: String,
    pub filesystem_type: Option<String>,
    pub paths: Vec<String>,
    pub mount_path: Option<String>,
    pub uuid: String,
    pub children: Vec<Device>,
}

/// The mathematical value of a [`MdRaid`].
pub ghost struct MdRaidView {
    pub size: i64,
    pub major: Seq<char>,
    pub minor: Seq<char>,
    pub filesystem_type: Option<Seq<char>>,
    pub paths: Seq<Seq<char>>,
    pub mount_path: Option<Seq<char>>,
    pub uuid: Seq<char>,
    pub children: Seq<DeviceView>,
}

/// A multipath device over several paths to one disk.
#[derive(Debug, PartialEq)]
pub struct Mpath {
    pub devpath: String,
    pub serial: String,
    pub size: i64,
    pub major: String,
    pub minor: String,
    pub filesystem_type: Option<String>,
    pub paths: Vec<String>,
    pub children: Vec<Device>,
    pub mount_path: Option<String>,
}

/// The mathematical value of a [`Mpath`].
pub ghost struct MpathView {
    pub devpath: Seq<char>,
    pub serial: Seq<char>,
    pub size: i64,
    pub major: Seq<char>,
    pub minor: Seq<char>,
    pub filesystem_type: Option<Seq<char>>,
    pub paths: Seq<Seq<char>>,
    pub children: Seq<DeviceView>,
    pub mount_path: Option<Seq<char>>,
}

/// An LVM volume group.
#[derive(Debug, PartialEq)]
pub struct VolumeGroup {
    pub name: String,
    pub uuid: String,
    pub size: i64,
    pub children: Vec<Device>,
}

/// The mathematical value of a [`VolumeGroup`].
pub ghost struct VolumeGroupView {
    pub name: Seq<char>,
    pub uuid: Seq<char>,
    pub size: i64,
    pub children: Seq<DeviceView>,
}

/// An LVM logical volume.
#[derive(Debug, PartialEq)]
pub struct LogicalVolume {
    pub name: String,
    pub uuid: String,
    pub major: String,
    pub minor: String,
    pub size: i64,
    pub children: Vec<Device>,
    pub devpath: String,
    pub paths: Vec<String>,
    pub filesystem_type: Option<String>,
    pub mount_path: Option<String>,
}

/// The mathematical value of a [`LogicalVolume`].
pub ghost struct LogicalVolumeView {
    pub name: Seq<char>,
    pub uuid: Seq<char>,
    pub major: Seq<char>,
    pub minor: Seq<char>,
    pub size: i64,
    pub children: Seq<DeviceView>,
    pub devpath: Seq<char>,
    pub paths: Seq<Seq<char>>,
    pub filesystem_type: Option<Seq<char>>,
    pub mount_path: Option<Seq<char>>,
}

/// A ZFS pool. Its children are its datasets.
#[derive(Debug, PartialEq)]
pub struct Zpool {
    pub guid: u64,
    pub name: String,
    pub health: String,
    pub state: String,
    pub size: u64,
    pub vdev: VDev,
    pub props: Vec<ZProp>,
    pub filesystem_type: Option<String>,
    pub mount_path: Option<String>,
    pub children: Vec<Device>,
}

/// The mathematical value of a [`Zpool`].
pub ghost struct ZpoolView {
    pub guid: u64,
    pub name: Seq<char>,
    pub health: Seq<char>,
    pub state: Seq<char>,
    pub size: u64,
    pub vdev: VDevView,
    pub props: Seq<ZPropView>,
    pub filesystem_type: Option<Seq<char>>,
    pub mount_path: Option<Seq<char>>,
    pub children: Seq<DeviceView>,
}

/// A dataset of a ZFS pool: a leaf of the tree.
#[derive(Debug, PartialEq)]
pub struct Dataset {
    pub pool_guid: u64,
    pub guid: String,
    pub name: String,
    pub kind: String,
    pub props: Vec<ZProp>,
    pub filesystem_type: Option<String>,
    pub mount_path: Option<String>,
}

/// The mathematical value of a [`Dataset`].
pub ghost struct DatasetView {
    pub pool_guid: u64,
    pub guid: Seq<char>,
    pub name: Seq<char>,
    pub kind: Seq<char>,
    pub props: Seq<ZPropView>,
    pub filesystem_type: Option<Seq<char>>,
    pub mount_path: Option<Seq<char>>,
}

/// A node of a host's device tree.
#[derive(Debug, PartialEq)]
pub enum Device {
    Root(Root),
    ScsiDevice(ScsiDevice),
    Partition(Partition),
    MdRaid(MdRaid),
    Mpath(Mpath),
    VolumeGroup(VolumeGroup),
    LogicalVolume(LogicalVolume),
    Zpool(Zpool),
    Dataset(Dataset),
}

/// The mathematical value of a [`Device`].
pub ghost enum DeviceView {
    Root(RootView),
    ScsiDevice(ScsiDeviceView),
    Partition(PartitionView),
    MdRaid(MdRaidView),
    Mpath(MpathView),
    VolumeGroup(VolumeGroupView),
    LogicalVolume(LogicalVolumeView),
    Zpool(ZpoolView),
    Dataset(DatasetView),
}

/// The values of a list of devices, in order.
pub open spec fn device_views(v: Seq<Device>) -> Seq<DeviceView>
    decreases v,
{
    Seq::new(
        v.len(),
        |i: int|
            if 0 <= i < v.len() {
                v[i].view()
            } else {
                arbitrary()
            },
    )
}

impl View for Root {
    type V = RootView;

    open spec fn view(&self) -> RootView
        decreases self,
    {
        RootView {
            children: device_views(self.children@),
        }
    }
}

impl View for ScsiDevice {
    type V = ScsiDeviceView;

    open spec fn view(&self) -> ScsiDeviceView
        decreases self,
    {
        ScsiDeviceView {
            serial: self.serial@,
            scsi80: self.scsi80.deep_view(),
            major: self.major@,
            minor: self.minor@,
            devpath: self.devpath@,
            size: self.size,
            filesystem_type: self.filesystem_type.deep_view(),
            paths: self.paths.deep_view(),
            mount_path: self.mount_path.deep_view(),
            children: device_views(self.children@),
        }
    }
}

impl View for Partition {
    type V = PartitionView;

    open spec fn view(&self) -> PartitionView
        decreases self,
    {
        PartitionView {
            partition_number: self.partition_number,
            size: self.size,
            major: self.major@,
            minor: self.minor@,
            devpath: self.devpath@,
            filesystem_type: self.filesystem_type.deep_view(),
            paths: self.paths.deep_view(),
            mount_path: self.mount_path.deep_view(),
            children: device_views(self.children@),
        }
    }
}

impl View for MdRaid {
    type V = MdRaidView;

    open spec fn view(&self) -> MdRaidView
        decreases self,
    {
        MdRaidView {
            size: self.size,
            major: self.major@,
            minor: self.minor@,
            filesystem_type: self.filesystem_type.deep_view(),
            paths: self.paths.deep_view(),
            mount_path: self.mount_path.deep_view(),
            uuid: self.uuid@,
            children: device_views(self.children@),
        }
    }
}

impl View for Mpath {
    type V = MpathView;

    open spec fn view(&self) -> MpathView
        decreases self,
    {
        MpathView {
            devpath: self.devpath@,
            serial: self.serial@,
            size: self.size,
            major: self.major@,
            minor: self.minor@,
            filesystem_type: self.filesystem_type.deep_view(),
            paths: self.paths.deep_view(),
            children: device_views(self.children@),
            mount_path: self.mount_path.deep_view(),
        }
    }
}

impl View for VolumeGroup {
    type V = VolumeGroupView;

    open spec fn view(&self) -> VolumeGroupView
        decreases self,
    {
        VolumeGroupView {
            name: self.name@,
            uuid: self.uuid@,
            size: self.size,
            children: device_views(self.children@),
        }
    }
}

impl View for LogicalVolume {
    type V = LogicalVolumeView;

    open spec fn view(&self) -> LogicalVolumeView
        decreases self,
    {
        LogicalVolumeView {
            name: self.name@,
            uuid: self.uuid@,
            major: self.major@,
            minor: self.minor@,
            size: self.size,
            children: device_views(self.children@),
            devpath: self.devpath@,
            paths: self.paths.deep_view(),
            filesystem_type: self.filesystem_type.deep_view(),
            mount_path: self.mount_path.deep_view(),
        }
    }
}

impl View for Zpool {
    type V = ZpoolView;

    open spec fn view(&self) -> ZpoolView
        decreases self,
    {
        ZpoolView {
            guid: self.guid,
            name: self.name@,
            health: self.health@,
            state: self.state@,
            size: self.size,
            vdev: self.vdev@,
            props: self.props.deep_view(),
            filesystem_type: self.filesystem_type.deep_view(),
            mount_path: self.mount_path.deep_view(),
            children: device_views(self.children@),
        }
    }
}

impl View for Dataset {
    type V = DatasetView;

    open spec fn view(&self) -> DatasetView
    {
        DatasetView {
            pool_guid: self.pool_guid,
            guid: self.guid@,
            name: self.name@,
            kind: self.kind@,
            props: self.props.deep_view(),
            filesystem_type: self.filesystem_type.deep_view(),
            mount_path: self.mount_path.deep_view(),
        }
    }
}

impl View for Device {
    type V = DeviceView;

    open spec fn view(&self) -> DeviceView
        decreases self,
    {
        match self {
            Device::Root(x) => DeviceView::Root(x.view()),
            Device::ScsiDevice(x) => DeviceView::ScsiDevice(x.view()),
            Device::Partition(x) => DeviceView::Partition(x.view()),
            Device::MdRaid(x) => DeviceView::MdRaid(x.view()),
            Device::Mpath(x) => DeviceView::Mpath(x.view()),
            Device::VolumeGroup(x) => DeviceView::VolumeGroup(x.view()),
            Device::LogicalVolume(x) => DeviceView::LogicalVolume(x.view()),
            Device::Zpool(x) => DeviceView::Zpool(x.view()),
            Device::Dataset(x) => DeviceView::Dataset(x.view()),
        }
    }
}

impl DeepView for Device {
    type V = DeviceView;

    open spec fn deep_view(&self) -> DeviceView {
        self@
    }
}

impl DeviceView {
    /// What hangs directly below the node.
    pub open spec fn children(self) -> Seq<DeviceView> {
        match self {
            DeviceView::Root(x) => x.children,
            DeviceView::ScsiDevice(x) => x.children,
            DeviceView::Partition(x) => x.children,
            DeviceView::MdRaid(x) => x.children,
            DeviceView::Mpath(x) => x.children,
            DeviceView::VolumeGroup(x) => x.children,
            DeviceView::LogicalVolume(x) => x.children,
            DeviceView::Zpool(x) => x.children,
            DeviceView::Dataset(_) => Seq::empty(),
        }
    }

    /// The node with `c` below it in place of its children. A dataset has
    /// none and stays as it is.
    pub open spec fn with_children(self, c: Seq<DeviceView>) -> DeviceView {
        match self {
            DeviceView::Root(x) => DeviceView::Root(RootView { children: c, ..x }),
            DeviceView::ScsiDevice(x) => DeviceView::ScsiDevice(ScsiDeviceView { children: c, ..x }),
            DeviceView::Partition(x) => DeviceView::Partition(PartitionView { children: c, ..x }),
            DeviceView::MdRaid(x) => DeviceView::MdRaid(MdRaidView { children: c, ..x }),
            DeviceView::Mpath(x) => DeviceView::Mpath(MpathView { children: c, ..x }),
            DeviceView::VolumeGroup(x) => DeviceView::VolumeGroup(VolumeGroupView { children: c, ..x }),
            DeviceView::LogicalVolume(x) => DeviceView::LogicalVolume(LogicalVolumeView { children: c, ..x }),
            DeviceView::Zpool(x) => DeviceView::Zpool(ZpoolView { children: c, ..x }),
            DeviceView::Dataset(x) => DeviceView::Dataset(x),
        }
    }
}

/// A copy of a list of devices.
pub fn clone_devices(v: &Vec<Device>) -> (r: Vec<Device>)
    ensures
        device_views(r@) == device_views(v@),
    decreases v,
{
    let mut r: Vec<Device> = Vec::new();
    let mut i: usize = 0;
    while i < v.len()
        invariant
            i <= v.len(),
            r.len() == i,
            forall|j: int| 0 <= j < i ==> r[j]@ == v[j]@,
        decreases v.len() - i,
    {
        r.push(v[i].clone());
        i += 1;
    }
    assert(device_views(r@) =~= device_views(v@));
    r
}

/// Whether two lists hold equal devices in the same order.
pub fn devices_eq(a: &Vec<Device>, b: &Vec<Device>) -> (r: bool)
    ensures
        r == (device_views(a@) == device_views(b@)),
    decreases a,
{
    if a.len() != b.len() {
        assert(device_views(a@).len() != device_views(b@).len());
        return false;
    }
    let mut i: usize = 0;
    while i < a.len()
        invariant
            i <= a.len(),
            a.len() == b.len(),
            forall|j: int| 0 <= j < i ==> a[j]@ == b[j]@,
        decreases a.len() - i,
    {
        if !a[i].same(&b[i]) {
            assert(device_views(a@)[i as int] == a[i as int]@);
            assert(device_views(b@)[i as int] == b[i as int]@);
            return false;
        }
        i += 1;
    }
    assert(device_views(a@) =~= device_views(b@));
    true
}

/// The node has a child at place `i`.
pub open spec fn has_child(a: DeviceView, i: int) -> bool {
    0 <= i < a.children().len()
}

/// Whether two nodes are the same device with the same devices below it, to
/// any depth, whatever the order of the children and however often one of
/// them occurs: the nodes agree in all but their children, each child of the
/// one is like a child of the other, and each child of the other is like a
/// child of the one.
pub open spec fn alike(a: DeviceView, b: DeviceView) -> bool
    decreases a,
{
    &&& a.with_children(Seq::empty()) == b.with_children(Seq::empty())
    &&& forall|i: int|
        #![trigger has_child(a, i)]
        has_child(a, i) ==> exists|j: int|
            #![trigger b.children()[j]]
            0 <= j < b.children().len() && alike(a.children()[i], b.children()[j])
    &&& forall|j: int|
        #![trigger has_child(b, j)]
        has_child(b, j) ==> exists|i: int|
            #![trigger a.children()[i]]
            0 <= i < a.children().len() && alike(a.children()[i], b.children()[j])
}

/// `x` is like one of `ys`.
pub open spec fn like_one_of(x: DeviceView, ys: Seq<DeviceView>) -> bool {
    exists|j: int| #![trigger ys[j]] 0 <= j < ys.len() && alike(x, ys[j])
}

/// One of `xs` is like `y`.
pub open spec fn one_is_like(xs: Seq<DeviceView>, y: DeviceView) -> bool {
    exists|i: int| #![trigger xs[i]] 0 <= i < xs.len() && alike(xs[i], y)
}

/// Two lists hold the same devices, whatever their order and however often
/// one of them occurs.
pub open spec fn same_members(xs: Seq<DeviceView>, ys: Seq<DeviceView>) -> bool {
    &&& forall|i: int| 0 <= i < xs.len() ==> #[trigger] like_one_of(xs[i], ys)
    &&& forall|j: int| 0 <= j < ys.len() ==> #[trigger] one_is_like(xs, ys[j])
}

proof fn lemma_alike_has_members(a: DeviceView, b: DeviceView)
    requires
        alike(a, b),
    ensures
        a.with_children(Seq::empty()) == b.with_children(Seq::empty()),
        same_members(a.children(), b.children()),
{
    let xs = a.children();
    let ys = b.children();
    assert forall|i: int| 0 <= i < xs.len() implies #[trigger] like_one_of(xs[i], ys) by {
        assert(has_child(a, i));
        let j = choose|j: int| #![trigger ys[j]] 0 <= j < ys.len() && alike(xs[i], ys[j]);
        assert(0 <= j < ys.len() && alike(xs[i], ys[j]));
    }
    assert forall|j: int| 0 <= j < ys.len() implies #[trigger] one_is_like(xs, ys[j]) by {
        assert(has_child(b, j));
        let i = choose|i: int| #![trigger xs[i]] 0 <= i < xs.len() && alike(xs[i], ys[j]);
        assert(0 <= i < xs.len() && alike(xs[i], ys[j]));
    }
}

proof fn lemma_members_make_alike(a: DeviceView, b: DeviceView)
    requires
        a.with_children(Seq::empty()) == b.with_children(Seq::empty()),
        same_members(a.children(), b.children()),
    ensures
        alike(a, b),
{
    let xs = a.children();
    let ys = b.children();
    assert forall|i: int| #![trigger has_child(a, i)] has_child(a, i) implies exists|j: int|
        #![trigger ys[j]]
        0 <= j < ys.len() && alike(xs[i], ys[j]) by {
        assert(like_one_of(xs[i], ys));
    }
    assert forall|j: int| #![trigger has_child(b, j)] has_child(b, j) implies exists|i: int|
        #![trigger xs[i]]
        0 <= i < xs.len() && alike(xs[i], ys[j]) by {
        assert(one_is_like(xs, ys[j]));
    }
}

/// Two nodes are alike exactly if they agree in all but their children and
/// their children are the same devices.
pub proof fn law_alike_by_members(a: DeviceView, b: DeviceView)
    ensures
        alike(a, b) <==> a.with_children(Seq::empty()) == b.with_children(Seq::empty())
            && same_members(a.children(), b.children()),
{
    if alike(a, b) {
        lemma_alike_has_members(a, b);
    }
    if a.with_children(Seq::empty()) == b.with_children(Seq::empty()) && same_members(
        a.children(),
        b.children(),
    ) {
        lemma_members_make_alike(a, b);
    }
}

/// A node is like itself, and so like every node that is equal to it.
pub proof fn law_equal_is_alike(a: DeviceView)
    ensures
        alike(a, a),
    decreases a,
{
    let xs = a.children();
    assert forall|i: int| 0 <= i < xs.len() implies #[trigger] like_one_of(xs[i], xs) by {
        law_equal_is_alike(xs[i]);
    }
    assert forall|j: int| 0 <= j < xs.len() implies #[trigger] one_is_like(xs, xs[j]) by {
        law_equal_is_alike(xs[j]);
    }
    lemma_members_make_alike(a, a);
}

/// Whether two lists hold the same devices, whatever their order and however
/// often one of them occurs.
pub fn devices_alike(a: &Vec<Device>, b: &Vec<Device>) -> (r: bool)
    ensures
        r == same_members(device_views(a@), device_views(b@)),
    decreases a,
{
    let ghost xs = device_views(a@);
    let ghost ys = device_views(b@);
    let mut i: usize = 0;
    while i < a.len()
        invariant
            i <= a.len(),
            xs == device_views(a@),
            ys == device_views(b@),
            forall|k: int| 0 <= k < i ==> #[trigger] like_one_of(xs[k], ys),
        decreases a.len() - i,
    {
        let mut j: usize = 0;
        let mut found = false;
        while j < b.len() && !found
            invariant
                j <= b.len(),
                i < a.len(),
                xs == device_views(a@),
                ys == device_views(b@),
                found ==> like_one_of(xs[i as int], ys),
                !found ==> forall|k: int| #![trigger ys[k]] 0 <= k < j ==> !alike(xs[i as int], ys[k]),
            decreases
                    b.len() - j + if found {
                        0int
                    } else {
                        1int
                    },
        {
            if a[i].alike(&b[j]) {
                assert(alike(xs[i as int], ys[j as int]));
                found = true;
            } else {
                assert(!alike(xs[i as int], ys[j as int]));
                j += 1;
            }
        }
        if !found {
            assert(!like_one_of(xs[i as int], ys));
            return false;
        }
        i += 1;
    }
    let mut j: usize = 0;
    while j < b.len()
        invariant
            j <= b.len(),
            xs == device_views(a@),
            ys == device_views(b@),
            forall|k: int| 0 <= k < j ==> #[trigger] one_is_like(xs, ys[k]),
        decreases b.len() - j,
    {
        let mut i: usize = 0;
        let mut found = false;
        while i < a.len() && !found
            invariant
                i <= a.len(),
                j < b.len(),
                xs == device_views(a@),
                ys == device_views(b@),
                found ==> one_is_like(xs, ys[j as int]),
                !found ==> forall|k: int| #![trigger xs[k]] 0 <= k < i ==> !alike(xs[k], ys[j as int]),
            decreases
                    a.len() - i + if found {
                        0int
                    } else {
                        1int
                    },
        {
            if a[i].alike(&b[j]) {
                assert(alike(xs[i as int], ys[j as int]));
                found = true;
            } else {
                assert(!alike(xs[i as int], ys[j as int]));
                i += 1;
            }
        }
        if !found {
            assert(!one_is_like(xs, ys[j as int]));
            return false;
        }
        j += 1;
    }
    true
}

impl Clone for Root {
    fn clone(&self) -> (r: Self)
        ensures
            r@ == self@,
        decreases self,
    {
        Root {
            children: clone_devices(&self.children),
        }
    }
}

impl Root {
    /// Whether the two are equal, with all that hangs below them.
    pub fn same(&self, other: &Root) -> (r: bool)
        ensures
            r == (self@ == other@),
        decreases self,
    {
        devices_eq(&self.children, &other.children)
    }

    /// Whether the two are the same device with the same devices below it,
    /// whatever the order of the children and however often one occurs.
    pub fn alike(&self, other: &Root) -> (r: bool)
        ensures
            r == alike(DeviceView::Root(self@), DeviceView::Root(other@)),
        decreases self,
    {
        proof {
            law_alike_by_members(DeviceView::Root(self@), DeviceView::Root(other@));
        }
        devices_alike(&self.children, &other.children)
    }
}

impl Clone for ScsiDevice {
    fn clone(&self) -> (r: Self)
        ensures
            r@ == self@,
        decreases self,
    {
        ScsiDevice {
            serial: self.serial.clone(),
            scsi80: clone_opt(&self.scsi80),
            major: self.major.clone(),
            minor: self.minor.clone(),
            devpath: self.devpath.clone(),
            size: self.size,
            filesystem_type: clone_opt(&self.filesystem_type),
            paths: clone_strs(&self.paths),
            mount_path: clone_opt(&self.mount_path),
            children: clone_devices(&self.children),
        }
    }
}

impl ScsiDevice {
    /// Whether the two are equal, with all that hangs below them.
    pub fn same(&self, other: &ScsiDevice) -> (r: bool)
        ensures
            r == (self@ == other@),
        decreases self,
    {
        self.serial == other.serial
            && opt_eq(&self.scsi80, &other.scsi80)
            && self.major == other.major
            && self.minor == other.minor
            && self.devpath == other.devpath
            && self.size == other.size
            && opt_eq(&self.filesystem_type, &other.filesystem_type)
            && strs_eq(&self.paths, &other.paths)
            && opt_eq(&self.mount_path, &other.mount_path)
            && devices_eq(&self.children, &other.children)
    }

    /// Whether the two are the same device with the same devices below it,
    /// whatever the order of the children and however often one occurs.
    pub fn alike(&self, other: &ScsiDevice) -> (r: bool)
        ensures
            r == alike(DeviceView::ScsiDevice(self@), DeviceView::ScsiDevice(other@)),
        decreases self,
    {
        proof {
            law_alike_by_members(DeviceView::ScsiDevice(self@), DeviceView::ScsiDevice(other@));
        }
        self.serial == other.serial
            && opt_eq(&self.scsi80, &other.scsi80)
            && self.major == other.major
            && self.minor == other.minor
            && self.devpath == other.devpath
            && self.size == other.size
            && opt_eq(&self.filesystem_type, &other.filesystem_type)
            && strs_eq(&self.paths, &other.paths)
            && opt_eq(&self.mount_path, &other.mount_path)
            && devices_alike(&self.children, &other.children)
    }
}

impl Clone for Partition {
    fn clone(&self) -> (r: Self)
        ensures
            r@ == self@,
        decreases self,
    {
        Partition {
            partition_number: self.partition_number,
            size: self.size,
            major: self.major.clone(),
            minor: self.minor.clone(),
            devpath: self.devpath.clone(),
            filesystem_type: clone_opt(&self.filesystem_type),
            paths: clone_strs(&self.paths),
            mount_path: clone_opt(&self.mount_path),
            children: clone_devices(&self.children),
        }
    }
}

impl Partition {
    /// Whether the two are equal, with all that hangs below them.
    pub fn same(&self, other: &Partition) -> (r: bool)
        ensures
            r == (self@ == other@),
        decreases self,
    {
        self.partition_number == other.partition_number
            && self.size == other.size
            && self.major == other.major
            && self.minor == other.minor
            && self.devpath == other.devpath
            && opt_eq(&self.filesystem_type, &other.filesystem_type)
            && strs_eq(&self.paths, &other.paths)
            && opt_eq(&self.mount_path, &other.mount_path)
            && devices_eq(&self.children, &other.children)
    }

    /// Whether the two are the same device with the same devices below it,
    /// whatever the order of the children and however often one occurs.
    pub fn alike(&self, other: &Partition) -> (r: bool)
        ensures
            r == alike(DeviceView::Partition(self@), DeviceView::Partition(other@)),
        decreases self,
    {
        proof {
            law_alike_by_members(DeviceView::Partition(self@), DeviceView::Partition(other@));
        }
        self.partition_number == other.partition_number
            && self.size == other.size
            && self.major == other.major
            && self.minor == other.minor
            && self.devpath == other.devpath
            && opt_eq(&self.filesystem_type, &other.filesystem_type)
            && strs_eq(&self.paths, &other.paths)
            && opt_eq(&self.mount_path, &other.mount_path)
            && devices_alike(&self.children, &other.children)
    }
}

impl Clone for MdRaid {
    fn clone(&self) -> (r: Self)
        ensures
            r@ == self@,
        decreases self,
    {
        MdRaid {
            size: self.size,
            major: self.major.clone(),
            minor: self.minor.clone(),
            filesystem_type: clone_opt(&self.filesystem_type),
            paths: clone_strs(&self.paths),
            mount_path: clone_opt(&self.mount_path),
            uuid: self.uuid.clone(),
            children: clone_devices(&self.children),
        }
    }
}

impl MdRaid {
    /// Whether the two are equal, with all that hangs below them.
    pub fn same(&self, other: &MdRaid) -> (r: bool)
        ensures
            r == (self@ == other@),
        decreases self,
    {
        self.size == other.size
            && self.major == other.major
            && self.minor == other.minor
            && opt_eq(&self.filesystem_type, &other.filesystem_type)
            && strs_eq(&self.paths, &other.paths)
            && opt_eq(&self.mount_path, &other.mount_path)
            && self.uuid == other.uuid
            && devices_eq(&self.children, &other.children)
    }

    /// Whether the two are the same device with the same devices below it,
    /// whatever the order of the children and however often one occurs.
    pub fn alike(&self, other: &MdRaid) -> (r: bool)
        ensures
            r == alike(DeviceView::MdRaid(self@), DeviceView::MdRaid(other@)),
        decreases self,
    {
        proof {
            law_alike_by_members(DeviceView::MdRaid(self@), DeviceView::MdRaid(other@));
        }
        self.size == other.size
            && self.major == other.major
            && self.minor == other.minor
            && opt_eq(&self.filesystem_type, &other.filesystem_type)
            && strs_eq(&self.paths, &other.paths)
            && opt_eq(&self.mount_path, &other.mount_path)
            && self.uuid == other.uuid
            && devices_alike(&self.children, &other.children)
    }
}

impl Clone for Mpath {
    fn clone(&self) -> (r: Self)
        ensures
            r@ == self@,
        decreases self,
    {
        Mpath {
            devpath: self.devpath.clone(),
            serial: self.serial.clone(),
            size: self.size,
            major: self.major.clone(),
            minor: self.minor.clone(),
            filesystem_type: clone_opt(&self.filesystem_type),
            paths: clone_strs(&self.paths),
            children: clone_devices(&self.children),
            mount_path: clone_opt(&self.mount_path),
        }
    }
}

impl Mpath {
    /// Whether the two are equal, with all that hangs below them.
    pub fn same(&self, other: &Mpath) -> (r: bool)
        ensures
            r == (self@ == other@),
        decreases self,
    {
        self.devpath == other.devpath
            && self.serial == other.serial
            && self.size == other.size
            && self.major == other.major
            && self.minor == other.minor
            && opt_eq(&self.filesystem_type, &other.filesystem_type)
            && strs_eq(&self.paths, &other.paths)
            && devices_eq(&self.children, &other.children)
            && opt_eq(&self.mount_path, &other.mount_path)
    }

    /// Whether the two are the same device with the same devices below it,
    /// whatever the order of the children and however often one occurs.
    pub fn alike(&self, other: &Mpath) -> (r: bool)
        ensures
            r == alike(DeviceView::Mpath(self@), DeviceView::Mpath(other@)),
        decreases self,
    {
        proof {
            law_alike_by_members(DeviceView::Mpath(self@), DeviceView::Mpath(other@));
        }
        self.devpath == other.devpath
            && self.serial == other.serial
            && self.size == other.size
            && self.major == other.major
            && self.minor == other.minor
            && opt_eq(&self.filesystem_type, &other.filesystem_type)
            && strs_eq(&self.paths, &other.paths)
            && devices_alike(&self.children, &other.children)
            && opt_eq(&self.mount_path, &other.mount_path)
    }
}

impl Clone for VolumeGroup {
    fn clone(&self) -> (r: Self)
        ensures
            r@ == self@,
        decreases self,
    {
        VolumeGroup {
            name: self.name.clone(),
            uuid: self.uuid.clone(),
            size: self.size,
            children: clone_devices(&self.children),
        }
    }
}

impl VolumeGroup {
    /// Whether the two are equal, with all that hangs below them.
    pub fn same(&self, other: &VolumeGroup) -> (r: bool)
        ensures
            r == (self@ == other@),
        decreases self,
    {
        self.name == other.name
            && self.uuid == other.uuid
            && self.size == other.size
            && devices_eq(&self.children, &other.children)
    }

    /// Whether the two are the same device with the same devices below it,
    /// whatever the order of the children and however often one occurs.
    pub fn alike(&self, other: &VolumeGroup) -> (r: bool)
        ensures
            r == alike(DeviceView::VolumeGroup(self@), DeviceView::VolumeGroup(other@)),
        decreases self,
    {
        proof {
            law_alike_by_members(DeviceView::VolumeGroup(self@), DeviceView::VolumeGroup(other@));
        }
        self.name == other.name
            && self.uuid == other.uuid
            && self.size == other.size
            && devices_alike(&self.children, &other.children)
    }
}

impl Clone for LogicalVolume {
    fn clone(&self) -> (r: Self)
        ensures
            r@ == self@,
        decreases self,
    {
        LogicalVolume {
            name: self.name.clone(),
            uuid: self.uuid.clone(),
            major: self.major.clone(),
            minor: self.minor.clone(),
            size: self.size,
            children: clone_devices(&self.children),
            devpath: self.devpath.clone(),
            paths: clone_strs(&self.paths),
            filesystem_type: clone_opt(&self.filesystem_type),
            mount_path: clone_opt(&self.mount_path),
        }
    }
}

impl LogicalVolume {
    /// Whether the two are equal, with all that hangs below them.
    pub fn same(&self, other: &LogicalVolume) -> (r: bool)
        ensures
            r == (self@ == other@),
        decreases self,
    {
        self.name == other.name
            && self.uuid == other.uuid
            && self.major == other.major
            && self.minor == other.minor
            && self.size == other.size
            && devices_eq(&self.children, &other.children)
            && self.devpath == other.devpath
            && strs_eq(&self.paths, &other.paths)
            && opt_eq(&self.filesystem_type, &other.filesystem_type)
            && opt_eq(&self.mount_path, &other.mount_path)
    }

    /// Whether the two are the same device with the same devices below it,
    /// whatever the order of the children and however often one occurs.
    pub fn alike(&self, other: &LogicalVolume) -> (r: bool)
        ensures
            r == alike(DeviceView::LogicalVolume(self@), DeviceView::LogicalVolume(other@)),
        decreases self,
    {
        proof {
            law_alike_by_members(DeviceView::LogicalVolume(self@), DeviceView::LogicalVolume(other@));
        }
        self.name == other.name
            && self.uuid == other.uuid
            && self.major == other.major
            && self.minor == other.minor
            && self.size == other.size
            && devices_alike(&self.children, &other.children)
            && self.devpath == other.devpath
            && strs_eq(&self.paths, &other.paths)
            && opt_eq(&self.filesystem_type, &other.filesystem_type)
            && opt_eq(&self.mount_path, &other.mount_path)
    }
}

impl Clone for Zpool {
    fn clone(&self) -> (r: Self)
        ensures
            r@ == self@,
        decreases self,
    {
        Zpool {
            guid: self.guid,
            name: self.name.clone(),
            health: self.health.clone(),
            state: self.state.clone(),
            size: self.size,
            vdev: self.vdev.clone(),
            props: clone_props(&self.props),
            filesystem_type: clone_opt(&self.filesystem_type),
            mount_path: clone_opt(&self.mount_path),
            children: clone_devices(&self.children),
        }
    }
}

impl Zpool {
    /// Whether the two are equal, with all that hangs below them.
    pub fn same(&self, other: &Zpool) -> (r: bool)
        ensures
            r == (self@ == other@),
        decreases self,
    {
        self.guid == other.guid
            && self.name == other.name
            && self.health == other.health
            && self.state == other.state
            && self.size == other.size
            && self.vdev.same(&other.vdev)
            && props_eq(&self.props, &other.props)
            && opt_eq(&self.filesystem_type, &other.filesystem_type)
            && opt_eq(&self.mount_path, &other.mount_path)
            && devices_eq(&self.children, &other.children)
    }

    /// Whether the two are the same device with the same devices below it,
    /// whatever the order of the children and however often one occurs.
    pub fn alike(&self, other: &Zpool) -> (r: bool)
        ensures
            r == alike(DeviceView::Zpool(self@), DeviceView::Zpool(other@)),
        decreases self,
    {
        proof {
            law_alike_by_members(DeviceView::Zpool(self@), DeviceView::Zpool(other@));
        }
        self.guid == other.guid
            && self.name == other.name
            && self.health == other.health
            && self.state == other.state
            && self.size == other.size
            && self.vdev.same(&other.vdev)
            && props_eq(&self.props, &other.props)
            && opt_eq(&self.filesystem_type, &other.filesystem_type)
            && opt_eq(&self.mount_path, &other.mount_path)
            && devices_alike(&self.children, &other.children)
    }
}

impl Clone for Dataset {
    fn clone(&self) -> (r: Self)
        ensures
            r@ == self@,
    {
        Dataset {
            pool_guid: self.pool_guid,
            guid: self.guid.clone(),
            name: self.name.clone(),
            kind: self.kind.clone(),
            props: clone_props(&self.props),
            filesystem_type: clone_opt(&self.filesystem_type),
            mount_path: clone_opt(&self.mount_path),
        }
    }
}

impl Dataset {
    /// Whether the two are equal, with all that hangs below them.
    pub fn same(&self, other: &Dataset) -> (r: bool)
        ensures
            r == (self@ == other@),
    {
        self.pool_guid == other.pool_guid
            && self.guid == other.guid
            && self.name == other.name
            && self.kind == other.kind
            && props_eq(&self.props, &other.props)
            && opt_eq(&self.filesystem_type, &other.filesystem_type)
            && opt_eq(&self.mount_path, &other.mount_path)
    }

    /// Whether the two are the same device with the same devices below it,
    /// whatever the order of the children and however often one occurs.
    pub fn alike(&self, other: &Dataset) -> (r: bool)
        ensures
            r == alike(DeviceView::Dataset(self@), DeviceView::Dataset(other@)),
    {
        proof {
            law_alike_by_members(DeviceView::Dataset(self@), DeviceView::Dataset(other@));
        }
        self.same(other)
    }
}

impl Clone for Device {
    fn clone(&self) -> (r: Self)
        ensures
            r@ == self@,
        decreases self,
    {
        match self {
            Device::Root(x) => Device::Root(x.clone()),
            Device::ScsiDevice(x) => Device::ScsiDevice(x.clone()),
            Device::Partition(x) => Device::Partition(x.clone()),
            Device::MdRaid(x) => Device::MdRaid(x.clone()),
            Device::Mpath(x) => Device::Mpath(x.clone()),
            Device::VolumeGroup(x) => Device::VolumeGroup(x.clone()),
            Device::LogicalVolume(x) => Device::LogicalVolume(x.clone()),
            Device::Zpool(x) => Device::Zpool(x.clone()),
            Device::Dataset(x) => Device::Dataset(x.clone()),
        }
    }
}

impl Device {
    /// Whether two nodes are equal, with all that hangs below them.
    pub fn same(&self, other: &Device) -> (r: bool)
        ensures
            r == (self@ == other@),
        decreases self,
    {
        match (self, other) {
            (Device::Root(a), Device::Root(b)) => a.same(b),
            (Device::ScsiDevice(a), Device::ScsiDevice(b)) => a.same(b),
            (Device::Partition(a), Device::Partition(b)) => a.same(b),
            (Device::MdRaid(a), Device::MdRaid(b)) => a.same(b),
            (Device::Mpath(a), Device::Mpath(b)) => a.same(b),
            (Device::VolumeGroup(a), Device::VolumeGroup(b)) => a.same(b),
            (Device::LogicalVolume(a), Device::LogicalVolume(b)) => a.same(b),
            (Device::Zpool(a), Device::Zpool(b)) => a.same(b),
            (Device::Dataset(a), Device::Dataset(b)) => a.same(b),
            _ => false,
        }
    }

    /// Whether two nodes are the same device with the same devices below
    /// it, whatever the order of the children and however often one occurs.
    pub fn alike(&self, other: &Device) -> (r: bool)
        ensures
            r == alike(self@, other@),
        decreases self,
    {
        proof {
            law_alike_by_members(self@, other@);
        }
        match (self, other) {
            (Device::Root(a), Device::Root(b)) => a.alike(b),
            (Device::ScsiDevice(a), Device::ScsiDevice(b)) => a.alike(b),
            (Device::Partition(a), Device::Partition(b)) => a.alike(b),
            (Device::MdRaid(a), Device::MdRaid(b)) => a.alike(b),
            (Device::Mpath(a), Device::Mpath(b)) => a.alike(b),
            (Device::VolumeGroup(a), Device::VolumeGroup(b)) => a.alike(b),
            (Device::LogicalVolume(a), Device::LogicalVolume(b)) => a.alike(b),
            (Device::Zpool(a), Device::Zpool(b)) => a.alike(b),
            (Device::Dataset(a), Device::Dataset(b)) => a.alike(b),
            _ => false,
        }
    }
}

impl Default for Root {
    fn default() -> (r: Self)
        ensures
            r@.children == Seq::<DeviceView>::empty(),
    {
        let r = Root { children: Vec::new() };
        assert(r@.children =~= Seq::<DeviceView>::empty());
        r
    }
}

} // verus!
