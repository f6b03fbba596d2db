//! The devices of a host as the aggregator sees them: a flat set of nodes,
//! each of which names the nodes it is layered on by their type and serial.

use crate::text::{clone_opt, clone_strs};
use vstd::prelude::*;
use vstd::string::*;

verus! {

/// The kinds of node in a device graph.
#[derive(Debug, Clone, Copy, PartialEq, Eq, Hash, PartialOrd, Ord, Structural)]
pub enum DeviceType {
    Host,
    ScsiDevice,
    Partition,
    MdRaid,
    Mpath,
    VolumeGroup,
    LogicalVolume,
    Zpool,
    Dataset,
}

impl View for DeviceType {
    type V = DeviceType;

    open spec fn view(&self) -> DeviceType {
        *self
    }
}

impl DeepView for DeviceType {
    type V = DeviceType;

    open spec fn deep_view(&self) -> DeviceType {
        *self
    }
}

/// The name of each kind of node, as records carry it.
pub open spec fn kind_name(t: DeviceType) -> Seq<char> {
    match t {
        DeviceType::Host => "host"@,
        DeviceType::ScsiDevice => "scsi"@,
        DeviceType::Partition => "partition"@,
        DeviceType::MdRaid => "mdraid"@,
        DeviceType::Mpath => "mpath"@,
        DeviceType::VolumeGroup => "volume group"@,
        DeviceType::LogicalVolume => "logical volume"@,
        DeviceType::Zpool => "zpool"@,
        DeviceType::Dataset => "dataset"@,
    }
}

impl DeviceType {
    /// The name of the kind.
    pub fn to_string(&self) -> (r: String)
        ensures
            r@ == kind_name(*self),
    {
        match self {
            DeviceType::Host => String::from_str("host"),
            DeviceType::ScsiDevice => String::from_str("scsi"),
            DeviceType::Partition => String::from_str("partition"),
            DeviceType::MdRaid => String::from_str("mdraid"),
            DeviceType::Mpath => String::from_str("mpath"),
            DeviceType::VolumeGroup => String::from_str("volume group"),
            DeviceType::LogicalVolume => String::from_str("logical volume"),
            DeviceType::Zpool => String::from_str("zpool"),
            DeviceType::Dataset => String::from_str("dataset"),
        }
    }
}

/// The serial of a device: for a pool its GUID as text.
#[derive(Debug, PartialEq, Eq, Hash, PartialOrd, Ord)]
pub struct Serial(pub String);

impl View for Serial {
    type V = Seq<char>;

    open spec fn view(&self) -> Seq<char> {
        self.0@
    }
}

impl DeepView for Serial {
    type V = Seq<char>;

    open spec fn deep_view(&self) -> Seq<char> {
        self.0@
    }
}

impl Clone for Serial {
    fn clone(&self) -> (r: Self)
        ensures
            r == *self,
    {
        Serial(self.0.clone())
    }
}

impl Serial {
    /// The text of the serial.
    pub fn to_string(&self) -> (r: String)
        ensures
            r@ == self@,
    {
        self.0.clone()
    }
}

/// What identifies a device across hosts: its type and its serial. A node
/// names the nodes it is layered on by this pair.
pub type Parent = (DeviceType, Serial);

/// The mathematical value of a [`Parent`].
pub type ParentView = (DeviceType, Seq<char>);

/// A copy of a parent key.
pub fn clone_parent(p: &Parent) -> (r: Parent)
    ensures
        r.deep_view() == p.deep_view(),
{
    (p.0, p.1.clone())
}

/// A copy of a list of parent keys.
pub fn clone_parents(v: &Vec<Parent>) -> (r: Vec<Parent>)
    ensures
        r.deep_view() == v.deep_view(),
{
    let mut r: Vec<Parent> = Vec::new();
    let mut i: usize = 0;
    while i < v.len()
        invariant
            i <= v.len(),
            r.len() == i,
            forall|j: int| 0 <= j < i ==> r[j].deep_view() == v[j].deep_view(),
        decreases v.len() - i,
    {
        r.push(clone_parent(&v[i]));
        i += 1;
    }
    assert(r.deep_view() =~= v.deep_view());
    r
}

/// Whether `p` is among `xs`.
pub fn contains_parent(xs: &Vec<Parent>, p: &Parent) -> (r: bool)
    ensures
        r == xs.deep_view().contains(p.deep_view()),
{
    let mut i: usize = 0;
    while i < xs.len()
        invariant
            i <= xs.len(),
            forall|j: int| 0 <= j < i ==> xs[j].deep_view() != p.deep_view(),
        decreases xs.len() - i,
    {
        if xs[i].0 == p.0 && xs[i].1.0 == p.1.0 {
            assert(xs.deep_view()[i as int] == p.deep_view());
            return true;
        }
        i += 1;
    }
    assert forall|j: int| 0 <= j < xs.deep_view().len() implies xs.deep_view()[j]
        != p.deep_view() by {
        assert(xs.deep_view()[j] == xs[j].deep_view());
    }
    false
}

/// A host, by its name.
#[derive(Debug, PartialEq, Eq, Hash, PartialOrd, Ord)]
pub struct Host(pub String);

impl View for Host {
    type V = Seq<char>;

    open spec fn view(&self) -> Seq<char> {
        self.0@
    }
}

impl DeepView for Host {
    type V = Seq<char>;

    open spec fn deep_view(&self) -> Seq<char> {
        self.0@
    }
}

impl Clone for Host {
    fn clone(&self) -> (r: Self)
        ensures
            r == *self,
    {
        Host(self.0.clone())
    }
}

/// A disk as the SCSI layer presents it. Its parents are the hosts that see it.
#[derive(Debug, PartialEq, Eq, Hash)]
pub struct ScsiDevice {
    pub serial: Serial,
    pub size: i64,
    pub filesystem_type: Option<String>,
    pub paths: Vec<String>,
    pub mount_path: Option<String>,
}

/// The mathematical value of a [`ScsiDevice`].
pub ghost struct ScsiDeviceView {
    pub serial: Seq<char>,
    pub size: i64,
    pub filesystem_type: Option<Seq<char>>,
    pub paths: Seq<Seq<char>>,
    pub mount_path: Option<Seq<char>>,
}

impl View for ScsiDevice {
    type V = ScsiDeviceView;

    open spec fn view(&self) -> ScsiDeviceView {
        ScsiDeviceView {
            serial: self.serial@,
            size: self.size,
            filesystem_type: self.filesystem_type.deep_view(),
            paths: self.paths.deep_view(),
            mount_path: self.mount_path.deep_view(),
        }
    }
}

impl Clone for ScsiDevice {
    fn clone(&self) -> (r: Self)
        ensures
            r@ == self@,
    {
        ScsiDevice {
            serial: self.serial.clone(),
            size: self.size,
            filesystem_type: clone_opt(&self.filesystem_type),
            paths: clone_strs(&self.paths),
            mount_path: clone_opt(&self.mount_path),
        }
    }
}

impl ScsiDeviceView {
    /// The value with nothing set: no text, no paths, size zero.
    pub open spec fn empty() -> ScsiDeviceView {
        ScsiDeviceView {
            serial: Seq::empty(),
            size: 0,
            filesystem_type: None,
            paths: Seq::empty(),
            mount_path: None,
        }
    }
}

impl Default for ScsiDevice {
    fn default() -> (r: Self)
        ensures
            r@ == ScsiDeviceView::empty(),
    {
        let r = ScsiDevice {
            serial: Serial(String::new()),
            size: 0,
            filesystem_type: None,
            paths: Vec::new(),
            mount_path: None,
        };
        assert(r@.paths =~= Seq::empty());
        r
    }
}

impl ScsiDevice {
    /// The key under which other nodes name this one as their parent.
    pub fn as_parent(&self) -> (p: Parent)
        ensures
            p.deep_view() == (DeviceType::ScsiDevice, self@.serial),
    {
        (DeviceType::ScsiDevice, self.serial.clone())
    }
}

/// A partition of a block device.
#[derive(Debug, PartialEq, Eq, Hash)]
pub struct Partition {
    pub serial: Serial,
    pub partition_number: i64,
    pub size: i64,
    pub filesystem_type: Option<String>,
    pub paths: Vec<String>,
    pub mount_path: Option<String>,
    pub parents: Vec<Parent>,
}

/// The mathematical value of a [`Partition`].
pub ghost struct PartitionView {
    pub serial: Seq<char>,
    pub partition_number: i64,
    pub size: i64,
    pub filesystem_type: Option<Seq<char>>,
    pub paths: Seq<Seq<char>>,
    pub mount_path: Option<Seq<char>>,
    pub parents: Seq<ParentView>,
}

impl View for Partition {
    type V = PartitionView;

    open spec fn view(&self) -> PartitionView {
        PartitionView {
            serial: self.serial@,
            partition_number: self.partition_number,
            size: self.size,
            filesystem_type: self.filesystem_type.deep_view(),
            paths: self.paths.deep_view(),
            mount_path: self.mount_path.deep_view(),
            parents: self.parents.deep_view(),
        }
    }
}

impl Clone for Partition {
    fn clone(&self) -> (r: Self)
        ensures
            r@ == self@,
    {
        Partition {
            serial: self.serial.clone(),
            partition_number: self.partition_number,
            size: self.size,
            filesystem_type: clone_opt(&self.filesystem_type),
            paths: clone_strs(&self.paths),
            mount_path: clone_opt(&self.mount_path),
            parents: clone_parents(&self.parents),
        }
    }
}

impl PartitionView {
    /// The value with nothing set: no text, no paths, size zero.
    pub open spec fn empty() -> PartitionView {
        PartitionView {
            serial: Seq::empty(),
            partition_number: 0,
            size: 0,
            filesystem_type: None,
            paths: Seq::empty(),
            mount_path: None,
            parents: Seq::empty(),
        }
    }
}

impl Default for Partition {
    fn default() -> (r: Self)
        ensures
            r@ == PartitionView::empty(),
    {
        let r = Partition {
            serial: Serial(String::new()),
            partition_number: 0,
            size: 0,
            filesystem_type: None,
            paths: Vec::new(),
            mount_path: None,
            parents: Vec::new(),
        };
        assert(r@.paths =~= Seq::empty());
        assert(r@.parents =~= Seq::empty());
        r
    }
}

impl Partition {
    /// The key under which other nodes name this one as their parent.
    pub fn as_parent(&self) -> (p: Parent)
        ensures
            p.deep_view() == (DeviceType::Partition, self@.serial),
    {
        (DeviceType::Partition, self.serial.clone())
    }
}

/// A software RAID array.
#[derive(Debug, PartialEq, Eq, Hash)]
pub struct MdRaid {
    pub serial: Serial,
    pub size: i64,
    pub filesystem_type: Option<String>,
    pub paths: Vec<String>,
    pub mount_path: Option<String>,
    pub parents: Vec<Parent>,
}

/// The mathematical value of a [`MdRaid`].
pub ghost struct MdRaidView {
    pub serial: Seq<char>,
    pub size: i64,
    pub filesystem_type: Option<Seq<char>>,
    pub paths: Seq<Seq<char>>,
    pub mount_path: Option<Seq<char>>,
    pub parents: Seq<ParentView>,
}

impl View for MdRaid {
    type V = MdRaidView;

    open spec fn view(&self) -> MdRaidView {
        MdRaidView {
            serial: self.serial@,
            size: self.size,
            filesystem_type: self.filesystem_type.deep_view(),
            paths: self.paths.deep_view(),
            mount_path: self.mount_path.deep_view(),
            parents: self.parents.deep_view(),
        }
    }
}

impl Clone for MdRaid {
    fn clone(&self) -> (r: Self)
        ensures
            r@ == self@,
    {
        MdRaid {
            serial: self.serial.clone(),
            size: self.size,
            filesystem_type: clone_opt(&self.filesystem_type),
            paths: clone_strs(&self.paths),
            mount_path: clone_opt(&self.mount_path),
            parents: clone_parents(&self.parents),
        }
    }
}

impl MdRaidView {
    /// The value with nothing set: no text, no paths, size zero.
    pub open spec fn empty() -> MdRaidView {
        MdRaidView {
            serial: Seq::empty(),
            size: 0,
            filesystem_type: None,
            paths: Seq::empty(),
            mount_path: None,
            parents: Seq::empty(),
        }
    }
}

impl Default for MdRaid {
    fn default() -> (r: Self)
        ensures
            r@ == MdRaidView::empty(),
    {
        let r = MdRaid {
            serial: Serial(String::new()),
            size: 0,
            filesystem_type: None,
            paths: Vec::new(),
            mount_path: None,
            parents: Vec::new(),
        };
        assert(r@.paths =~= Seq::empty());
        assert(r@.parents =~= Seq::empty());
        r
    }
}

impl MdRaid {
    /// The key under which other nodes name this one as their parent.
    pub fn as_parent(&self) -> (p: Parent)
        ensures
            p.deep_view() == (DeviceType::MdRaid, self@.serial),
    {
        (DeviceType::MdRaid, self.serial.clone())
    }
}

/// A multipath device.
#[derive(Debug, PartialEq, Eq, Hash)]
pub struct Mpath {
    pub serial: Serial,
    pub size: i64,
    pub filesystem_type: Option<String>,
    pub paths: Vec<String>,
    pub mount_path: Option<String>,
    pub parents: Vec<Parent>,
}

/// The mathematical value of a [`Mpath`].
pub ghost struct MpathView {
    pub serial: Seq<char>,
    pub size: i64,
    pub filesystem_type: Option<Seq<char>>,
    pub paths: Seq<Seq<char>>,
    pub mount_path: Option<Seq<char>>,
    pub parents: Seq<ParentView>,
}

impl View for Mpath {
    type V = MpathView;

    open spec fn view(&self) -> MpathView {
        MpathView {
            serial: self.serial@,
            size: self.size,
            filesystem_type: self.filesystem_type.deep_view(),
            paths: self.paths.deep_view(),
            mount_path: self.mount_path.deep_view(),
            parents: self.parents.deep_view(),
        }
    }
}

impl Clone for Mpath {
    fn clone(&self) -> (r: Self)
        ensures
            r@ == self@,
    {
        Mpath {
            serial: self.serial.clone(),
            size: self.size,
            filesystem_type: clone_opt(&self.filesystem_type),
            paths: clone_strs(&self.paths),
            mount_path: clone_opt(&self.mount_path),
            parents: clone_parents(&self.parents),
        }
    }
}

impl MpathView {
    /// The value with nothing set: no text, no paths, size zero.
    pub open spec fn empty() -> MpathView {
        MpathView {
            serial: Seq::empty(),
            size: 0,
            filesystem_type: None,
            paths: Seq::empty(),
            mount_path: None,
            parents: Seq::empty(),
        }
    }
}

impl Default for Mpath {
    fn default() -> (r: Self)
        ensures
            r@ == MpathView::empty(),
    {
        let r = Mpath {
            serial: Serial(String::new()),
            size: 0,
            filesystem_type: None,
            paths: Vec::new(),
            mount_path: None,
            parents: Vec::new(),
        };
        assert(r@.paths =~= Seq::empty());
        assert(r@.parents =~= Seq::empty());
        r
    }
}

impl Mpath {
    /// The key under which other nodes name this one as their parent.
    pub fn as_parent(&self) -> (p: Parent)
        ensures
            p.deep_view() == (DeviceType::Mpath, self@.serial),
    {
        (DeviceType::Mpath, self.serial.clone())
    }
}

/// An LVM volume group.
#[derive(Debug, PartialEq, Eq, Hash)]
pub struct VolumeGroup {
    pub serial: Serial,
    pub name: String,
    pub size: i64,
    pub parents: Vec<Parent>,
}

/// The mathematical value of a [`VolumeGroup`].
pub ghost struct VolumeGroupView {
    pub serial: Seq<char>,
    pub name: Seq<char>,
    pub size: i64,
    pub parents: Seq<ParentView>,
}

impl View for VolumeGroup {
    type V = VolumeGroupView;

    open spec fn view(&self) -> VolumeGroupView {
        VolumeGroupView {
            serial: self.serial@,
            name: self.name@,
            size: self.size,
            parents: self.parents.deep_view(),
        }
    }
}

impl Clone for VolumeGroup {
    fn clone(&self) -> (r: Self)
        ensures
            r@ == self@,
    {
        VolumeGroup {
            serial: self.serial.clone(),
            name: self.name.clone(),
            size: self.size,
            parents: clone_parents(&self.parents),
        }
    }
}

impl VolumeGroupView {
    /// The value with nothing set: no text, no paths, size zero.
    pub open spec fn empty() -> VolumeGroupView {
        VolumeGroupView {
            serial: Seq::empty(),
            name: Seq::empty(),
            size: 0,
            parents: Seq::empty(),
        }
    }
}

impl Default for VolumeGroup {
    fn default() -> (r: Self)
        ensures
            r@ == VolumeGroupView::empty(),
    {
        let r = VolumeGroup {
            serial: Serial(String::new()),
            name: String::new(),
            size: 0,
            parents: Vec::new(),
        };
        assert(r@.parents =~= Seq::empty());
        r
    }
}

impl VolumeGroup {
    /// The key under which other nodes name this one as their parent.
    pub fn as_parent(&self) -> (p: Parent)
        ensures
            p.deep_view() == (DeviceType::VolumeGroup, self@.serial),
    {
        (DeviceType::VolumeGroup, self.serial.clone())
    }
}

/// An LVM logical volume. Its one parent is its volume group.
#[derive(Debug, PartialEq, Eq, Hash)]
pub struct LogicalVolume {
    pub serial: Serial,
    pub name: String,
    pub size: i64,
    pub parent: Parent,
    pub filesystem_type: Option<String>,
    pub paths: Vec<String>,
    pub mount_path: Option<String>,
}

/// The mathematical value of a [`LogicalVolume`].
pub ghost struct LogicalVolumeView {
    pub serial: Seq<char>,
    pub name: Seq<char>,
    pub size: i64,
    pub parent: ParentView,
    pub filesystem_type: Option<Seq<char>>,
    pub paths: Seq<Seq<char>>,
    pub mount_path: Option<Seq<char>>,
}

impl View for LogicalVolume {
    type V = LogicalVolumeView;

    open spec fn view(&self) -> LogicalVolumeView {
        LogicalVolumeView {
            serial: self.serial@,
            name: self.name@,
            size: self.size,
            parent: self.parent.deep_view(),
            filesystem_type: self.filesystem_type.deep_view(),
            paths: self.paths.deep_view(),
            mount_path: self.mount_path.deep_view(),
        }
    }
}

impl Clone for LogicalVolume {
    fn clone(&self) -> (r: Self)
        ensures
            r@ == self@,
    {
        LogicalVolume {
            serial: self.serial.clone(),
            name: self.name.clone(),
            size: self.size,
            parent: clone_parent(&self.parent),
            filesystem_type: clone_opt(&self.filesystem_type),
            paths: clone_strs(&self.paths),
            mount_path: clone_opt(&self.mount_path),
        }
    }
}

impl LogicalVolumeView {
    /// The value with nothing set: no text, no paths, size zero.
    pub open spec fn empty() -> LogicalVolumeView {
        LogicalVolumeView {
            serial: Seq::empty(),
            name: Seq::empty(),
            size: 0,
            parent: (DeviceType::VolumeGroup, Seq::empty()),
            filesystem_type: None,
            paths: Seq::empty(),
            mount_path: None,
        }
    }
}

impl Default for LogicalVolume {
    fn default() -> (r: Self)
        ensures
            r@ == LogicalVolumeView::empty(),
    {
        let r = LogicalVolume {
            serial: Serial(String::new()),
            name: String::new(),
            size: 0,
            parent: (DeviceType::VolumeGroup, Serial(String::new())),
            filesystem_type: None,
            paths: Vec::new(),
            mount_path: None,
        };
        assert(r@.paths =~= Seq::empty());
        r
    }
}

impl LogicalVolume {
    /// The key under which other nodes name this one as their parent.
    pub fn as_parent(&self) -> (p: Parent)
        ensures
            p.deep_view() == (DeviceType::LogicalVolume, self@.serial),
    {
        (DeviceType::LogicalVolume, self.serial.clone())
    }
}

/// A ZFS pool. Its serial is its GUID as text.
#[derive(Debug, PartialEq, Eq, Hash)]
pub struct Zpool {
    pub serial: Serial,
    pub name: String,
    pub size: i64,
    pub filesystem_type: Option<String>,
    pub paths: Vec<String>,
    pub mount_path: Option<String>,
    pub parents: Vec<Parent>,
}

/// The mathematical value of a [`Zpool`].
pub ghost struct ZpoolView {
    pub serial: Seq<char>,
    pub name: Seq<char>,
    pub size: i64,
    pub filesystem_type: Option<Seq<char>>,
    pub paths: Seq<Seq<char>>,
    pub mount_path: Option<Seq<char>>,
    pub parents: Seq<ParentView>,
}

impl View for Zpool {
    type V = ZpoolView;

    open spec fn view(&self) -> ZpoolView {
        ZpoolView {
            serial: self.serial@,
            name: self.name@,
            size: self.size,
            filesystem_type: self.filesystem_type.deep_view(),
            paths: self.paths.deep_view(),
            mount_path: self.mount_path.deep_view(),
            parents: self.parents.deep_view(),
        }
    }
}

impl Clone for Zpool {
    fn clone(&self) -> (r: Self)
        ensures
            r@ == self@,
    {
        Zpool {
            serial: self.serial.clone(),
            name: self.name.clone(),
            size: self.size,
            filesystem_type: clone_opt(&self.filesystem_type),
            paths: clone_strs(&self.paths),
            mount_path: clone_opt(&self.mount_path),
            parents: clone_parents(&self.parents),
        }
    }
}

impl ZpoolView {
    /// The value with nothing set: no text, no paths, size zero.
    pub open spec fn empty() -> ZpoolView {
        ZpoolView {
            serial: Seq::empty(),
            name: Seq::empty(),
            size: 0,
            filesystem_type: None,
            paths: Seq::empty(),
            mount_path: None,
            parents: Seq::empty(),
        }
    }
}

impl Default for Zpool {
    fn default() -> (r: Self)
        ensures
            r@ == ZpoolView::empty(),
    {
        let r = Zpool {
            serial: Serial(String::new()),
            name: String::new(),
            size: 0,
            filesystem_type: None,
            paths: Vec::new(),
            mount_path: None,
            parents: Vec::new(),
        };
        assert(r@.paths =~= Seq::empty());
        assert(r@.parents =~= Seq::empty());
        r
    }
}

impl Zpool {
    /// The key under which other nodes name this one as their parent.
    pub fn as_parent(&self) -> (p: Parent)
        ensures
            p.deep_view() == (DeviceType::Zpool, self@.serial),
    {
        (DeviceType::Zpool, self.serial.clone())
    }
}

/// A dataset of the pool whose serial is `pool_serial`.
#[derive(Debug, PartialEq, Eq, Hash)]
pub struct Dataset {
    pub serial: Serial,
    pub pool_serial: Serial,
    pub name: String,
    pub size: i64,
    pub filesystem_type: Option<String>,
    pub paths: Vec<String>,
    pub mount_path: Option<String>,
}

/// The mathematical value of a [`Dataset`].
pub ghost struct DatasetView {
    pub serial: Seq<char>,
    pub pool_serial: Seq<char>,
    pub name: Seq<char>,
    pub size: i64,
    pub filesystem_type: Option<Seq<char>>,
    pub paths: Seq<Seq<char>>,
    pub mount_path: Option<Seq<char>>,
}

impl View for Dataset {
    type V = DatasetView;

    open spec fn view(&self) -> DatasetView {
        DatasetView {
            serial: self.serial@,
            pool_serial: self.pool_serial@,
            name: self.name@,
            size: self.size,
            filesystem_type: self.filesystem_type.deep_view(),
            paths: self.paths.deep_view(),
            mount_path: self.mount_path.deep_view(),
        }
    }
}

impl Clone for Dataset {
    fn clone(&self) -> (r: Self)
        ensures
            r@ == self@,
    {
        Dataset {
            serial: self.serial.clone(),
            pool_serial: self.pool_serial.clone(),
            name: self.name.clone(),
            size: self.size,
            filesystem_type: clone_opt(&self.filesystem_type),
            paths: clone_strs(&self.paths),
            mount_path: clone_opt(&self.mount_path),
        }
    }
}

impl DatasetView {
    /// The value with nothing set: no text, no paths, size zero.
    pub open spec fn empty() -> DatasetView {
        DatasetView {
            serial: Seq::empty(),
            pool_serial: Seq::empty(),
            name: Seq::empty(),
            size: 0,
            filesystem_type: None,
            paths: Seq::empty(),
            mount_path: None,
        }
    }
}

impl Default for Dataset {
    fn default() -> (r: Self)
        ensures
            r@ == DatasetView::empty(),
    {
        let r = Dataset {
            serial: Serial(String::new()),
            pool_serial: Serial(String::new()),
            name: String::new(),
            size: 0,
            filesystem_type: None,
            paths: Vec::new(),
            mount_path: None,
        };
        assert(r@.paths =~= Seq::empty());
        r
    }
}

impl Dataset {
    /// The key under which other nodes name this one as their parent.
    pub fn as_parent(&self) -> (p: Parent)
        ensures
            p.deep_view() == (DeviceType::Dataset, self@.serial),
    {
        (DeviceType::Dataset, self.serial.clone())
    }
}

/// A node of the aggregator's graph.
#[derive(Debug, PartialEq, Eq, Hash)]
pub enum Device {
    Host(Host),
    ScsiDevice(ScsiDevice),
    Partition(Partition),
    MdRaid(MdRaid),
    Mpath(Mpath),
    VolumeGroup(VolumeGroup),
    LogicalVolume(LogicalVolume),
    Zpool(Zpool),
    Dataset(Dataset),
}

/// The mathematical value of a [`Device`].
pub ghost enum DeviceView {
    Host(Seq<char>),
    ScsiDevice(ScsiDeviceView),
    Partition(PartitionView),
    MdRaid(MdRaidView),
    Mpath(MpathView),
    VolumeGroup(VolumeGroupView),
    LogicalVolume(LogicalVolumeView),
    Zpool(ZpoolView),
    Dataset(DatasetView),
}

impl View for Device {
    type V = DeviceView;

    open spec fn view(&self) -> DeviceView {
        match self {
            Device::Host(h) => DeviceView::Host(h@),
            Device::ScsiDevice(x) => DeviceView::ScsiDevice(x@),
            Device::Partition(x) => DeviceView::Partition(x@),
            Device::MdRaid(x) => DeviceView::MdRaid(x@),
            Device::Mpath(x) => DeviceView::Mpath(x@),
            Device::VolumeGroup(x) => DeviceView::VolumeGroup(x@),
            Device::LogicalVolume(x) => DeviceView::LogicalVolume(x@),
            Device::Zpool(x) => DeviceView::Zpool(x@),
            Device::Dataset(x) => DeviceView::Dataset(x@),
        }
    }
}

impl DeepView for Device {
    type V = DeviceView;

    open spec fn deep_view(&self) -> DeviceView {
        self@
    }
}

impl Clone for Device {
    fn clone(&self) -> (r: Self)
        ensures
            r@ == self@,
    {
        match self {
            Device::Host(h) => Device::Host(h.clone()),
            Device::ScsiDevice(x) => Device::ScsiDevice(x.clone()),
            Device::Partition(x) => Device::Partition(x.clone()),
            Device::MdRaid(x) => Device::MdRaid(x.clone()),
            Device::Mpath(x) => Device::Mpath(x.clone()),
            Device::VolumeGroup(x) => Device::VolumeGroup(x.clone()),
            Device::LogicalVolume(x) => Device::LogicalVolume(x.clone()),
            Device::Zpool(x) => Device::Zpool(x.clone()),
            Device::Dataset(x) => Device::Dataset(x.clone()),
        }
    }
}

impl DeviceView {
    /// The kind of the node.
    pub open spec fn device_type(self) -> DeviceType {
        match self {
            DeviceView::Host(_) => DeviceType::Host,
            DeviceView::ScsiDevice(_) => DeviceType::ScsiDevice,
            DeviceView::Partition(_) => DeviceType::Partition,
            DeviceView::MdRaid(_) => DeviceType::MdRaid,
            DeviceView::Mpath(_) => DeviceType::Mpath,
            DeviceView::VolumeGroup(_) => DeviceType::VolumeGroup,
            DeviceView::LogicalVolume(_) => DeviceType::LogicalVolume,
            DeviceView::Zpool(_) => DeviceType::Zpool,
            DeviceView::Dataset(_) => DeviceType::Dataset,
        }
    }

    /// The serial of the node; for a host its name.
    pub open spec fn serial(self) -> Seq<char> {
        match self {
            DeviceView::Host(h) => h,
            DeviceView::ScsiDevice(x) => x.serial,
            DeviceView::Partition(x) => x.serial,
            DeviceView::MdRaid(x) => x.serial,
            DeviceView::Mpath(x) => x.serial,
            DeviceView::VolumeGroup(x) => x.serial,
            DeviceView::LogicalVolume(x) => x.serial,
            DeviceView::Zpool(x) => x.serial,
            DeviceView::Dataset(x) => x.serial,
        }
    }

    /// The identity of the node: two nodes with the same key stand for the
    /// same device.
    pub open spec fn as_parent(self) -> ParentView {
        (self.device_type(), self.serial())
    }

    /// The keys of the nodes that this node is layered on.
    pub open spec fn parents(self) -> Seq<ParentView> {
        match self {
            DeviceView::Host(_) => Seq::empty(),
            DeviceView::ScsiDevice(_) => Seq::empty(),
            DeviceView::Partition(x) => x.parents,
            DeviceView::MdRaid(x) => x.parents,
            DeviceView::Mpath(x) => x.parents,
            DeviceView::VolumeGroup(x) => x.parents,
            DeviceView::LogicalVolume(x) => seq![x.parent],
            DeviceView::Zpool(x) => x.parents,
            DeviceView::Dataset(_) => Seq::empty(),
        }
    }

    /// Whether a filesystem can be mounted from the node: not from a host
    /// and not from a volume group.
    pub open spec fn mountable(self) -> bool {
        !(self is Host) && !(self is VolumeGroup)
    }

    /// The size of the node in bytes; zero for a host.
    pub open spec fn size(self) -> i64 {
        match self {
            DeviceView::Host(_) => 0,
            DeviceView::ScsiDevice(x) => x.size,
            DeviceView::Partition(x) => x.size,
            DeviceView::MdRaid(x) => x.size,
            DeviceView::Mpath(x) => x.size,
            DeviceView::VolumeGroup(x) => x.size,
            DeviceView::LogicalVolume(x) => x.size,
            DeviceView::Zpool(x) => x.size,
            DeviceView::Dataset(x) => x.size,
        }
    }

    /// The filesystem type of a mountable node.
    pub open spec fn filesystem_type(self) -> Option<Seq<char>> {
        match self {
            DeviceView::Host(_) => None,
            DeviceView::VolumeGroup(_) => None,
            DeviceView::ScsiDevice(x) => x.filesystem_type,
            DeviceView::Partition(x) => x.filesystem_type,
            DeviceView::MdRaid(x) => x.filesystem_type,
            DeviceView::Mpath(x) => x.filesystem_type,
            DeviceView::LogicalVolume(x) => x.filesystem_type,
            DeviceView::Zpool(x) => x.filesystem_type,
            DeviceView::Dataset(x) => x.filesystem_type,
        }
    }

    /// The paths of a mountable node.
    pub open spec fn paths(self) -> Seq<Seq<char>> {
        match self {
            DeviceView::Host(_) => Seq::empty(),
            DeviceView::VolumeGroup(_) => Seq::empty(),
            DeviceView::ScsiDevice(x) => x.paths,
            DeviceView::Partition(x) => x.paths,
            DeviceView::MdRaid(x) => x.paths,
            DeviceView::Mpath(x) => x.paths,
            DeviceView::LogicalVolume(x) => x.paths,
            DeviceView::Zpool(x) => x.paths,
            DeviceView::Dataset(x) => x.paths,
        }
    }

    /// Where a mountable node is mounted.
    pub open spec fn mount_path(self) -> Option<Seq<char>> {
        match self {
            DeviceView::Host(_) => None,
            DeviceView::VolumeGroup(_) => None,
            DeviceView::ScsiDevice(x) => x.mount_path,
            DeviceView::Partition(x) => x.mount_path,
            DeviceView::MdRaid(x) => x.mount_path,
            DeviceView::Mpath(x) => x.mount_path,
            DeviceView::LogicalVolume(x) => x.mount_path,
            DeviceView::Zpool(x) => x.mount_path,
            DeviceView::Dataset(x) => x.mount_path,
        }
    }
}

impl Device {
    /// The kind of the node.
    pub fn name(&self) -> (t: DeviceType)
        ensures
            t == self@.device_type(),
    {
        match self {
            Device::Host(_) => DeviceType::Host,
            Device::ScsiDevice(_) => DeviceType::ScsiDevice,
            Device::Partition(_) => DeviceType::Partition,
            Device::MdRaid(_) => DeviceType::MdRaid,
            Device::Mpath(_) => DeviceType::Mpath,
            Device::VolumeGroup(_) => DeviceType::VolumeGroup,
            Device::LogicalVolume(_) => DeviceType::LogicalVolume,
            Device::Zpool(_) => DeviceType::Zpool,
            Device::Dataset(_) => DeviceType::Dataset,
        }
    }

    /// The serial of the node; for a host its name.
    pub fn serial(&self) -> (s: Serial)
        ensures
            s@ == self@.serial(),
    {
        match self {
            Device::Host(h) => Serial(h.0.clone()),
            Device::ScsiDevice(x) => x.serial.clone(),
            Device::Partition(x) => x.serial.clone(),
            Device::MdRaid(x) => x.serial.clone(),
            Device::Mpath(x) => x.serial.clone(),
            Device::VolumeGroup(x) => x.serial.clone(),
            Device::LogicalVolume(x) => x.serial.clone(),
            Device::Zpool(x) => x.serial.clone(),
            Device::Dataset(x) => x.serial.clone(),
        }
    }

    /// The identity of the node.
    pub fn as_parent(&self) -> (p: Parent)
        ensures
            p.deep_view() == self@.as_parent(),
    {
        (self.name(), self.serial())
    }

    /// Whether a filesystem can be mounted from the node.
    pub fn is_mountable(&self) -> (r: bool)
        ensures
            r == self@.mountable(),
    {
        match self {
            Device::Host(_) => false,
            Device::VolumeGroup(_) => false,
            _ => true,
        }
    }

    /// The size of the node in bytes; zero for a host.
    pub fn size(&self) -> (n: i64)
        ensures
            n == self@.size(),
    {
        match self {
            Device::Host(_) => 0,
            Device::ScsiDevice(x) => x.size,
            Device::Partition(x) => x.size,
            Device::MdRaid(x) => x.size,
            Device::Mpath(x) => x.size,
            Device::VolumeGroup(x) => x.size,
            Device::LogicalVolume(x) => x.size,
            Device::Zpool(x) => x.size,
            Device::Dataset(x) => x.size,
        }
    }

    /// The filesystem type of a mountable node.
    pub fn filesystem_type(&self) -> (r: Option<String>)
        ensures
            r.deep_view() == self@.filesystem_type(),
    {
        match self {
            Device::Host(_) => None,
            Device::VolumeGroup(_) => None,
            Device::ScsiDevice(x) => clone_opt(&x.filesystem_type),
            Device::Partition(x) => clone_opt(&x.filesystem_type),
            Device::MdRaid(x) => clone_opt(&x.filesystem_type),
            Device::Mpath(x) => clone_opt(&x.filesystem_type),
            Device::LogicalVolume(x) => clone_opt(&x.filesystem_type),
            Device::Zpool(x) => clone_opt(&x.filesystem_type),
            Device::Dataset(x) => clone_opt(&x.filesystem_type),
        }
    }

    /// The paths of a mountable node.
    pub fn paths(&self) -> (r: Vec<String>)
        ensures
            r.deep_view() == self@.paths(),
    {
        match self {
            Device::Host(_) => {
                let r: Vec<String> = Vec::new();
                assert(r.deep_view() =~= Seq::<Seq<char>>::empty());
                r
            },
            Device::VolumeGroup(_) => {
                let r: Vec<String> = Vec::new();
                assert(r.deep_view() =~= Seq::<Seq<char>>::empty());
                r
            },
            Device::ScsiDevice(x) => clone_strs(&x.paths),
            Device::Partition(x) => clone_strs(&x.paths),
            Device::MdRaid(x) => clone_strs(&x.paths),
            Device::Mpath(x) => clone_strs(&x.paths),
            Device::LogicalVolume(x) => clone_strs(&x.paths),
            Device::Zpool(x) => clone_strs(&x.paths),
            Device::Dataset(x) => clone_strs(&x.paths),
        }
    }

    /// Where a mountable node is mounted.
    pub fn mount_path(&self) -> (r: Option<String>)
        ensures
            r.deep_view() == self@.mount_path(),
    {
        match self {
            Device::Host(_) => None,
            Device::VolumeGroup(_) => None,
            Device::ScsiDevice(x) => clone_opt(&x.mount_path),
            Device::Partition(x) => clone_opt(&x.mount_path),
            Device::MdRaid(x) => clone_opt(&x.mount_path),
            Device::Mpath(x) => clone_opt(&x.mount_path),
            Device::LogicalVolume(x) => clone_opt(&x.mount_path),
            Device::Zpool(x) => clone_opt(&x.mount_path),
            Device::Dataset(x) => clone_opt(&x.mount_path),
        }
    }
}

/// Whether `h` is among `hs`.
pub fn contains_host(hs: &Vec<Host>, h: &Host) -> (r: bool)
    ensures
        r == hs.deep_view().contains(h@),
{
    let mut i: usize = 0;
    while i < hs.len()
        invariant
            i <= hs.len(),
            forall|j: int| 0 <= j < i ==> hs[j]@ != h@,
        decreases hs.len() - i,
    {
        if hs[i].0 == h.0 {
            assert(hs.deep_view()[i as int] == h@);
            return true;
        }
        i += 1;
    }
    assert forall|j: int| 0 <= j < hs.deep_view().len() implies hs.deep_view()[j] != h@ by {
        assert(hs.deep_view()[j] == hs[j]@);
    }
    false
}

/// Puts `h` among `hs` unless it is there already.
pub(crate) fn insert_host(hs: &mut Vec<Host>, h: Host)
    requires
        old(hs).deep_view().no_duplicates(),
    ensures
        final(hs).deep_view().no_duplicates(),
        forall|x: Seq<char>|
            final(hs).deep_view().contains(x) <==> old(hs).deep_view().contains(x) || x == h@,
{
    if !contains_host(hs, &h) {
        let ghost before = hs.deep_view();
        let ghost name = h@;
        hs.push(h);
        assert(hs.deep_view() =~= before.push(name));
        assert forall|x: Seq<char>| hs.deep_view().contains(x) <==> before.contains(x) || x
            == name by {
            if before.contains(x) {
                let j = choose|j: int| 0 <= j < before.len() && before[j] == x;
                assert(hs.deep_view()[j] == x);
            }
            if x == name {
                assert(hs.deep_view()[before.len() as int] == x);
            }
        }
    }
}

/// The hosts that are in both lists.
pub(crate) fn intersect_hosts(a: &Vec<Host>, b: &Vec<Host>) -> (r: Vec<Host>)
    requires
        a.deep_view().no_duplicates(),
    ensures
        r.deep_view().no_duplicates(),
        forall|x: Seq<char>|
            r.deep_view().contains(x) <==> a.deep_view().contains(x) && b.deep_view().contains(x),
{
    let mut r: Vec<Host> = Vec::new();
    let mut i: usize = 0;
    assert(r.deep_view() =~= Seq::<Seq<char>>::empty());
    while i < a.len()
        invariant
            i <= a.len(),
            a.deep_view().no_duplicates(),
            r.deep_view().no_duplicates(),
            forall|x: Seq<char>|
                r.deep_view().contains(x) <==> a.deep_view().subrange(0, i as int).contains(x)
                    && b.deep_view().contains(x),
        decreases a.len() - i,
    {
        let ghost prefix = a.deep_view().subrange(0, i as int);
        let ghost next = a.deep_view().subrange(0, i + 1);
        let ghost name = a[i as int]@;
        proof {
            assert(next =~= prefix.push(name));
            assert forall|x: Seq<char>| next.contains(x) <==> prefix.contains(x) || x == name by {
                if prefix.contains(x) {
                    let j = choose|j: int| 0 <= j < prefix.len() && prefix[j] == x;
                    assert(next[j] == x);
                }
                if x == name {
                    assert(next[i as int] == x);
                }
                if next.contains(x) {
                    let j = choose|j: int| 0 <= j < next.len() && next[j] == x;
                    if j < i {
                        assert(prefix[j] == x);
                    }
                }
            }
        }
        if contains_host(b, &a[i]) {
            insert_host(&mut r, a[i].clone());
        }
        i += 1;
    }
    assert(a.deep_view().subrange(0, a.len() as int) =~= a.deep_view());
    r
}

} // verus!
