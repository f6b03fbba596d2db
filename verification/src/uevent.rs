//! One udev event: the attributes of a block device at one moment.

use crate::error::Error;
use crate::node::{DeviceType, Serial};
use crate::text::{clone_opt, clone_strs};
use vstd::prelude::*;

verus! {

/// The attributes udev reports for one block device. `devpath` is the stable
/// key of the device; `paths` holds every alias under which it can be opened.
#[derive(Debug, PartialEq)]
pub struct UEvent {
    pub major: String,
    pub minor: String,
    pub seqnum: i64,
    pub paths: Vec<String>,
    pub devname: String,
    pub devpath: String,
    pub devtype: String,
    pub vendor: Option<String>,
    pub model: Option<String>,
    pub serial: Option<String>,
    pub fs_type: Option<String>,
    pub fs_usage: Option<String>,
    pub fs_uuid: Option<String>,
    pub fs_label: Option<String>,
    pub part_entry_number: Option<i64>,
    pub part_entry_mm: Option<String>,
    pub size: Option<i64>,
    pub scsi80: Option<String>,
    pub scsi83: Option<String>,
    pub read_only: Option<bool>,
    pub bios_boot: Option<bool>,
    pub zfs_reserved: Option<bool>,
    pub is_mpath: Option<bool>,
    pub dm_slave_mms: Vec<String>,
    pub dm_vg_size: Option<i64>,
    pub md_devs: Vec<String>,
    pub dm_multipath_devpath: Option<bool>,
    pub dm_name: Option<String>,
    pub dm_lv_name: Option<String>,
    pub lv_uuid: Option<String>,
    pub dm_vg_name: Option<String>,
    pub vg_uuid: Option<String>,
    pub md_uuid: Option<String>,
}

/// The mathematical value of a [`UEvent`].
pub ghost struct UEventView {
    pub major: Seq<char>,
    pub minor: Seq<char>,
    pub seqnum: i64,
    pub paths: Seq<Seq<char>>,
    pub devname: Seq<char>,
    pub devpath: Seq<char>,
    pub devtype: Seq<char>,
    pub vendor: Option<Seq<char>>,
    pub model: Option<Seq<char>>,
    pub serial: Option<Seq<char>>,
    pub fs_type: Option<Seq<char>>,
    pub fs_usage: Option<Seq<char>>,
    pub fs_uuid: Option<Seq<char>>,
    pub fs_label: Option<Seq<char>>,
    pub part_entry_number: Option<i64>,
    pub part_entry_mm: Option<Seq<char>>,
    pub size: Option<i64>,
    pub scsi80: Option<Seq<char>>,
    pub scsi83: Option<Seq<char>>,
    pub read_only: Option<bool>,
    pub bios_boot: Option<bool>,
    pub zfs_reserved: Option<bool>,
    pub is_mpath: Option<bool>,
    pub dm_slave_mms: Seq<Seq<char>>,
    pub dm_vg_size: Option<i64>,
    pub md_devs: Seq<Seq<char>>,
    pub dm_multipath_devpath: Option<bool>,
    pub dm_name: Option<Seq<char>>,
    pub dm_lv_name: Option<Seq<char>>,
    pub lv_uuid: Option<Seq<char>>,
    pub dm_vg_name: Option<Seq<char>>,
    pub vg_uuid: Option<Seq<char>>,
    pub md_uuid: Option<Seq<char>>,
}

impl UEventView {
    /// All of `lv_uuid`, `vg_uuid` and `dm_lv_name` are present.
    pub open spec fn is_dm(self) -> bool {
        self.lv_uuid is Some && self.vg_uuid is Some && self.dm_lv_name is Some
    }

    pub open spec fn is_mdraid(self) -> bool {
        self.md_uuid is Some
    }

    pub open spec fn is_mpath(self) -> bool {
        self.is_mpath == Some(true)
    }

    pub open spec fn is_partition(self) -> bool {
        self.part_entry_mm is Some
    }

    /// The event describes a device a filesystem could be put on: it has a
    /// positive size and is neither read-only nor a BIOS boot partition.
    pub open spec fn usable(self) -> bool {
        &&& self.size is Some
        &&& self.size->0 > 0
        &&& self.read_only != Some(true)
        &&& self.bios_boot != Some(true)
    }

    /// The class of the device, the first that applies of: LVM, MD RAID,
    /// multipath, partition; otherwise a plain SCSI device.
    pub open spec fn device_type(self) -> DeviceType {
        if self.is_dm() {
            DeviceType::VolumeGroup
        } else if self.is_mdraid() {
            DeviceType::MdRaid
        } else if self.is_mpath() {
            DeviceType::Mpath
        } else if self.is_partition() {
            DeviceType::Partition
        } else {
            DeviceType::ScsiDevice
        }
    }
}

impl View for UEvent {
    type V = UEventView;

    open spec fn view(&self) -> UEventView {
        UEventView {
            major: self.major@,
            minor: self.minor@,
            seqnum: self.seqnum,
            paths: self.paths.deep_view(),
            devname: self.devname@,
            devpath: self.devpath@,
            devtype: self.devtype@,
            vendor: self.vendor.deep_view(),
            model: self.model.deep_view(),
            serial: self.serial.deep_view(),
            fs_type: self.fs_type.deep_view(),
            fs_usage: self.fs_usage.deep_view(),
            fs_uuid: self.fs_uuid.deep_view(),
            fs_label: self.fs_label.deep_view(),
            part_entry_number: self.part_entry_number,
            part_entry_mm: self.part_entry_mm.deep_view(),
            size: self.size,
            scsi80: self.scsi80.deep_view(),
            scsi83: self.scsi83.deep_view(),
            read_only: self.read_only,
            bios_boot: self.bios_boot,
            zfs_reserved: self.zfs_reserved,
            is_mpath: self.is_mpath,
            dm_slave_mms: self.dm_slave_mms.deep_view(),
            dm_vg_size: self.dm_vg_size,
            md_devs: self.md_devs.deep_view(),
            dm_multipath_devpath: self.dm_multipath_devpath,
            dm_name: self.dm_name.deep_view(),
            dm_lv_name: self.dm_lv_name.deep_view(),
            lv_uuid: self.lv_uuid.deep_view(),
            dm_vg_name: self.dm_vg_name.deep_view(),
            vg_uuid: self.vg_uuid.deep_view(),
            md_uuid: self.md_uuid.deep_view(),
        }
    }
}

impl DeepView for UEvent {
    type V = UEventView;

    open spec fn deep_view(&self) -> UEventView {
        self@
    }
}

impl Clone for UEvent {
    fn clone(&self) -> (r: Self)
        ensures
            r@ == self@,
    {
        UEvent {
            major: self.major.clone(),
            minor: self.minor.clone(),
            seqnum: self.seqnum,
            paths: clone_strs(&self.paths),
            devname: self.devname.clone(),
            devpath: self.devpath.clone(),
            devtype: self.devtype.clone(),
            vendor: clone_opt(&self.vendor),
            model: clone_opt(&self.model),
            serial: clone_opt(&self.serial),
            fs_type: clone_opt(&self.fs_type),
            fs_usage: clone_opt(&self.fs_usage),
            fs_uuid: clone_opt(&self.fs_uuid),
            fs_label: clone_opt(&self.fs_label),
            part_entry_number: self.part_entry_number,
            part_entry_mm: clone_opt(&self.part_entry_mm),
            size: self.size,
            scsi80: clone_opt(&self.scsi80),
            scsi83: clone_opt(&self.scsi83),
            read_only: self.read_only,
            bios_boot: self.bios_boot,
            zfs_reserved: self.zfs_reserved,
            is_mpath: self.is_mpath,
            dm_slave_mms: clone_strs(&self.dm_slave_mms),
            dm_vg_size: self.dm_vg_size,
            md_devs: clone_strs(&self.md_devs),
            dm_multipath_devpath: self.dm_multipath_devpath,
            dm_name: clone_opt(&self.dm_name),
            dm_lv_name: clone_opt(&self.dm_lv_name),
            lv_uuid: clone_opt(&self.lv_uuid),
            dm_vg_name: clone_opt(&self.dm_vg_name),
            vg_uuid: clone_opt(&self.vg_uuid),
            md_uuid: clone_opt(&self.md_uuid),
        }
    }
}

impl UEvent {
    pub fn get_type(&self) -> (t: DeviceType)
        ensures
            t == self@.device_type(),
    {
        if self.is_dm() {
            DeviceType::VolumeGroup
        } else if self.is_mdraid() {
            DeviceType::MdRaid
        } else if self.is_mpath() {
            DeviceType::Mpath
        } else if self.is_partition() {
            DeviceType::Partition
        } else {
            DeviceType::ScsiDevice
        }
    }

    pub fn is_mpath(&self) -> (r: bool)
        ensures
            r == self@.is_mpath(),
    {
        match self.is_mpath {
            Some(b) => b,
            None => false,
        }
    }

    pub fn is_dm(&self) -> (r: bool)
        ensures
            r == self@.is_dm(),
    {
        self.lv_uuid.is_some() && self.vg_uuid.is_some() && self.dm_lv_name.is_some()
    }

    pub fn is_partition(&self) -> (r: bool)
        ensures
            r == self@.is_partition(),
    {
        self.part_entry_mm.is_some()
    }

    pub fn is_mdraid(&self) -> (r: bool)
        ensures
            r == self@.is_mdraid(),
    {
        self.md_uuid.is_some()
    }

    /// Whether the device is suitable for mounting a filesystem.
    pub fn keep_usable(&self) -> (r: bool)
        ensures
            r == self@.usable(),
    {
        let sized = match self.size {
            Some(n) => n > 0,
            None => false,
        };
        let read_only = match self.read_only {
            Some(b) => b,
            None => false,
        };
        let bios_boot = match self.bios_boot {
            Some(b) => b,
            None => false,
        };
        sized && !read_only && !bios_boot
    }

    /// The SCSI page 0x83 serial of the device, or `MissingField` when the
    /// event carries none.
    pub fn get_serial(&self) -> (r: Result<Serial, Error>)
        ensures
            self@.scsi83 is Some ==> r is Ok && r->Ok_0@ == self@.scsi83->0,
            self@.scsi83 is None ==> r == Err::<Serial, Error>(Error::MissingField),
    {
        match &self.scsi83 {
            Some(s) => Ok(Serial(s.clone())),
            None => Err(Error::MissingField),
        }
    }
}

} // verus!
