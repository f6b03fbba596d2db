//! The records that the aggregator derives from its graph: one for each
//! device that a filesystem can be mounted from, with a row for each host
//! that can use the device.

use crate::error::Error;
use crate::node::{kind_name, DeviceType, DeviceView, Host, Serial};
use crate::text::{clone_opt, clone_strs, opt_eq, strs_eq};
use vstd::prelude::*;

verus! {

/// A device that may be present on several hosts.
#[derive(Debug, PartialEq, Eq, Hash)]
pub struct Device {
    pub device_type: String,
    pub serial: String,
    pub size: i64,
    pub fs_type: Option<String>,
}

/// The mathematical value of a [`Device`].
pub ghost struct DeviceRecord {
    pub device_type: Seq<char>,
    pub serial: Seq<char>,
    pub size: i64,
    pub fs_type: Option<Seq<char>>,
}

impl View for Device {
    type V = DeviceRecord;

    open spec fn view(&self) -> DeviceRecord {
        DeviceRecord {
            device_type: self.device_type@,
            serial: self.serial@,
            size: self.size,
            fs_type: self.fs_type.deep_view(),
        }
    }
}

impl DeepView for Device {
    type V = DeviceRecord;

    open spec fn deep_view(&self) -> DeviceRecord {
        self@
    }
}

impl Clone for Device {
    fn clone(&self) -> (r: Self)
        ensures
            r@ == self@,
    {
        Device {
            device_type: self.device_type.clone(),
            serial: self.serial.clone(),
            size: self.size,
            fs_type: clone_opt(&self.fs_type),
        }
    }
}

impl Device {
    pub fn new(size: i64, device_type: &DeviceType, serial: &Serial, fs_type: &Option<String>) -> (r:
        Self)
        ensures
            r@ == (DeviceRecord {
                device_type: kind_name(*device_type),
                serial: serial@,
                size,
                fs_type: fs_type.deep_view(),
            }),
    {
        Device {
            size,
            device_type: device_type.to_string(),
            serial: serial.to_string(),
            fs_type: clone_opt(fs_type),
        }
    }

    /// Whether two records are equal.
    pub fn same(&self, other: &Device) -> (r: bool)
        ensures
            r == (self@ == other@),
    {
        self.device_type == other.device_type && self.serial == other.serial && self.size
            == other.size && opt_eq(&self.fs_type, &other.fs_type)
    }
}

/// The instance of a device on one host.
#[derive(Debug, PartialEq, Eq, Hash)]
pub struct DeviceHost {
    pub device_type: String,
    pub device_serial: String,
    pub host_fqdn: String,
    pub paths: Vec<String>,
    pub mount_path: Option<String>,
    pub is_active: bool,
}

/// The mathematical value of a [`DeviceHost`].
pub ghost struct DeviceHostRow {
    pub device_type: Seq<char>,
    pub device_serial: Seq<char>,
    pub host_fqdn: Seq<char>,
    pub paths: Seq<Seq<char>>,
    pub mount_path: Option<Seq<char>>,
    pub is_active: bool,
}

impl View for DeviceHost {
    type V = DeviceHostRow;

    open spec fn view(&self) -> DeviceHostRow {
        DeviceHostRow {
            device_type: self.device_type@,
            device_serial: self.device_serial@,
            host_fqdn: self.host_fqdn@,
            paths: self.paths.deep_view(),
            mount_path: self.mount_path.deep_view(),
            is_active: self.is_active,
        }
    }
}

impl DeepView for DeviceHost {
    type V = DeviceHostRow;

    open spec fn deep_view(&self) -> DeviceHostRow {
        self@
    }
}

impl Clone for DeviceHost {
    fn clone(&self) -> (r: Self)
        ensures
            r@ == self@,
    {
        DeviceHost {
            device_type: self.device_type.clone(),
            device_serial: self.device_serial.clone(),
            host_fqdn: self.host_fqdn.clone(),
            paths: clone_strs(&self.paths),
            mount_path: clone_opt(&self.mount_path),
            is_active: self.is_active,
        }
    }
}

impl DeviceHost {
    pub fn new(
        paths: &Vec<String>,
        host: &Host,
        device_type: &DeviceType,
        device_serial: &Serial,
        mount_path: &Option<String>,
        is_active: bool,
    ) -> (r: Self)
        ensures
            r@ == (DeviceHostRow {
                device_type: kind_name(*device_type),
                device_serial: device_serial@,
                host_fqdn: host@,
                paths: paths.deep_view(),
                mount_path: mount_path.deep_view(),
                is_active,
            }),
    {
        DeviceHost {
            device_type: device_type.to_string(),
            device_serial: device_serial.to_string(),
            host_fqdn: host.0.clone(),
            paths: clone_strs(paths),
            mount_path: clone_opt(mount_path),
            is_active,
        }
    }

    /// Whether two rows are equal.
    pub fn same(&self, other: &DeviceHost) -> (r: bool)
        ensures
            r == (self@ == other@),
    {
        self.device_type == other.device_type && self.device_serial == other.device_serial
            && self.host_fqdn == other.host_fqdn && strs_eq(&self.paths, &other.paths) && opt_eq(
            &self.mount_path,
            &other.mount_path,
        ) && self.is_active == other.is_active
    }
}

/// A host that can use a device, and whether it uses it now.
#[derive(Debug, PartialEq, Eq, Hash)]
pub enum HostUse {
    Active(Host),
    Inactive(Host),
}

impl View for HostUse {
    type V = (Seq<char>, bool);

    open spec fn view(&self) -> (Seq<char>, bool) {
        match self {
            HostUse::Active(h) => (h@, true),
            HostUse::Inactive(h) => (h@, false),
        }
    }
}

impl DeepView for HostUse {
    type V = (Seq<char>, bool);

    open spec fn deep_view(&self) -> (Seq<char>, bool) {
        self@
    }
}

/// The record of a device.
pub open spec fn record_of(d: DeviceView) -> DeviceRecord {
    DeviceRecord {
        device_type: kind_name(d.device_type()),
        serial: d.serial(),
        size: d.size(),
        fs_type: d.filesystem_type(),
    }
}

/// The row of a device on the host called `h`.
pub open spec fn row_of(d: DeviceView, h: Seq<char>, active: bool) -> DeviceHostRow {
    DeviceHostRow {
        device_type: kind_name(d.device_type()),
        device_serial: d.serial(),
        host_fqdn: h,
        paths: d.paths(),
        mount_path: d.mount_path(),
        is_active: active,
    }
}

/// The rows of a device on a list of hosts: one row for each host, without
/// repeating a row.
pub open spec fn rows_of(d: DeviceView, hs: Seq<(Seq<char>, bool)>) -> Seq<DeviceHostRow>
    decreases hs.len(),
{
    if hs.len() == 0 {
        Seq::empty()
    } else {
        let r = rows_of(d, hs.drop_last());
        let row = row_of(d, hs.last().0, hs.last().1);
        if r.contains(row) {
            r
        } else {
            r.push(row)
        }
    }
}

/// Whether `row` is among `rows`.
pub fn contains_row(rows: &Vec<DeviceHost>, row: &DeviceHost) -> (r: bool)
    ensures
        r == rows.deep_view().contains(row@),
{
    let mut i: usize = 0;
    while i < rows.len()
        invariant
            i <= rows.len(),
            forall|j: int| 0 <= j < i ==> rows[j]@ != row@,
        decreases rows.len() - i,
    {
        if rows[i].same(row) {
            assert(rows.deep_view()[i as int] == row@);
            return true;
        }
        i += 1;
    }
    assert forall|j: int| 0 <= j < rows.deep_view().len() implies rows.deep_view()[j] != row@ by {
        assert(rows.deep_view()[j] == rows[j]@);
    }
    false
}

/// The record of a device and its rows on the given hosts, or
/// `UnmountableRecord` for a host or a volume group.
pub fn create_records_from_device_and_hosts(d: &crate::node::Device, hs: &Vec<HostUse>) -> (r:
    Result<(Vec<DeviceHost>, Device), Error>)
    ensures
        d@.mountable() ==> r is Ok && r->Ok_0.1@ == record_of(d@) && r->Ok_0.0.deep_view()
            == rows_of(d@, hs.deep_view()),
        !d@.mountable() ==> r == Err::<(Vec<DeviceHost>, Device), Error>(Error::UnmountableRecord),
{
    if !d.is_mountable() {
        return Err(Error::UnmountableRecord);
    }
    let name = d.name();
    let serial = d.serial();
    let fs_type = d.filesystem_type();
    let paths = d.paths();
    let mount_path = d.mount_path();
    let dev = Device::new(d.size(), &name, &serial, &fs_type);
    let mut rows: Vec<DeviceHost> = Vec::new();
    let mut i: usize = 0;
    assert(hs.deep_view().subrange(0, 0) =~= Seq::<(Seq<char>, bool)>::empty());
    assert(rows.deep_view() =~= Seq::<DeviceHostRow>::empty());
    while i < hs.len()
        invariant
            i <= hs.len(),
            name == d@.device_type(),
            serial@ == d@.serial(),
            paths.deep_view() == d@.paths(),
            mount_path.deep_view() == d@.mount_path(),
            rows.deep_view() == rows_of(d@, hs.deep_view().subrange(0, i as int)),
        decreases hs.len() - i,
    {
        let ghost before = rows.deep_view();
        proof {
            let next = hs.deep_view().subrange(0, i + 1);
            assert(next.drop_last() =~= hs.deep_view().subrange(0, i as int));
            assert(next.last() == hs[i as int]@);
        }
        let row = match &hs[i] {
            HostUse::Active(host) => DeviceHost::new(
                &paths,
                host,
                &name,
                &serial,
                &mount_path,
                true,
            ),
            HostUse::Inactive(host) => DeviceHost::new(
                &paths,
                host,
                &name,
                &serial,
                &mount_path,
                false,
            ),
        };
        if !contains_row(&rows, &row) {
            let ghost view = row@;
            rows.push(row);
            assert(rows.deep_view() =~= before.push(view));
        }
        i += 1;
    }
    assert(hs.deep_view().subrange(0, hs.len() as int) =~= hs.deep_view());
    Ok((rows, dev))
}

} // verus!
