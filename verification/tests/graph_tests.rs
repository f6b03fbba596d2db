use device_scanner::daemon::{build_device_list, handler, Output};
use device_scanner::devices::{
    Dataset, Device, LogicalVolume, MdRaid, Mpath, Partition, Root, ScsiDevice, VolumeGroup,
    Zpool,
};
use device_scanner::error::Error;
use device_scanner::graph::{
    bucket_devices, build_device_graph, children_of, device_tree, find_by_major_minor,
    find_mount, format_major_minor, get_datasets, get_lvs, get_mds, get_mpaths, get_partitions,
    get_pools, get_scsis, get_vgs, make_dataset, make_node, make_zpool, Rule,
};
use device_scanner::mount::{BdevPath, FsType, Mount, MountCommand, MountOpts, MountPoint};
use device_scanner::node::DeviceType;
use device_scanner::pool::{get_vdev_paths, Pool, VDev};
use device_scanner::state::State;
use device_scanner::udev::UdevCommand;
use device_scanner::uevent::UEvent;
use device_scanner::zed::{zpool, PoolCommand};
use device_scanner::Command;

fn event(devpath: &str, major: &str, minor: &str) -> UEvent {
    UEvent {
        major: major.to_string(),
        minor: minor.to_string(),
        seqnum: 1,
        paths: vec![format!("/dev/{}", devpath)],
        devname: format!("/dev/{}", devpath),
        devpath: format!("/devices/{}", devpath),
        devtype: "disk".to_string(),
        vendor: None,
        model: None,
        serial: None,
        fs_type: None,
        fs_usage: None,
        fs_uuid: None,
        fs_label: None,
        part_entry_number: None,
        part_entry_mm: None,
        size: Some(1024),
        scsi80: None,
        scsi83: Some(format!("serial-{}", devpath)),
        read_only: None,
        bios_boot: None,
        zfs_reserved: None,
        is_mpath: None,
        dm_slave_mms: vec![],
        dm_vg_size: None,
        md_devs: vec![],
        dm_multipath_devpath: None,
        dm_name: None,
        dm_lv_name: None,
        lv_uuid: None,
        dm_vg_name: None,
        vg_uuid: None,
        md_uuid: None,
    }
}

fn partition_event(devpath: &str, major: &str, minor: &str, on: &str, number: i64) -> UEvent {
    let mut e = event(devpath, major, minor);
    e.devtype = "partition".to_string();
    e.part_entry_mm = Some(on.to_string());
    e.part_entry_number = Some(number);
    e
}

fn lv_event(devpath: &str, minor: &str, slave: &str, vg: &str, lv: &str) -> UEvent {
    let mut e = event(devpath, "253", minor);
    e.dm_slave_mms = vec![slave.to_string()];
    e.dm_vg_name = Some(vg.to_string());
    e.dm_vg_size = Some(4096);
    e.vg_uuid = Some(format!("uuid-{}", vg));
    e.dm_lv_name = Some(lv.to_string());
    e.lv_uuid = Some(format!("uuid-{}", lv));
    e
}

fn mount(target: &str, source: &str, fs: &str) -> Mount {
    Mount::new(
        MountPoint(target.to_string()),
        BdevPath(source.to_string()),
        FsType(fs.to_string()),
        MountOpts("rw".to_string()),
    )
}

fn scsi_node(devpath: &str, major: &str, minor: &str, children: Vec<Device>) -> Device {
    Device::ScsiDevice(ScsiDevice {
        serial: format!("serial-{}", devpath),
        scsi80: None,
        major: major.to_string(),
        minor: minor.to_string(),
        devpath: format!("/devices/{}", devpath),
        size: 1024,
        filesystem_type: None,
        paths: vec![format!("/dev/{}", devpath)],
        mount_path: None,
        children,
    })
}

fn partition_node(devpath: &str, major: &str, minor: &str, n: i64, children: Vec<Device>) -> Device {
    Device::Partition(Partition {
        partition_number: n,
        size: 1024,
        major: major.to_string(),
        minor: minor.to_string(),
        devpath: format!("/devices/{}", devpath),
        filesystem_type: None,
        paths: vec![format!("/dev/{}", devpath)],
        mount_path: None,
        children,
    })
}

fn tree(events: &Vec<UEvent>, pools: &Vec<Pool>, mounts: &Vec<Mount>) -> Device {
    let b = bucket_devices(events, pools);
    device_tree(&b, mounts)
}

fn root(children: Vec<Device>) -> Device {
    Device::Root(Root { children })
}

#[test]
fn major_and_minor_are_joined_by_a_colon() {
    assert_eq!(format_major_minor("253", "13"), "253:13");
    assert_eq!(format_major_minor("", ""), ":");
    assert!(find_by_major_minor(&vec!["8:0".to_string(), "253:13".to_string()], "253", "13"));
    assert!(!find_by_major_minor(&vec!["8:0".to_string()], "8", "00"));
}

#[test]
fn the_class_of_an_event_is_the_first_that_applies() {
    let plain = event("sda", "8", "0");
    assert_eq!(plain.get_type(), DeviceType::ScsiDevice);

    let mut e = plain.clone();
    e.part_entry_mm = Some("8:0".to_string());
    assert!(e.is_partition());
    assert_eq!(e.get_type(), DeviceType::Partition);

    e.is_mpath = Some(true);
    assert!(e.is_mpath());
    assert_eq!(e.get_type(), DeviceType::Mpath);

    e.md_uuid = Some("u".to_string());
    assert!(e.is_mdraid());
    assert_eq!(e.get_type(), DeviceType::MdRaid);

    e.lv_uuid = Some("l".to_string());
    e.vg_uuid = Some("v".to_string());
    assert!(!e.is_dm());
    assert_eq!(e.get_type(), DeviceType::MdRaid);
    e.dm_lv_name = Some("n".to_string());
    assert!(e.is_dm());
    assert_eq!(e.get_type(), DeviceType::VolumeGroup);

    let mut m = plain.clone();
    m.is_mpath = Some(false);
    assert!(!m.is_mpath());
}

#[test]
fn usable_is_sized_and_neither_read_only_nor_bios_boot() {
    let e = event("sda", "8", "0");
    assert!(e.keep_usable());
    for size in [None, Some(0), Some(-1)] {
        let mut x = e.clone();
        x.size = size;
        assert!(!x.keep_usable());
    }
    let mut x = e.clone();
    x.read_only = Some(true);
    assert!(!x.keep_usable());
    x.read_only = Some(false);
    assert!(x.keep_usable());
    x.bios_boot = Some(true);
    assert!(!x.keep_usable());
}

#[test]
fn the_serial_of_an_event_is_its_scsi83() {
    let mut e = event("sda", "8", "0");
    assert_eq!(e.get_serial().map(|s| s.0), Ok("serial-sda".to_string()));
    e.scsi83 = None;
    assert_eq!(e.get_serial().err(), Some(Error::MissingField));
}

#[test]
fn events_go_to_the_bucket_of_their_class() {
    let mut md = event("md0", "9", "0");
    md.md_uuid = Some("u".to_string());
    let mut mp = event("dm-0", "253", "0");
    mp.is_mpath = Some(true);
    let events = vec![
        event("sda", "8", "0"),
        partition_event("sda1", "8", "1", "8:0", 1),
        md,
        mp,
        lv_event("dm-1", "1", "8:1", "vg0", "lv0"),
        event("sdb", "8", "16"),
    ];
    let pools = vec![];
    let b = bucket_devices(&events, &pools);
    let paths = |xs: &Vec<&UEvent>| -> Vec<String> { xs.iter().map(|e| e.devname.clone()).collect() };
    assert_eq!(paths(&b.rest), vec!["/dev/sda", "/dev/sdb"]);
    assert_eq!(paths(&b.partitions), vec!["/dev/sda1"]);
    assert_eq!(paths(&b.mds), vec!["/dev/md0"]);
    assert_eq!(paths(&b.mpaths), vec!["/dev/dm-0"]);
    assert_eq!(paths(&b.dms), vec!["/dev/dm-1"]);
    assert!(b.pools.is_empty());
}

#[test]
fn a_disk_with_a_partition() {
    let events = vec![event("sda", "8", "0"), partition_event("sda1", "8", "1", "8:0", 1)];
    let t = tree(&events, &vec![], &vec![]);
    assert_eq!(
        t,
        root(vec![scsi_node(
            "sda",
            "8",
            "0",
            vec![partition_node("sda1", "8", "1", 1, vec![])]
        )])
    );
}

#[test]
fn a_mounted_device_takes_type_and_target_from_its_mount() {
    let mut e = event("sda", "8", "0");
    e.fs_type = Some("xfs".to_string());
    e.paths.push("/dev/disk/by-id/x".to_string());
    let mounts = vec![mount("/mnt/other", "/dev/sdz", "ext2"), mount("/mnt/a", "/dev/disk/by-id/x", "ext4")];
    assert_eq!(
        find_mount(&e.paths, &mounts).map(|m| m.target.0.clone()),
        Some("/mnt/a".to_string())
    );
    match tree(&vec![e.clone()], &vec![], &mounts) {
        Device::Root(r) => match &r.children[0] {
            Device::ScsiDevice(s) => {
                assert_eq!(s.filesystem_type, Some("ext4".to_string()));
                assert_eq!(s.mount_path, Some("/mnt/a".to_string()));
            }
            other => panic!("{:?}", other),
        },
        other => panic!("{:?}", other),
    }
    match tree(&vec![e], &vec![], &vec![]) {
        Device::Root(r) => match &r.children[0] {
            Device::ScsiDevice(s) => {
                assert_eq!(s.filesystem_type, Some("xfs".to_string()));
                assert_eq!(s.mount_path, None);
            }
            other => panic!("{:?}", other),
        },
        other => panic!("{:?}", other),
    }
}

#[test]
fn the_first_of_two_mounts_of_one_device_is_taken() {
    let paths = vec!["/dev/sda".to_string()];
    let mounts = vec![mount("/mnt/1", "/dev/sda", "ext4"), mount("/mnt/2", "/dev/sda", "ext4")];
    assert_eq!(find_mount(&paths, &mounts), Some(&mounts[0]));
    assert_eq!(find_mount(&paths, &vec![]), None);
}

#[test]
fn the_logical_volumes_of_one_group_hang_below_one_group() {
    let events = vec![
        event("sda", "8", "0"),
        lv_event("dm-1", "1", "8:0", "vg0", "lv0"),
        lv_event("dm-2", "2", "8:0", "vg0", "lv1"),
    ];
    let t = tree(&events, &vec![], &vec![]);
    let lv = |devpath: &str, minor: &str, name: &str| {
        Device::LogicalVolume(LogicalVolume {
            name: name.to_string(),
            uuid: format!("uuid-{}", name),
            major: "253".to_string(),
            minor: minor.to_string(),
            size: 1024,
            children: vec![],
            devpath: format!("/devices/{}", devpath),
            paths: vec![format!("/dev/{}", devpath)],
            filesystem_type: None,
            mount_path: None,
        })
    };
    assert_eq!(
        t,
        root(vec![scsi_node(
            "sda",
            "8",
            "0",
            vec![Device::VolumeGroup(VolumeGroup {
                name: "vg0".to_string(),
                uuid: "uuid-vg0".to_string(),
                size: 4096,
                children: vec![lv("dm-1", "1", "lv0"), lv("dm-2", "2", "lv1")],
            })]
        )])
    );
}

#[test]
fn an_event_of_size_zero_is_not_in_the_tree() {
    let mut state = State::new();
    let mut dead = event("sdb", "8", "16");
    dead.size = Some(0);
    let mut read_only = event("sdc", "8", "32");
    read_only.read_only = Some(true);
    let mut boot = event("sdd", "8", "48");
    boot.bios_boot = Some(true);
    for e in [event("sda", "8", "0"), dead.clone(), read_only, boot] {
        state.uevents.insert(e.devpath.clone(), e);
    }
    assert_eq!(
        build_device_list(&state.uevents).iter().map(|e| e.devname.clone()).collect::<Vec<_>>(),
        vec!["/dev/sda"]
    );
    assert_eq!(state.device_tree(), root(vec![scsi_node("sda", "8", "0", vec![])]));
    assert_eq!(state.uevents.len(), 4);

    dead.size = Some(1024);
    let step = handler(state, Command::UdevCommand(UdevCommand::Change(dead)));
    match step.output {
        Ok(Output::Tree(Device::Root(r))) => assert_eq!(r.children.len(), 2),
        other => panic!("{:?}", other),
    }
}

#[test]
fn a_device_that_lacks_what_its_class_needs_is_passed_over() {
    let mut no_serial = event("sdb", "8", "16");
    no_serial.scsi83 = None;
    let mut no_number = partition_event("sda1", "8", "1", "8:0", 1);
    no_number.part_entry_number = None;
    let events = vec![
        no_serial.clone(),
        event("sda", "8", "0"),
        no_number.clone(),
        partition_event("sda2", "8", "2", "8:0", 2),
    ];
    assert_eq!(make_node(&Rule::Scsi, &no_serial, &vec![]).err(), Some(Error::MissingField));
    assert_eq!(
        make_node(&Rule::Partition(&"8:0".to_string()), &no_number, &vec![]).err(),
        Some(Error::MissingField)
    );
    let mut no_size = no_serial.clone();
    no_size.size = None;
    for rule in [
        Rule::Mpath(&"8:0".to_string()),
        Rule::VolumeGroup(&"8:0".to_string()),
        Rule::MdRaid(&vec![]),
        Rule::LogicalVolume(&"u".to_string()),
    ] {
        assert_eq!(make_node(&rule, &no_size, &vec![]).err(), Some(Error::MissingField));
    }
    let t = tree(&events, &vec![], &vec![]);
    assert_eq!(
        t,
        root(vec![scsi_node(
            "sda",
            "8",
            "0",
            vec![partition_node("sda2", "8", "2", 2, vec![])]
        )])
    );
}

fn disk(path: &str) -> VDev {
    VDev::Disk {
        guid: None,
        state: "ONLINE".to_string(),
        path: path.to_string(),
        dev_id: None,
        phys_path: None,
        whole_disk: None,
        is_log: None,
    }
}

fn pool(guid: u64, name: &str, size: &str, vdev: VDev) -> Pool {
    Pool {
        name: name.to_string(),
        guid,
        health: "ONLINE".to_string(),
        hostname: "h".to_string(),
        hostid: None,
        state: "ACTIVE".to_string(),
        readonly: false,
        size: size.to_string(),
        vdev,
        props: vec![],
        datasets: vec![device_scanner::pool::Dataset {
            name: format!("{}/ost0", name),
            guid: "7".to_string(),
            kind: "filesystem".to_string(),
            props: vec![],
        }],
    }
}

#[test]
fn the_paths_of_a_vdev_tree_are_those_of_its_disks() {
    let file = VDev::File {
        guid: None,
        state: "ONLINE".to_string(),
        path: "/tmp/f".to_string(),
        is_log: None,
    };
    let v = VDev::Root {
        children: vec![
            VDev::Mirror { children: vec![disk("/dev/a"), disk("/dev/b")], is_log: None },
            VDev::RaidZ { children: vec![disk("/dev/c"), file.clone()] },
            VDev::Replacing { children: vec![disk("/dev/d")] },
        ],
        spares: vec![disk("/dev/s")],
        cache: vec![disk("/dev/k")],
    };
    assert_eq!(
        get_vdev_paths(&v),
        vec!["/dev/a", "/dev/b", "/dev/c", "/dev/d", "/dev/s", "/dev/k"]
    );
    assert_eq!(get_vdev_paths(&file), Vec::<String>::new());
    assert!(v.same(&v.clone()));
    assert!(!v.same(&file));
}

#[test]
fn a_pool_hangs_below_the_device_that_holds_one_of_its_disks() {
    let events = vec![event("sda", "8", "0"), event("sdb", "8", "16")];
    let pools = vec![pool(5, "tank", "2048", VDev::Root {
        children: vec![disk("/dev/sdb")],
        spares: vec![],
        cache: vec![],
    })];
    let mounts = vec![mount("/tank/ost0", "tank/ost0", "zfs")];
    let t = tree(&events, &pools, &mounts);
    let pool_node = Device::Zpool(Zpool {
        guid: 5,
        name: "tank".to_string(),
        health: "ONLINE".to_string(),
        state: "ACTIVE".to_string(),
        size: 2048,
        vdev: pools[0].vdev.clone(),
        props: vec![],
        filesystem_type: None,
        mount_path: None,
        children: vec![Device::Dataset(Dataset {
            pool_guid: 5,
            guid: "7".to_string(),
            name: "tank/ost0".to_string(),
            kind: "filesystem".to_string(),
            props: vec![],
            filesystem_type: Some("zfs".to_string()),
            mount_path: Some("/tank/ost0".to_string()),
        })],
    });
    assert_eq!(
        t,
        root(vec![
            scsi_node("sda", "8", "0", vec![]),
            scsi_node("sdb", "8", "16", vec![pool_node])
        ])
    );
}

#[test]
fn a_pool_whose_size_is_no_number_is_passed_over() {
    let p = pool(5, "tank", "big", disk("/dev/sda"));
    assert_eq!(make_zpool(&p, &vec![]).err(), Some(Error::ParseInt));
    let events = vec![event("sda", "8", "0")];
    assert_eq!(tree(&events, &vec![p], &vec![]), root(vec![scsi_node("sda", "8", "0", vec![])]));
}

#[test]
fn the_collectors_pick_by_their_rule() {
    let mut md = event("md0", "9", "0");
    md.md_uuid = Some("u".to_string());
    md.md_devs = vec!["/dev/sda".to_string()];
    let mut mp = event("dm-0", "253", "0");
    mp.is_mpath = Some(true);
    mp.dm_slave_mms = vec!["8:0".to_string(), "8:16".to_string()];
    let events = vec![
        event("sda", "8", "0"),
        partition_event("sda1", "8", "1", "8:0", 1),
        md,
        mp,
        lv_event("dm-1", "1", "8:1", "vg0", "lv0"),
    ];
    let pools = vec![pool(5, "tank", "1", disk("/dev/sda1"))];
    let b = bucket_devices(&events, &pools);
    let none = vec![];
    assert_eq!(get_scsis(&b, &none).len(), 1);
    assert_eq!(get_partitions(&b, &none, "8", "0").len(), 1);
    assert_eq!(get_partitions(&b, &none, "8", "1").len(), 0);
    assert_eq!(get_mpaths(&b, &none, "8", "16").len(), 1);
    assert_eq!(get_mpaths(&b, &none, "8", "32").len(), 0);
    assert_eq!(get_vgs(&b, "8", "1").len(), 1);
    assert_eq!(get_vgs(&b, "8", "0").len(), 0);
    assert_eq!(get_lvs(&b, &none, &"uuid-vg0".to_string()).len(), 1);
    assert_eq!(get_lvs(&b, &none, &"uuid-vg1".to_string()).len(), 0);
    assert_eq!(get_mds(&b, &none, &vec!["/dev/sda".to_string()]).len(), 1);
    assert_eq!(get_mds(&b, &none, &vec!["/dev/sdb".to_string()]).len(), 0);
    assert_eq!(get_pools(&b, &none, &vec!["/dev/sda1".to_string()]).len(), 1);
    assert_eq!(get_pools(&b, &none, &vec!["/dev/sda".to_string()]).len(), 0);
    assert_eq!(get_datasets(&b, &none, 5).map(|d| d.len()), Ok(1));
    assert_eq!(get_datasets(&b, &none, 6).err(), Some(Error::PoolNotFound));
    let ds = make_dataset(5, &pools[0].datasets[0], &none);
    assert_eq!(get_datasets(&b, &none, 5), Ok(vec![ds]));

    let disk_node = scsi_node("sda", "8", "0", vec![]);
    let kids = children_of(&disk_node, &b, &none);
    let kinds: Vec<&str> = kids
        .iter()
        .map(|d| match d {
            Device::Mpath(_) => "mpath",
            Device::Partition(_) => "partition",
            Device::MdRaid(_) => "md",
            _ => "other",
        })
        .collect();
    assert_eq!(kinds, vec!["mpath", "partition", "md"]);
}

#[test]
fn the_tree_is_populated_to_the_given_depth() {
    let events = vec![event("sda", "8", "0"), partition_event("sda1", "8", "1", "8:0", 1)];
    let pools = vec![];
    let b = bucket_devices(&events, &pools);
    let none = vec![];
    let bare = root(vec![]);
    assert_eq!(build_device_graph(bare.clone(), &b, &none, 0), bare);
    assert_eq!(
        build_device_graph(bare.clone(), &b, &none, 1),
        root(vec![scsi_node("sda", "8", "0", vec![])])
    );
    let full = root(vec![scsi_node(
        "sda",
        "8",
        "0",
        vec![partition_node("sda1", "8", "1", 1, vec![])],
    )]);
    assert_eq!(build_device_graph(bare.clone(), &b, &none, 2), full);
    assert_eq!(build_device_graph(bare, &b, &none, 9), full);
}

#[test]
fn a_partition_that_sits_on_itself_ends_the_tree_at_its_depth() {
    let events = vec![event("sda", "8", "0"), partition_event("sda1", "8", "1", "8:1", 1)];
    let t = tree(&events, &vec![], &vec![]);
    assert_eq!(t, root(vec![scsi_node("sda", "8", "0", vec![])]));

    let events = vec![event("sda", "8", "0"), partition_event("sda1", "8", "0", "8:0", 1)];
    let mut depth = 0;
    let mut at = &tree(&events, &vec![], &vec![]);
    loop {
        let children = match at {
            Device::Root(r) => &r.children,
            Device::ScsiDevice(s) => &s.children,
            Device::Partition(p) => &p.children,
            other => panic!("{:?}", other),
        };
        if children.is_empty() {
            break;
        }
        assert_eq!(children.len(), 1);
        at = &children[0];
        depth += 1;
    }
    assert_eq!(depth, 4);
}

fn children(d: &Device) -> &[Device] {
    match d {
        Device::Root(x) => &x.children,
        Device::ScsiDevice(x) => &x.children,
        Device::Partition(x) => &x.children,
        Device::MdRaid(x) => &x.children,
        Device::Mpath(x) => &x.children,
        Device::VolumeGroup(x) => &x.children,
        Device::LogicalVolume(x) => &x.children,
        Device::Zpool(x) => &x.children,
        Device::Dataset(_) => &[],
    }
}

fn kind(d: &Device) -> &'static str {
    match d {
        Device::Root(_) => "root",
        Device::ScsiDevice(_) => "scsi",
        Device::Partition(_) => "partition",
        Device::MdRaid(_) => "md",
        Device::Mpath(_) => "mpath",
        Device::VolumeGroup(_) => "vg",
        Device::LogicalVolume(_) => "lv",
        Device::Zpool(_) => "zpool",
        Device::Dataset(_) => "dataset",
    }
}

fn stacked_volumes() -> (Vec<UEvent>, Vec<Pool>) {
    let events = vec![
        event("sda", "8", "0"),
        lv_event("dm-1", "1", "8:0", "vg0", "lv0"),
        partition_event("dm-1p1", "259", "1", "253:1", 1),
        lv_event("dm-2", "2", "259:1", "vg1", "lv1"),
    ];
    let pools = vec![pool(5, "tank", "2048", disk("/dev/dm-2"))];
    (events, pools)
}

#[test]
fn a_pool_on_a_volume_on_a_partition_of_a_volume_has_its_dataset_in_the_tree() {
    let (events, pools) = stacked_volumes();
    let t = tree(&events, &pools, &vec![]);
    let mut chain = vec![kind(&t)];
    let mut at = &t;
    while !children(at).is_empty() {
        assert_eq!(children(at).len(), 1);
        at = &children(at)[0];
        chain.push(kind(at));
    }
    assert_eq!(
        chain,
        vec!["root", "scsi", "vg", "lv", "partition", "vg", "lv", "zpool", "dataset"]
    );
    match at {
        Device::Dataset(d) => {
            assert_eq!(d.name, "tank/ost0");
            assert_eq!(d.pool_guid, 5);
        }
        other => panic!("{:?}", other),
    }
}

#[test]
fn the_tree_of_a_host_is_as_deep_as_its_devices_are_stacked() {
    let (events, pools) = stacked_volumes();
    let b = bucket_devices(&events, &pools);
    let none = vec![];
    let t = device_tree(&b, &none);
    // two volumes, a disk, a partition and a pool: nine levels in the tree,
    // eight of them below the root
    assert!(build_device_graph(root(vec![]), &b, &none, 7) != t);
    assert_eq!(build_device_graph(root(vec![]), &b, &none, 8), t);
    assert_eq!(build_device_graph(root(vec![]), &b, &none, 9), t);
    assert_eq!(build_device_graph(root(vec![]), &b, &none, 40), t);
}

#[test]
fn get_mounts_answers_with_the_mounts_and_changes_nothing() {
    let mut state = State::new();
    state.local_mounts.insert(mount("/mnt/a", "/dev/sda", "ext4"));
    let step = handler(state, Command::GetMounts);
    assert!(!step.subscribe);
    match step.output {
        Ok(Output::Mounts(ms)) => assert_eq!(ms, vec![mount("/mnt/a", "/dev/sda", "ext4")]),
        other => panic!("{:?}", other),
    }
    assert_eq!(step.state.local_mounts.len(), 1);
}

#[test]
fn every_other_command_subscribes_and_yields_the_tree() {
    let step = handler(State::new(), Command::Stream);
    assert!(step.subscribe);
    assert!(matches!(step.output, Ok(Output::Tree(Device::Root(_)))));

    let step =
        handler(step.state, Command::UdevCommand(UdevCommand::Add(event("sda", "8", "0"))));
    assert!(step.subscribe);
    assert_eq!(step.state.uevents.len(), 1);

    let step = handler(
        step.state,
        Command::MountCommand(MountCommand::AddMount(
            MountPoint("/mnt/a".to_string()),
            BdevPath("/dev/sda".to_string()),
            FsType("ext4".to_string()),
            MountOpts("rw".to_string()),
        )),
    );
    match step.output {
        Ok(Output::Tree(Device::Root(r))) => match &r.children[0] {
            Device::ScsiDevice(s) => assert_eq!(s.mount_path, Some("/mnt/a".to_string())),
            other => panic!("{:?}", other),
        },
        other => panic!("{:?}", other),
    }
    assert_eq!(step.state.local_mounts.len(), 1);
}

#[test]
fn a_pool_command_that_fails_leaves_the_state() {
    let p = pool(5, "tank", "1", disk("/dev/sda"));
    let step = handler(State::new(), Command::PoolCommand(PoolCommand::AddPool(p.clone())));
    assert!(step.output.is_ok());
    let step = handler(
        step.state,
        Command::PoolCommand(PoolCommand::RemovePool(zpool::Guid::from_u64(6))),
    );
    assert!(step.subscribe);
    assert_eq!(step.output.err(), Some(Error::PoolNotFound));
    assert_eq!(step.state.zed_events.get(&5), Some(&p));
}

#[test]
fn equal_trees_are_the_same_and_different_ones_are_not() {
    let a = root(vec![scsi_node("sda", "8", "0", vec![partition_node("sda1", "8", "1", 1, vec![])])]);
    let b = root(vec![scsi_node("sda", "8", "0", vec![partition_node("sda1", "8", "1", 2, vec![])])]);
    assert!(a.same(&a.clone()));
    assert!(!a.same(&b));
    assert!(!a.same(&root(vec![])));
    let md = Device::MdRaid(MdRaid {
        size: 1,
        major: "9".to_string(),
        minor: "0".to_string(),
        filesystem_type: None,
        paths: vec![],
        mount_path: None,
        uuid: "u".to_string(),
        children: vec![],
    });
    let mp = Device::Mpath(Mpath {
        devpath: "d".to_string(),
        serial: "s".to_string(),
        size: 1,
        major: "253".to_string(),
        minor: "0".to_string(),
        filesystem_type: None,
        paths: vec![],
        children: vec![],
        mount_path: None,
    });
    assert!(md.same(&md.clone()));
    assert!(!md.same(&mp));
    assert_eq!(Root::default(), Root { children: vec![] });
}
