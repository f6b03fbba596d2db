use device_scanner::error::Error;
use device_scanner::mount::{BdevPath, FsType, Mount, MountCommand, MountOpts, MountPoint};
use device_scanner::pool::{Dataset, Pool, VDev, ZProp};
use device_scanner::reducers::mount::update_mount;
use device_scanner::reducers::udev::update_udev;
use device_scanner::reducers::zed::{
    guid_to_u64, into_zed_events, take_pool, update_prop, update_zed_events,
};
use device_scanner::state::State;
use device_scanner::udev::UdevCommand;
use device_scanner::uevent::UEvent;
use device_scanner::zed::{prop, zfs, zpool, PoolCommand};

fn create_path_buf(s: &str) -> String {
    s.to_string()
}

fn mpath_partition_event() -> UEvent {
    UEvent {
        major: "253".to_string(),
        minor: "20".to_string(),
        seqnum: 3547,
        paths: vec![
            create_path_buf(
                "/dev/disk/by-id/dm-uuid-part1-mpath-3600140550e41a841db244a992c31e7df",
            ),
            create_path_buf("/dev/mapper/mpathd1"),
            create_path_buf("/dev/disk/by-uuid/b4550256-cf48-4013-8363-bfee5f52da12"),
            create_path_buf("/dev/disk/by-partuuid/d643e32f-b6b9-4863-af8f-8950376e28da"),
            create_path_buf("/dev/dm-20"),
            create_path_buf("/dev/disk/by-id/dm-name-mpathd1"),
        ],
        devname: create_path_buf("/dev/dm-20"),
        devpath: create_path_buf("/devices/virtual/block/dm-20"),
        devtype: "disk".to_string(),
        vendor: None,
        model: None,
        serial: None,
        fs_type: Some("ext4".to_string()),
        fs_usage: Some("filesystem".to_string()),
        fs_uuid: Some("b4550256-cf48-4013-8363-bfee5f52da12".to_string()),
        fs_label: None,
        part_entry_number: Some(1),
        part_entry_mm: Some("253:13".to_string()),
        size: Some(100_651_008),
        scsi80: Some(
            "SLIO-ORG ost12           50e41a84-1db2-44a9-92c3-1e7dfad48fce".to_string(),
        ),
        scsi83: Some("3600140550e41a841db244a992c31e7df".to_string()),
        read_only: Some(false),
        bios_boot: None,
        zfs_reserved: None,
        is_mpath: None,
        dm_slave_mms: vec!["253:13".to_string()],
        dm_vg_size: Some(0),
        md_devs: vec![],
        dm_multipath_devpath: None,
        dm_name: Some("mpathd1".to_string()),
        dm_lv_name: None,
        lv_uuid: None,
        dm_vg_name: None,
        vg_uuid: None,
        md_uuid: None,
    }
}

fn check_udev_update() {
    let ev = mpath_partition_event();

    let mut ev2 = ev.clone();
    ev2.size = Some(100_651_001);

    let uevents = im::HashMap::new().update(ev.devpath.clone(), ev.clone());

    let add_cmd = UdevCommand::Add(ev.clone());

    let uevents = update_udev(&uevents, add_cmd);

    assert_eq!(
        im::HashMap::new().update(ev.devpath.clone(), ev.clone()),
        uevents
    );

    let change_cmd = UdevCommand::Change(ev2.clone());

    let uevents = update_udev(&uevents, change_cmd);

    assert_eq!(
        im::HashMap::new().update(ev.devpath.clone(), ev2.clone()),
        uevents
    );

    let remove_cmd = UdevCommand::Remove(ev2.clone());

    let uevents = update_udev(&uevents, remove_cmd);

    assert_eq!(im::HashMap::new(), uevents);
}

#[test]
fn udev_test_udev_update() {
    check_udev_update();
}

#[test]
fn state_test_udev_update() {
    check_udev_update();
}

fn check_mount_update() {
    let mounts: im::HashSet<Mount> = im::HashSet::new();

    let add_cmd = MountCommand::AddMount(
        MountPoint(create_path_buf("/mnt/part1")),
        BdevPath(create_path_buf("/dev/sde1")),
        FsType("ext4".to_string()),
        MountOpts("rw,relatime,data=ordered".to_string()),
    );

    let mounts = update_mount(mounts, add_cmd);

    assert_eq!(
        im::HashSet::unit(Mount {
            target: MountPoint(create_path_buf("/mnt/part1")),
            source: BdevPath(create_path_buf("/dev/sde1")),
            fs_type: FsType("ext4".to_string()),
            opts: MountOpts("rw,relatime,data=ordered".to_string())
        }),
        mounts
    );

    let mv_cmd = MountCommand::MoveMount(
        MountPoint(create_path_buf("/mnt/part3")),
        BdevPath(create_path_buf("/dev/sde1")),
        FsType("ext4".to_string()),
        MountOpts("rw,relatime,data=ordered".to_string()),
        MountPoint(create_path_buf("/mnt/part1")),
    );

    let mounts = update_mount(mounts, mv_cmd);

    assert_eq!(
        im::HashSet::unit(Mount {
            target: MountPoint(create_path_buf("/mnt/part3")),
            source: BdevPath(create_path_buf("/dev/sde1")),
            fs_type: FsType("ext4".to_string()),
            opts: MountOpts("rw,relatime,data=ordered".to_string())
        }),
        mounts
    );

    let replace_cmd = MountCommand::ReplaceMount(
        MountPoint(create_path_buf("/mnt/part3")),
        BdevPath(create_path_buf("/dev/sde1")),
        FsType("ext4".to_string()),
        MountOpts("r,relatime,data=ordered".to_string()),
        MountOpts("rw,relatime,data=ordered".to_string()),
    );

    let mounts = update_mount(mounts, replace_cmd);

    assert_eq!(
        im::HashSet::unit(Mount {
            target: MountPoint(create_path_buf("/mnt/part3")),
            source: BdevPath(create_path_buf("/dev/sde1")),
            fs_type: FsType("ext4".to_string()),
            opts: MountOpts("r,relatime,data=ordered".to_string())
        }),
        mounts
    );

    let rm_cmd = MountCommand::RemoveMount(
        MountPoint(create_path_buf("/mnt/part3")),
        BdevPath(create_path_buf("/dev/sde1")),
        FsType("ext4".to_string()),
        MountOpts("r,relatime,data=ordered".to_string()),
    );

    let mounts = update_mount(mounts, rm_cmd);

    assert_eq!(im::HashSet::new(), mounts);
}

#[test]
fn mount_test_mount_update() {
    check_mount_update();
}

#[test]
fn state_test_mount_update() {
    check_mount_update();
}

fn mount(target: &str, opts: &str) -> Mount {
    Mount::new(
        MountPoint(target.to_string()),
        BdevPath("/dev/sde1".to_string()),
        FsType("ext4".to_string()),
        MountOpts(opts.to_string()),
    )
}

#[test]
fn mount_new_keeps_its_four_parts() {
    let m = mount("/mnt/a", "rw");
    assert_eq!(m.target, MountPoint("/mnt/a".to_string()));
    assert_eq!(m.source, BdevPath("/dev/sde1".to_string()));
    assert_eq!(m.fs_type, FsType("ext4".to_string()));
    assert_eq!(m.opts, MountOpts("rw".to_string()));
    assert!(m.same(&mount("/mnt/a", "rw")));
    assert!(!m.same(&mount("/mnt/a", "ro")));
}

#[test]
fn add_then_remove_mount_restores_the_set() {
    let before = im::HashSet::unit(mount("/mnt/other", "rw"));
    let added = update_mount(
        before.clone(),
        MountCommand::AddMount(
            MountPoint("/mnt/a".to_string()),
            BdevPath("/dev/sde1".to_string()),
            FsType("ext4".to_string()),
            MountOpts("rw".to_string()),
        ),
    );
    assert_eq!(added.len(), 2);
    let after = update_mount(
        added,
        MountCommand::RemoveMount(
            MountPoint("/mnt/a".to_string()),
            BdevPath("/dev/sde1".to_string()),
            FsType("ext4".to_string()),
            MountOpts("rw".to_string()),
        ),
    );
    assert_eq!(after, before);
}

#[test]
fn replace_mount_leaves_exactly_the_new_options() {
    let before = im::HashSet::unit(mount("/mnt/a", "rw"));
    let after = update_mount(
        before,
        MountCommand::ReplaceMount(
            MountPoint("/mnt/a".to_string()),
            BdevPath("/dev/sde1".to_string()),
            FsType("ext4".to_string()),
            MountOpts("ro".to_string()),
            MountOpts("rw".to_string()),
        ),
    );
    assert!(after.contains(&mount("/mnt/a", "ro")));
    assert!(!after.contains(&mount("/mnt/a", "rw")));
    let matching: Vec<&Mount> = after
        .iter()
        .filter(|m| m.target.0 == "/mnt/a" && m.source.0 == "/dev/sde1" && m.fs_type.0 == "ext4")
        .collect();
    assert_eq!(matching.len(), 1);
    assert_eq!(matching[0].opts, MountOpts("ro".to_string()));
}

#[test]
fn add_mount_twice_is_adding_it_once() {
    let cmd = || {
        MountCommand::AddMount(
            MountPoint("/mnt/a".to_string()),
            BdevPath("/dev/sde1".to_string()),
            FsType("ext4".to_string()),
            MountOpts("rw".to_string()),
        )
    };
    let once = update_mount(im::HashSet::new(), cmd());
    let twice = update_mount(once.clone(), cmd());
    assert_eq!(once, twice);
}

#[test]
fn add_then_remove_uevent_restores_the_map() {
    let mut other = mpath_partition_event();
    other.devpath = "/devices/virtual/block/dm-1".to_string();
    let before = im::HashMap::new().update(other.devpath.clone(), other);
    let ev = mpath_partition_event();
    let added = update_udev(&before, UdevCommand::Add(ev.clone()));
    assert_eq!(added.len(), 2);
    let after = update_udev(&added, UdevCommand::Remove(ev));
    assert_eq!(after, before);
}

#[test]
fn change_twice_is_changing_once() {
    let ev = mpath_partition_event();
    let once = update_udev(&im::HashMap::new(), UdevCommand::Change(ev.clone()));
    let twice = update_udev(&once, UdevCommand::Change(ev));
    assert_eq!(once, twice);
}

#[test]
fn remove_of_an_unknown_device_changes_nothing() {
    let ev = mpath_partition_event();
    let after = update_udev(&im::HashMap::new(), UdevCommand::Remove(ev));
    assert!(after.is_empty());
}

fn disk(path: &str) -> VDev {
    VDev::Disk {
        guid: Some(1),
        state: "ONLINE".to_string(),
        path: path.to_string(),
        dev_id: None,
        phys_path: None,
        whole_disk: Some(true),
        is_log: None,
    }
}

fn pool(guid: u64, name: &str) -> Pool {
    Pool {
        name: name.to_string(),
        guid,
        health: "ONLINE".to_string(),
        hostname: "host1".to_string(),
        hostid: None,
        state: "ACTIVE".to_string(),
        readonly: false,
        size: "1024".to_string(),
        vdev: VDev::Root { children: vec![disk("/dev/sda")], spares: vec![], cache: vec![] },
        props: vec![],
        datasets: vec![],
    }
}

fn dataset(name: &str) -> Dataset {
    Dataset {
        name: name.to_string(),
        guid: "77".to_string(),
        kind: "filesystem".to_string(),
        props: vec![],
    }
}

fn guid(n: u64) -> zpool::Guid {
    zpool::Guid::from_u64(n)
}

#[test]
fn guid_text_is_sixteen_upper_hex_digits_after_0x() {
    assert_eq!(guid(0x1F).0, "0x000000000000001F");
    assert_eq!(guid(u64::MAX).0, "0xFFFFFFFFFFFFFFFF");
    assert_eq!(zpool::Guid::from(0xABCDEFu64).0, "0x0000000000ABCDEF");
}

#[test]
fn guid_parses_back_to_its_number() {
    assert_eq!(guid_to_u64(guid(0x1F)), Ok(0x1F));
    assert_eq!(guid_to_u64(guid(u64::MAX)), Ok(u64::MAX));
    assert_eq!(guid_to_u64(zpool::Guid("0xdeadBEEF".to_string())), Ok(0xDEAD_BEEF));
    assert_eq!(guid_to_u64(zpool::Guid("ff".to_string())), Ok(255));
    assert_eq!(guid_to_u64(zpool::Guid("0x0x10".to_string())), Ok(16));
    assert_eq!(guid_to_u64(zpool::Guid("+7".to_string())), Ok(7));
}

#[test]
fn malformed_guid_is_a_parse_error() {
    for text in ["", "0x", "xyz", "0x12G4", "-1", "+", "0x10000000000000000", "12 "] {
        assert_eq!(
            guid_to_u64(zpool::Guid(text.to_string())),
            Err(Error::ParseInt),
            "{:?}",
            text
        );
    }
}

#[test]
fn add_pools_replaces_the_map() {
    let before = im::HashMap::new().update(9, pool(9, "old"));
    let after =
        update_zed_events(before, PoolCommand::AddPools(vec![pool(1, "a"), pool(2, "b")])).unwrap();
    assert_eq!(after.len(), 2);
    assert_eq!(after.get(&1), Some(&pool(1, "a")));
    assert_eq!(after.get(&2), Some(&pool(2, "b")));
    assert_eq!(after.get(&9), None);
}

#[test]
fn into_zed_events_keeps_the_later_of_two_pools_with_one_guid() {
    let m = into_zed_events(vec![pool(1, "first"), pool(1, "second")]);
    assert_eq!(m.len(), 1);
    assert_eq!(m.get(&1).unwrap().name, "second");
}

#[test]
fn add_and_update_pool_bind_the_pool_to_its_guid() {
    let m = update_zed_events(im::HashMap::new(), PoolCommand::AddPool(pool(5, "p"))).unwrap();
    assert_eq!(m.get(&5), Some(&pool(5, "p")));
    let m = update_zed_events(m, PoolCommand::UpdatePool(pool(5, "q"))).unwrap();
    assert_eq!(m.len(), 1);
    assert_eq!(m.get(&5), Some(&pool(5, "q")));
}

#[test]
fn remove_pool_takes_the_pool_away() {
    let m = im::HashMap::new().update(5, pool(5, "p")).update(6, pool(6, "q"));
    let m = update_zed_events(m, PoolCommand::RemovePool(guid(5))).unwrap();
    assert_eq!(m.len(), 1);
    assert!(m.contains_key(&6));
}

#[test]
fn remove_of_an_unknown_pool_is_pool_not_found() {
    let m = im::HashMap::new().update(5, pool(5, "p"));
    assert_eq!(
        update_zed_events(m, PoolCommand::RemovePool(guid(6))),
        Err(Error::PoolNotFound)
    );
}

#[test]
fn take_pool_hands_the_pool_out() {
    let mut m = im::HashMap::new().update(5, pool(5, "p"));
    assert_eq!(take_pool(&mut m, 6), Err(Error::PoolNotFound));
    assert_eq!(m.len(), 1);
    assert_eq!(take_pool(&mut m, 5), Ok(pool(5, "p")));
    assert!(m.is_empty());
}

#[test]
fn add_dataset_replaces_the_one_of_the_same_name_and_keeps_the_pool() {
    let mut p = pool(5, "p");
    p.datasets = vec![dataset("p/a"), dataset("p/b")];
    let mut again = dataset("p/a");
    again.kind = "volume".to_string();
    let m = im::HashMap::new().update(5, p);
    let m = update_zed_events(m, PoolCommand::AddDataset(guid(5), again.clone())).unwrap();
    let got = m.get(&5).unwrap();
    assert_eq!(got.datasets, vec![dataset("p/b"), again]);
    assert_eq!(got.name, "p");
}

#[test]
fn add_dataset_twice_is_adding_it_once() {
    let m = im::HashMap::new().update(5, pool(5, "p"));
    let once = update_zed_events(m, PoolCommand::AddDataset(guid(5), dataset("p/a"))).unwrap();
    let twice =
        update_zed_events(once.clone(), PoolCommand::AddDataset(guid(5), dataset("p/a"))).unwrap();
    assert_eq!(once, twice);
}

#[test]
fn remove_dataset_drops_the_name() {
    let mut p = pool(5, "p");
    p.datasets = vec![dataset("p/a"), dataset("p/b")];
    let m = im::HashMap::new().update(5, p);
    let m = update_zed_events(
        m,
        PoolCommand::RemoveDataset(guid(5), zfs::Name("p/a".to_string())),
    )
    .unwrap();
    assert_eq!(m.get(&5).unwrap().datasets, vec![dataset("p/b")]);
}

fn zprop(name: &str, value: &str) -> ZProp {
    ZProp { name: name.to_string(), value: value.to_string() }
}

#[test]
fn update_prop_puts_the_new_value_last() {
    let ps = vec![zprop("a", "1"), zprop("b", "2"), zprop("a", "3")];
    assert_eq!(update_prop("a", "9", ps), vec![zprop("b", "2"), zprop("a", "9")]);
    assert_eq!(update_prop("c", "1", vec![]), vec![zprop("c", "1")]);
}

#[test]
fn set_zpool_prop_is_idempotent() {
    let mut p = pool(5, "p");
    p.props = vec![zprop("a", "1"), zprop("b", "2")];
    let m = im::HashMap::new().update(5, p);
    let cmd = || {
        PoolCommand::SetZpoolProp(
            guid(5),
            prop::Key("a".to_string()),
            prop::Value("7".to_string()),
        )
    };
    let once = update_zed_events(m, cmd()).unwrap();
    assert_eq!(once.get(&5).unwrap().props, vec![zprop("b", "2"), zprop("a", "7")]);
    let twice = update_zed_events(once.clone(), cmd()).unwrap();
    assert_eq!(once, twice);
}

#[test]
fn set_zfs_prop_changes_the_first_dataset_of_the_name() {
    let mut p = pool(5, "p");
    p.datasets = vec![dataset("p/a"), dataset("p/b")];
    let m = im::HashMap::new().update(5, p);
    let cmd = || {
        PoolCommand::SetZfsProp(
            guid(5),
            zfs::Name("p/b".to_string()),
            prop::Key("mounted".to_string()),
            prop::Value("yes".to_string()),
        )
    };
    let once = update_zed_events(m, cmd()).unwrap();
    let ds = &once.get(&5).unwrap().datasets;
    assert_eq!(ds[0], dataset("p/a"));
    assert_eq!(ds[1].props, vec![zprop("mounted", "yes")]);
    let twice = update_zed_events(once.clone(), cmd()).unwrap();
    assert_eq!(once, twice);
}

#[test]
fn set_zfs_prop_of_an_unknown_dataset_is_zfs_not_found() {
    let m = im::HashMap::new().update(5, pool(5, "p"));
    let r = update_zed_events(
        m,
        PoolCommand::SetZfsProp(
            guid(5),
            zfs::Name("p/none".to_string()),
            prop::Key("k".to_string()),
            prop::Value("v".to_string()),
        ),
    );
    assert_eq!(r, Err(Error::ZfsNotFound));
}

#[test]
fn a_malformed_guid_comes_before_an_unknown_pool() {
    let r = update_zed_events(
        im::HashMap::new(),
        PoolCommand::RemovePool(zpool::Guid("nope".to_string())),
    );
    assert_eq!(r, Err(Error::ParseInt));
}

#[test]
fn a_new_state_holds_nothing() {
    let s = State::new();
    assert!(s.uevents.is_empty());
    assert!(s.zed_events.is_empty());
    assert!(s.local_mounts.is_empty());
}
