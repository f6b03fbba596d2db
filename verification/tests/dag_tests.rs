use device_scanner::assemble::{add, add_shared_edges, dag_of_hosts, into_dag, populate_parents};
use device_scanner::dag::{
    get_all_node_children, get_all_node_parents, get_children, get_device, get_parents,
    get_shared, get_shared_and_self, is_child, is_dataset, is_lv, is_md, is_mpath, is_pool, Dag,
    Edge,
};
use device_scanner::db;
use device_scanner::error::Error;
use device_scanner::hosts::{get_active_hosts, get_distinct_hosts, get_hosts_from_scsi};
use device_scanner::node::{
    Dataset, Device, DeviceType, Host, LogicalVolume, MdRaid, Mpath, Partition, ScsiDevice,
    Serial, VolumeGroup, Zpool,
};
use device_scanner::records::{host_uses, into_db_records, record_at};

struct DevGraph(pub Dag);

impl DevGraph {
    fn new() -> Self {
        DevGraph(Dag::new())
    }
    fn create_host(&mut self, s: &str) -> (Host, usize) {
        let device = Host(s.to_string());
        let nx = self.0.add_node(Device::Host(device.clone()));

        (device, nx)
    }
    fn add_shared(&mut self, a: usize, b: usize) -> Result<usize, Error> {
        self.0.update_edge(a, b, Edge::Shared)
    }
    fn add_child(&mut self, x: usize, device: Device) -> Result<usize, Error> {
        let (_, nx) = self.0.add_child(x, Edge::Parent, device)?;

        Ok(nx)
    }
    fn add_child_of_all(&mut self, xs: Vec<usize>, device: Device) -> Result<usize, Error> {
        let n = self.0.add_node(device);

        for x in xs {
            self.0.update_edge(x, n, Edge::Parent)?;
        }

        Ok(n)
    }
}

fn names(mut hosts: Vec<Host>) -> Vec<String> {
    hosts.sort();
    hosts.into_iter().map(|h| h.0).collect()
}

fn sorted(mut xs: Vec<usize>) -> Vec<usize> {
    xs.sort();
    xs
}

#[test]
fn is_scsi() {
    let scsi = Device::ScsiDevice(Default::default());

    let result = device_scanner::dag::is_scsi(&scsi);

    assert_eq!(result, true);
}

#[test]
fn is_not_scsi() {
    let scsi = Device::VolumeGroup(Default::default());

    let result = device_scanner::dag::is_scsi(&scsi);

    assert_eq!(result, false);
}

#[test]
fn is_partition() {
    let mut partition: Partition = Default::default();

    let parent = (DeviceType::ScsiDevice, Serial("3".to_string()));

    partition.parents.push(parent.clone());

    let result = device_scanner::dag::is_partition(&Device::Partition(partition), &parent);

    assert_eq!(result, true);
}

#[test]
fn is_not_partition() {
    let parent = (DeviceType::ScsiDevice, Serial("3".to_string()));

    let result =
        device_scanner::dag::is_partition(&Device::ScsiDevice(Default::default()), &parent);

    assert_eq!(result, false);
}

#[test]
fn is_vg() {
    let mut vg: VolumeGroup = Default::default();

    let parent = (DeviceType::Mpath, Serial("3".into()));

    vg.parents.push(parent.clone());

    let result = device_scanner::dag::is_vg(&Device::VolumeGroup(vg), &parent);

    assert_eq!(result, true);
}

fn numbered(n: i32) -> Device {
    Device::Host(Host(n.to_string()))
}

#[test]
fn adder() -> Result<(), Error> {
    let mut left = Dag::new();
    let one = left.add_node(numbered(1));
    let two = left.add_node(numbered(2));
    left.update_edge(one, two, Edge::Parent)?;

    let mut right = Dag::new();
    let three = right.add_node(numbered(3));
    let four = right.add_node(numbered(4));
    right.update_edge(three, four, Edge::Parent)?;

    let left = add(left, &right, three)?;

    let mut expected = Dag::new();
    let one = expected.add_node(numbered(1));
    let two = expected.add_node(numbered(2));
    expected.update_edge(one, two, Edge::Parent)?;
    let three = expected.add_node(numbered(3));
    let four = expected.add_node(numbered(4));
    expected.update_edge(three, four, Edge::Parent)?;

    let mut weights = vec![];
    for i in 0..left.node_count() {
        weights.push(get_device(&left, i)?.clone());
    }
    assert_eq!(weights, vec![numbered(1), numbered(2), numbered(3), numbered(4)]);

    assert_eq!(left.edges(), expected.edges());
    assert!(expected.edges().contains(&(one, two, Edge::Parent)));
    assert!(expected.edges().contains(&(three, four, Edge::Parent)));

    Ok(())
}

#[test]
fn add_leaves_out_the_edges_that_the_root_does_not_reach() -> Result<(), Error> {
    let mut right = Dag::new();
    let a = right.add_node(numbered(1));
    let b = right.add_node(numbered(2));
    let c = right.add_node(numbered(3));
    let d = right.add_node(numbered(4));
    right.update_edge(a, b, Edge::Parent)?;
    right.update_edge(c, d, Edge::Shared)?;

    let mut left = Dag::new();
    left.add_node(numbered(0));
    let out = add(left, &right, a)?;

    assert_eq!(out.node_count(), 5);
    assert_eq!(out.edges(), vec![(1, 2, Edge::Parent)]);
    Ok(())
}

#[test]
fn add_of_an_unknown_root_is_node_not_found() {
    let mut right = Dag::new();
    right.add_node(numbered(1));
    assert_eq!(add(Dag::new(), &right, 1).err(), Some(Error::NodeNotFound));
}

#[test]
fn test_get_distinct_hosts() -> Result<(), Error> {
    let mut dag = DevGraph::new();

    let (device1, host1) = dag.create_host("host1");
    let (device2, host2) = dag.create_host("host2");

    let scsi1 = dag.add_child(host1, Device::ScsiDevice(Default::default()))?;

    let scsi2 = dag.add_child(host2, Device::ScsiDevice(Default::default()))?;

    dag.add_shared(scsi1, scsi2)?;

    let actual = get_distinct_hosts(&dag.0, scsi1)?;

    assert_eq!(names(vec![device1, device2]), names(actual));

    Ok(())
}

fn two_hosts_one_lv() -> Result<(DevGraph, Host, usize, Device), Error> {
    let mut dag = DevGraph::new();

    let (_, host1) = dag.create_host("host1");
    let (device2, host2) = dag.create_host("host2");

    let scsi1 = dag.add_child(host1, Device::ScsiDevice(Default::default()))?;
    let scsi2 = dag.add_child(host2, Device::ScsiDevice(Default::default()))?;
    dag.add_shared(scsi1, scsi2)?;

    let scsi3 = dag.add_child(host2, Device::ScsiDevice(Default::default()))?;

    let mpath1 = dag.add_child(scsi1, Device::Mpath(Default::default()))?;
    let mpath2 = dag.add_child(scsi2, Device::Mpath(Default::default()))?;
    dag.add_shared(mpath1, mpath2)?;

    let partition = dag.add_child(scsi3, Device::Partition(Default::default()))?;

    let vg = dag.add_child_of_all(
        vec![mpath2, partition],
        Device::VolumeGroup(Default::default()),
    )?;

    let lv_device = Device::LogicalVolume(Default::default());
    let lv = dag.add_child(vg, lv_device.clone())?;

    Ok((dag, device2, lv, lv_device))
}

#[test]
fn test_get_distinct_hosts_one_host() -> Result<(), Error> {
    let (dag, device2, lv, _) = two_hosts_one_lv()?;

    let actual = get_distinct_hosts(&dag.0, lv)?;

    assert_eq!(names(vec![device2]), names(actual));

    Ok(())
}

#[test]
fn test_into_device_set() -> Result<(), Error> {
    let (dag, _, _, _) = two_hosts_one_lv()?;

    let inner = &dag.0;

    let result = into_db_records(inner)?;

    assert_eq!(
        vec![(
            vec![db::DeviceHost {
                device_type: "logical volume".to_string(),
                device_serial: "".to_string(),
                host_fqdn: "host2".to_string(),
                paths: vec![],
                mount_path: None,
                is_active: true
            }],
            db::Device {
                device_type: "logical volume".to_string(),
                serial: "".to_string(),
                size: 0,
                fs_type: None
            }
        )],
        result
    );

    Ok(())
}

#[test]
fn active_hosts_are_the_hosts_above() -> Result<(), Error> {
    let (dag, device2, lv, _) = two_hosts_one_lv()?;
    assert_eq!(names(get_active_hosts(&dag.0, lv)?), names(vec![device2]));
    assert_eq!(get_active_hosts(&dag.0, 99).err(), Some(Error::NodeNotFound));
    assert_eq!(get_distinct_hosts(&dag.0, 99).err(), Some(Error::NodeNotFound));
    Ok(())
}

#[test]
fn neighbours_follow_the_kind_of_the_edge() -> Result<(), Error> {
    let mut dag = DevGraph::new();
    let (_, h1) = dag.create_host("host1");
    let (_, h2) = dag.create_host("host2");
    let s1 = dag.add_child(h1, Device::ScsiDevice(Default::default()))?;
    let s2 = dag.add_child(h2, Device::ScsiDevice(Default::default()))?;
    dag.add_shared(s1, s2)?;
    let p = dag.add_child(s2, Device::Partition(Default::default()))?;

    assert_eq!(get_parents(&dag.0, s1), vec![h1]);
    assert_eq!(get_parents(&dag.0, h1), Vec::<usize>::new());
    assert_eq!(get_children(&dag.0, s2), vec![p]);
    assert_eq!(get_children(&dag.0, s1), Vec::<usize>::new());
    assert_eq!(get_shared(&dag.0, s1), vec![s2]);
    assert_eq!(get_shared(&dag.0, s2), vec![s1]);
    assert_eq!(get_shared(&dag.0, p), Vec::<usize>::new());
    assert_eq!(sorted(get_shared_and_self(&dag.0, s1)), vec![s1, s2]);
    assert_eq!(get_all_node_children(&dag.0, s1), vec![p]);
    assert_eq!(sorted(get_all_node_parents(&dag.0, s1)), vec![h1, h2]);
    Ok(())
}

#[test]
fn a_scsi_device_below_something_else_has_no_host() -> Result<(), Error> {
    let mut dag = DevGraph::new();
    let (_, h1) = dag.create_host("host1");
    let s1 = dag.add_child(h1, Device::ScsiDevice(Default::default()))?;
    let s2 = dag.add_child(s1, Device::ScsiDevice(Default::default()))?;
    assert_eq!(names(get_hosts_from_scsi(&dag.0, s1)?), vec!["host1".to_string()]);
    assert_eq!(get_hosts_from_scsi(&dag.0, s2).err(), Some(Error::HostNotFound));
    assert_eq!(get_distinct_hosts(&dag.0, s2).err(), Some(Error::HostNotFound));
    assert_eq!(host_uses(&dag.0, s2).err(), Some(Error::HostNotFound));
    assert_eq!(into_db_records(&dag.0).err(), Some(Error::HostNotFound));
    Ok(())
}

#[test]
fn a_device_without_scsi_ancestor_has_no_distinct_host() -> Result<(), Error> {
    let mut dag = DevGraph::new();
    let (_, h1) = dag.create_host("host1");
    let pool = dag.add_child(h1, Device::Zpool(Default::default()))?;
    assert_eq!(get_distinct_hosts(&dag.0, pool)?, vec![]);
    assert_eq!(names(get_active_hosts(&dag.0, pool)?), vec!["host1".to_string()]);
    Ok(())
}

#[test]
fn a_device_that_no_host_can_use_gives_no_record() -> Result<(), Error> {
    let mut dag = DevGraph::new();
    let (_, h1) = dag.create_host("host1");
    let pool = dag.add_child(h1, Device::Zpool(Default::default()))?;
    assert_eq!(record_at(&dag.0, pool)?.0.len(), 1);
    assert_eq!(into_db_records(&dag.0)?, vec![]);
    Ok(())
}

#[test]
fn update_edge_refuses_a_cycle_and_leaves_the_graph() -> Result<(), Error> {
    let mut dag = Dag::new();
    let a = dag.add_node(numbered(1));
    let b = dag.add_node(numbered(2));
    let c = dag.add_node(numbered(3));
    assert_eq!(dag.update_edge(a, b, Edge::Parent)?, 0);
    assert_eq!(dag.update_edge(b, c, Edge::Parent)?, 1);
    let before = dag.edges();

    assert_eq!(dag.update_edge(c, a, Edge::Parent), Err(Error::GraphCycle));
    assert_eq!(dag.update_edge(a, a, Edge::Shared), Err(Error::GraphCycle));
    assert_eq!(dag.update_edge(a, 3, Edge::Parent), Err(Error::NodeNotFound));
    assert_eq!(dag.edges(), before);

    assert_eq!(dag.update_edge(a, b, Edge::Shared)?, 0);
    assert_eq!(dag.edges(), vec![(a, b, Edge::Shared), (b, c, Edge::Parent)]);
    assert_eq!(dag.update_edge(a, c, Edge::Parent)?, 2);
    Ok(())
}

#[test]
fn add_child_of_an_unknown_parent_is_node_not_found() {
    let mut dag = Dag::new();
    assert_eq!(dag.add_child(0, Edge::Parent, numbered(1)), Err(Error::NodeNotFound));
    assert_eq!(dag.node_count(), 0);
    assert_eq!(get_device(&dag, 0).err(), Some(Error::NodeNotFound));
}

#[test]
fn edge_kinds() {
    assert!(Edge::Shared.is_shared());
    assert!(!Edge::Shared.is_parent());
    assert!(Edge::Parent.is_parent());
    assert!(!Edge::Parent.is_shared());
}

fn scsi(serial: &str) -> Device {
    Device::ScsiDevice(ScsiDevice { serial: Serial(serial.to_string()), ..Default::default() })
}

fn key(t: DeviceType, serial: &str) -> (DeviceType, Serial) {
    (t, Serial(serial.to_string()))
}

fn partition(serial: &str, parent: (DeviceType, Serial)) -> Device {
    Device::Partition(Partition {
        serial: Serial(serial.to_string()),
        parents: vec![parent],
        ..Default::default()
    })
}

fn vg(serial: &str, parent: (DeviceType, Serial)) -> Device {
    Device::VolumeGroup(VolumeGroup {
        serial: Serial(serial.to_string()),
        parents: vec![parent],
        ..Default::default()
    })
}

fn lv(serial: &str, parent: (DeviceType, Serial)) -> Device {
    Device::LogicalVolume(LogicalVolume {
        serial: Serial(serial.to_string()),
        parent,
        ..Default::default()
    })
}

fn zpool(serial: &str, parent: (DeviceType, Serial)) -> Device {
    Device::Zpool(Zpool {
        serial: Serial(serial.to_string()),
        parents: vec![parent],
        ..Default::default()
    })
}

fn dataset(serial: &str, pool_serial: &str) -> Device {
    Device::Dataset(Dataset {
        serial: Serial(serial.to_string()),
        pool_serial: Serial(pool_serial.to_string()),
        name: serial.to_string(),
        ..Default::default()
    })
}

#[test]
fn the_rules_say_who_is_layered_on_whom() {
    let host = Device::Host(Host("h".to_string()));
    let disk = scsi("S1");
    let part = partition("S1p1", key(DeviceType::ScsiDevice, "S1"));
    let group = vg("vg1", key(DeviceType::Partition, "S1p1"));
    let volume = lv("lv1", key(DeviceType::VolumeGroup, "vg1"));
    let pool = zpool("G", key(DeviceType::ScsiDevice, "S1"));
    let ds = dataset("G/ost0", "G");
    let mpath = Device::Mpath(Mpath {
        serial: Serial("M".to_string()),
        parents: vec![key(DeviceType::ScsiDevice, "S1")],
        ..Default::default()
    });
    let md = Device::MdRaid(MdRaid {
        serial: Serial("md0".to_string()),
        parents: vec![key(DeviceType::Mpath, "M")],
        ..Default::default()
    });

    assert!(is_child(&host, &disk));
    assert!(!is_child(&host, &part));
    assert!(is_child(&disk, &part));
    assert!(is_child(&disk, &mpath));
    assert!(is_child(&disk, &pool));
    assert!(!is_child(&disk, &group));
    assert!(is_child(&part, &group));
    assert!(!is_child(&part, &mpath));
    assert!(is_child(&group, &volume));
    assert!(!is_child(&volume, &group));
    assert!(is_child(&mpath, &md));
    assert!(is_child(&pool, &ds));
    assert!(!is_child(&pool, &dataset("x", "other")));
    assert!(!is_child(&ds, &pool));

    assert!(is_mpath(&mpath, &key(DeviceType::ScsiDevice, "S1")));
    assert!(is_md(&md, &key(DeviceType::Mpath, "M")));
    assert!(is_lv(&volume, &key(DeviceType::VolumeGroup, "vg1")));
    assert!(!is_lv(&volume, &key(DeviceType::VolumeGroup, "vg2")));
    assert!(is_pool(&pool, &key(DeviceType::ScsiDevice, "S1")));
    assert!(is_dataset(&ds, &Serial("G".to_string())));
    assert!(!is_dataset(&pool, &Serial("G".to_string())));
}

fn hosts(entries: Vec<(&str, Vec<Device>)>) -> Vec<(String, Vec<Device>)> {
    entries.into_iter().map(|(h, ds)| (h.to_string(), ds)).collect()
}

#[test]
fn two_hosts_share_one_scsi_lun() -> Result<(), Error> {
    let dag = dag_of_hosts(&hosts(vec![("h1", vec![scsi("S1")]), ("h2", vec![scsi("S1")])]))?;

    assert_eq!(dag.node_count(), 4);
    assert_eq!(
        dag.edges(),
        vec![(0, 1, Edge::Parent), (2, 3, Edge::Parent), (1, 3, Edge::Shared)]
    );
    assert_eq!(names(get_distinct_hosts(&dag, 1)?), vec!["h1".to_string(), "h2".to_string()]);

    let records = into_db_records(&dag)?;
    assert_eq!(records.len(), 1);
    let (rows, device) = &records[0];
    assert_eq!(
        device,
        &db::Device {
            device_type: "scsi".to_string(),
            serial: "S1".to_string(),
            size: 0,
            fs_type: None
        }
    );
    let mut seen: Vec<(String, bool)> =
        rows.iter().map(|r| (r.host_fqdn.clone(), r.is_active)).collect();
    seen.sort();
    assert_eq!(seen, vec![("h1".to_string(), true), ("h2".to_string(), true)]);
    Ok(())
}

#[test]
fn a_pool_that_one_of_two_peers_imported() -> Result<(), Error> {
    let dag = dag_of_hosts(&hosts(vec![
        ("h1", vec![scsi("S1")]),
        (
            "h2",
            vec![
                scsi("S1"),
                zpool("G", key(DeviceType::ScsiDevice, "S1")),
                dataset("G/ost0", "G"),
            ],
        ),
    ]))?;

    let ds = 5;
    assert_eq!(get_device(&dag, ds)?, &dataset("G/ost0", "G"));
    assert_eq!(names(get_active_hosts(&dag, ds)?), vec!["h2".to_string()]);
    assert_eq!(names(get_distinct_hosts(&dag, ds)?), vec!["h1".to_string(), "h2".to_string()]);

    let (rows, device) = record_at(&dag, ds)?;
    assert_eq!(device.device_type, "dataset");
    let mut seen: Vec<(String, bool)> =
        rows.iter().map(|r| (r.host_fqdn.clone(), r.is_active)).collect();
    seen.sort();
    assert_eq!(seen, vec![("h1".to_string(), false), ("h2".to_string(), true)]);

    let uses = host_uses(&dag, ds)?;
    assert_eq!(
        uses,
        vec![
            db::HostUse::Active(Host("h2".to_string())),
            db::HostUse::Inactive(Host("h1".to_string()))
        ]
    );
    Ok(())
}

#[test]
fn a_logical_volume_on_a_volume_group_on_a_partition() -> Result<(), Error> {
    let dag = dag_of_hosts(&hosts(vec![(
        "host",
        vec![
            lv("lv1", key(DeviceType::VolumeGroup, "vg1")),
            vg("vg1", key(DeviceType::Partition, "S1p1")),
            partition("S1p1", key(DeviceType::ScsiDevice, "S1")),
            scsi("S1"),
        ],
    )]))?;

    let mut edges = dag.edges();
    edges.sort_by_key(|e| (e.0, e.1));
    assert_eq!(
        edges,
        vec![
            (0, 4, Edge::Parent),
            (2, 1, Edge::Parent),
            (3, 2, Edge::Parent),
            (4, 3, Edge::Parent)
        ]
    );

    let records = into_db_records(&dag)?;
    assert_eq!(records.len(), 1);
    assert_eq!(records[0].1.device_type, "logical volume");
    assert_eq!(records[0].1.serial, "lv1");
    assert_eq!(records[0].0.len(), 1);
    assert_eq!(records[0].0[0].host_fqdn, "host");
    assert!(records[0].0[0].is_active);
    Ok(())
}

#[test]
fn every_two_nodes_with_one_key_share_an_edge_and_no_others() -> Result<(), Error> {
    let dag = dag_of_hosts(&hosts(vec![
        ("h1", vec![scsi("A"), scsi("B")]),
        ("h2", vec![scsi("A")]),
        ("h3", vec![scsi("A"), scsi("C")]),
    ]))?;
    let n = dag.node_count();
    for a in 0..n {
        let shared = sorted(get_shared(&dag, a));
        let mut same_key = vec![];
        for b in 0..n {
            if a != b && get_device(&dag, a)?.as_parent() == get_device(&dag, b)?.as_parent() {
                same_key.push(b);
            }
        }
        assert_eq!(shared, same_key, "node {}", a);
    }
    assert_eq!(sorted(get_shared(&dag, 1)), vec![4, 6]);
    Ok(())
}

#[test]
fn a_device_that_is_layered_on_itself_is_a_cycle() {
    let looped = Device::Partition(Partition {
        serial: Serial("P".to_string()),
        parents: vec![key(DeviceType::ScsiDevice, "S1"), key(DeviceType::Partition, "P")],
        ..Default::default()
    });
    let r = dag_of_hosts(&hosts(vec![("h1", vec![scsi("S1"), looped])]));
    assert_eq!(r.err(), Some(Error::GraphCycle));
}

#[test]
fn two_devices_that_are_layered_on_each_other_are_a_cycle() {
    let a = Device::MdRaid(MdRaid {
        serial: Serial("a".to_string()),
        parents: vec![key(DeviceType::ScsiDevice, "S1"), key(DeviceType::MdRaid, "b")],
        ..Default::default()
    });
    let b = Device::MdRaid(MdRaid {
        serial: Serial("b".to_string()),
        parents: vec![key(DeviceType::MdRaid, "a")],
        ..Default::default()
    });
    let r = dag_of_hosts(&hosts(vec![("h1", vec![scsi("S1"), a, b])]));
    assert_eq!(r.err(), Some(Error::GraphCycle));
}

#[test]
fn a_device_that_nothing_leads_to_gets_no_edge_from_a_cycle_free_host() -> Result<(), Error> {
    let a = Device::MdRaid(MdRaid {
        serial: Serial("a".to_string()),
        parents: vec![key(DeviceType::MdRaid, "a")],
        ..Default::default()
    });
    let dag = dag_of_hosts(&hosts(vec![("h1", vec![scsi("S1"), a])]))?;
    assert_eq!(dag.edges(), vec![(0, 1, Edge::Parent)]);
    Ok(())
}

#[test]
fn a_pool_on_no_device_of_the_host_is_still_a_node() -> Result<(), Error> {
    let lonely = zpool("G", key(DeviceType::ScsiDevice, "elsewhere"));
    let dag = dag_of_hosts(&hosts(vec![("h1", vec![scsi("S1"), lonely.clone()])]))?;
    assert_eq!(dag.node_count(), 3);
    assert_eq!(get_device(&dag, 2)?, &lonely);
    assert_eq!(get_parents(&dag, 2), Vec::<usize>::new());
    assert_eq!(dag.edges(), vec![(0, 1, Edge::Parent)]);
    let records = into_db_records(&dag)?;
    assert_eq!(records.len(), 1);
    assert_eq!(records[0].1.device_type, "scsi");
    Ok(())
}

#[test]
fn the_other_devices_keep_their_edges_beside_a_pool_that_nothing_holds() -> Result<(), Error> {
    let lonely = zpool("G", key(DeviceType::ScsiDevice, "elsewhere"));
    let with = dag_of_hosts(&hosts(vec![
        ("h1", vec![scsi("S1"), lonely, dataset("G/ost0", "G"), partition("P", key(DeviceType::ScsiDevice, "S1"))]),
        ("h2", vec![scsi("S1")]),
    ]))?;
    let without = dag_of_hosts(&hosts(vec![
        ("h1", vec![scsi("S1"), dataset("G/ost0", "G"), partition("P", key(DeviceType::ScsiDevice, "S1"))]),
        ("h2", vec![scsi("S1")]),
    ]))?;
    let pool = 2;
    assert!(with.edges().iter().all(|e| e.0 != pool && e.1 != pool));
    let back = |v: usize| if v > pool { v - 1 } else { v };
    let mut moved: Vec<(usize, usize, Edge)> =
        with.edges().into_iter().map(|e| (back(e.0), back(e.1), e.2)).collect();
    moved.sort_by_key(|e| (e.0, e.1));
    let mut plain = without.edges();
    plain.sort_by_key(|e| (e.0, e.1));
    assert_eq!(moved, plain);
    assert_eq!(
        plain,
        vec![
            (0, 1, Edge::Parent),
            (1, 3, Edge::Parent),
            (1, 5, Edge::Shared),
            (4, 5, Edge::Parent)
        ]
    );
    Ok(())
}

#[test]
fn into_dag_takes_the_hosts_of_a_map() -> Result<(), Error> {
    let mut x = std::collections::HashMap::new();
    x.insert(
        "h1".to_string(),
        im::HashSet::unit(scsi("S1")).update(partition("P", key(DeviceType::ScsiDevice, "S1"))),
    );
    x.insert("h2".to_string(), im::HashSet::unit(scsi("S1")));
    let dag = into_dag(x)?;
    assert_eq!(dag.node_count(), 5);
    let edges = dag.edges();
    assert_eq!(edges.iter().filter(|e| e.2 == Edge::Parent).count(), 3);
    assert_eq!(edges.iter().filter(|e| e.2 == Edge::Shared).count(), 1);
    let records = into_db_records(&dag)?;
    assert_eq!(records.len(), 1);
    assert_eq!(records[0].1.device_type, "partition");
    let mut seen: Vec<(String, bool)> =
        records[0].0.iter().map(|r| (r.host_fqdn.clone(), r.is_active)).collect();
    seen.sort();
    assert_eq!(seen, vec![("h1".to_string(), true), ("h2".to_string(), true)]);
    Ok(())
}

#[test]
fn populate_parents_adds_the_edges_below_the_node() -> Result<(), Error> {
    let mut dag = Dag::new();
    let h = dag.add_node(Device::Host(Host("h".to_string())));
    let s = dag.add_node(scsi("S1"));
    let p = dag.add_node(partition("P", key(DeviceType::ScsiDevice, "S1")));
    let other = dag.add_node(partition("Q", key(DeviceType::ScsiDevice, "S2")));
    populate_parents(&mut dag, s)?;
    assert_eq!(dag.edges(), vec![(s, p, Edge::Parent)]);
    populate_parents(&mut dag, h)?;
    assert_eq!(dag.edges(), vec![(s, p, Edge::Parent), (h, s, Edge::Parent)]);
    assert_eq!(get_parents(&dag, other), Vec::<usize>::new());
    assert_eq!(populate_parents(&mut dag, 9), Err(Error::NodeNotFound));
    Ok(())
}

#[test]
fn add_shared_edges_turns_a_parent_edge_between_twins_into_a_shared_one() -> Result<(), Error> {
    let mut dag = Dag::new();
    let a = dag.add_node(scsi("S1"));
    let b = dag.add_node(scsi("S1"));
    dag.update_edge(a, b, Edge::Parent)?;
    add_shared_edges(&mut dag)?;
    assert_eq!(dag.edges(), vec![(a, b, Edge::Shared)]);
    Ok(())
}

#[test]
fn three_nodes_for_one_device_share_three_edges_each_stored_once() -> Result<(), Error> {
    let mut dag = Dag::new();
    let a = dag.add_node(scsi("S1"));
    let other = dag.add_node(scsi("S2"));
    let b = dag.add_node(scsi("S1"));
    let c = dag.add_node(scsi("S1"));
    add_shared_edges(&mut dag)?;
    let mut edges = dag.edges();
    edges.sort_by_key(|e| (e.0, e.1));
    assert_eq!(
        edges,
        vec![(a, b, Edge::Shared), (a, c, Edge::Shared), (b, c, Edge::Shared)]
    );
    assert_eq!(get_shared(&dag, other), Vec::<usize>::new());
    // a second pass finds every edge in its place and adds none
    add_shared_edges(&mut dag)?;
    assert_eq!(dag.edges().len(), 3);
    Ok(())
}

#[test]
fn an_edge_that_is_there_takes_the_new_kind_in_its_place() -> Result<(), Error> {
    let mut dag = Dag::new();
    let a = dag.add_node(scsi("S1"));
    let b = dag.add_node(scsi("S2"));
    dag.update_edge(a, b, Edge::Parent)?;
    dag.update_edge(a, b, Edge::Shared)?;
    dag.update_edge(a, b, Edge::Shared)?;
    assert_eq!(dag.edges(), vec![(a, b, Edge::Shared)]);
    Ok(())
}

#[test]
fn add_shared_edges_fails_where_the_twins_are_joined_the_other_way() -> Result<(), Error> {
    let mut dag = Dag::new();
    let a = dag.add_node(scsi("S1"));
    let b = dag.add_node(scsi("S1"));
    dag.update_edge(b, a, Edge::Parent)?;
    assert_eq!(add_shared_edges(&mut dag), Err(Error::GraphCycle));
    Ok(())
}

#[test]
fn a_host_or_a_volume_group_at_the_bottom_is_no_record() -> Result<(), Error> {
    let mut dag = DevGraph::new();
    let (_, h1) = dag.create_host("host1");
    let s = dag.add_child(h1, Device::ScsiDevice(Default::default()))?;
    let group = dag.add_child(s, Device::VolumeGroup(Default::default()))?;
    assert_eq!(host_uses(&dag.0, group).err(), Some(Error::UnmountableRecord));
    assert_eq!(host_uses(&dag.0, h1).err(), Some(Error::UnmountableRecord));
    assert_eq!(host_uses(&dag.0, 17).err(), Some(Error::NodeNotFound));
    assert_eq!(into_db_records(&dag.0).err(), Some(Error::UnmountableRecord));
    assert_eq!(
        db::create_records_from_device_and_hosts(&Device::VolumeGroup(Default::default()), &vec![])
            .err(),
        Some(Error::UnmountableRecord)
    );
    Ok(())
}

#[test]
fn a_record_carries_what_the_device_carries() -> Result<(), Error> {
    let d = Device::Mpath(Mpath {
        serial: Serial("M1".to_string()),
        size: 4096,
        filesystem_type: Some("ext4".to_string()),
        paths: vec!["/dev/mapper/mpatha".to_string()],
        mount_path: Some("/mnt/a".to_string()),
        parents: vec![],
    });
    let (rows, device) = db::create_records_from_device_and_hosts(
        &d,
        &vec![
            db::HostUse::Active(Host("h1".to_string())),
            db::HostUse::Inactive(Host("h2".to_string())),
            db::HostUse::Active(Host("h1".to_string())),
        ],
    )?;
    assert_eq!(
        device,
        db::Device::new(
            4096,
            &DeviceType::Mpath,
            &Serial("M1".to_string()),
            &Some("ext4".to_string())
        )
    );
    assert_eq!(device.device_type, "mpath");
    assert_eq!(
        rows,
        vec![
            db::DeviceHost::new(
                &vec!["/dev/mapper/mpatha".to_string()],
                &Host("h1".to_string()),
                &DeviceType::Mpath,
                &Serial("M1".to_string()),
                &Some("/mnt/a".to_string()),
                true
            ),
            db::DeviceHost {
                device_type: "mpath".to_string(),
                device_serial: "M1".to_string(),
                host_fqdn: "h2".to_string(),
                paths: vec!["/dev/mapper/mpatha".to_string()],
                mount_path: Some("/mnt/a".to_string()),
                is_active: false
            }
        ]
    );
    Ok(())
}

#[test]
fn the_names_of_the_kinds() {
    let names: Vec<String> = [
        DeviceType::Host,
        DeviceType::ScsiDevice,
        DeviceType::Partition,
        DeviceType::MdRaid,
        DeviceType::Mpath,
        DeviceType::VolumeGroup,
        DeviceType::LogicalVolume,
        DeviceType::Zpool,
        DeviceType::Dataset,
    ]
    .iter()
    .map(|t| t.to_string())
    .collect();
    assert_eq!(
        names,
        vec![
            "host",
            "scsi",
            "partition",
            "mdraid",
            "mpath",
            "volume group",
            "logical volume",
            "zpool",
            "dataset"
        ]
    );
}
