use device_scanner::cache::{Cache, TTL_SECS};
use device_scanner::devices::{devices_alike, Device, Partition, Root, ScsiDevice};

fn tree(serial: &str) -> Device {
    Device::Root(Root {
        children: vec![Device::ScsiDevice(ScsiDevice {
            serial: serial.to_string(),
            scsi80: None,
            major: "8".to_string(),
            minor: "0".to_string(),
            devpath: "/devices/sda".to_string(),
            size: 512,
            filesystem_type: None,
            paths: vec!["/dev/sda".to_string()],
            mount_path: None,
            children: vec![],
        })],
    })
}

fn hosts(c: &Cache) -> Vec<String> {
    let mut hs: Vec<String> = c.entries().into_iter().map(|e| e.0).collect();
    hs.sort();
    hs
}

#[test]
fn the_time_to_live_is_thirty_seconds() {
    assert_eq!(TTL_SECS, 30);
}

#[test]
fn an_entry_is_gone_thirty_seconds_after_the_last_sign_of_life() {
    let mut cache = Cache::new();
    cache.flush(0);
    cache.upsert("h1", tree("S1"), 0);
    cache.flush(25);
    cache.reset("h1", 25);
    cache.flush(30);
    assert_eq!(hosts(&cache), vec!["h1".to_string()]);
    cache.flush(54);
    assert_eq!(hosts(&cache), vec!["h1".to_string()]);
    cache.flush(55);
    assert_eq!(hosts(&cache), Vec::<String>::new());
    cache.flush(56);
    assert!(cache.entries().is_empty());
}

#[test]
fn an_entry_without_a_sign_of_life_expires_at_thirty() {
    let mut cache = Cache::new();
    cache.upsert("h1", tree("S1"), 0);
    cache.flush(29);
    assert_eq!(cache.entries().len(), 1);
    cache.flush(30);
    assert_eq!(cache.entries().len(), 0);
}

#[test]
fn flush_drops_the_expired_and_keeps_the_rest() {
    let mut cache = Cache::new();
    cache.upsert("a", tree("A"), 0);
    cache.upsert("b", tree("B"), 10);
    cache.upsert("c", tree("C"), 20);
    cache.flush(40);
    assert_eq!(hosts(&cache), vec!["c".to_string()]);
}

#[test]
fn upsert_replaces_the_tree_and_resets_the_time() {
    let mut cache = Cache::new();
    cache.upsert("h1", tree("S1"), 0);
    cache.upsert("h1", tree("S2"), 20);
    assert_eq!(cache.entries(), vec![("h1".to_string(), tree("S2"))]);
    cache.flush(49);
    assert_eq!(cache.entries().len(), 1);
    cache.flush(50);
    assert_eq!(cache.entries().len(), 0);
}

#[test]
fn reset_of_an_unknown_host_does_nothing() {
    let mut cache = Cache::new();
    cache.reset("h1", 5);
    assert!(cache.entries().is_empty());
    cache.upsert("h2", tree("S"), 0);
    cache.reset("h1", 5);
    assert_eq!(hosts(&cache), vec!["h2".to_string()]);
}

#[test]
fn reset_keeps_the_tree() {
    let mut cache = Cache::new();
    cache.upsert("h1", tree("S1"), 0);
    cache.upsert("h2", tree("S2"), 0);
    cache.reset("h1", 7);
    let mut entries = cache.entries();
    entries.sort_by(|a, b| a.0.cmp(&b.0));
    assert_eq!(entries, vec![("h1".to_string(), tree("S1")), ("h2".to_string(), tree("S2"))]);
    cache.flush(30);
    assert_eq!(hosts(&cache), vec!["h1".to_string()]);
}

#[test]
fn receive_says_whether_the_trees_changed() {
    let mut cache = Cache::new();
    assert!(!cache.receive("h1", None, 0));
    assert!(cache.entries().is_empty());
    assert!(cache.receive("h1", Some(tree("S1")), 0));
    assert!(!cache.receive("h1", Some(tree("S1")), 10));
    assert!(!cache.receive("h1", None, 20));
    assert!(cache.receive("h1", Some(tree("S2")), 30));
    assert_eq!(cache.entries(), vec![("h1".to_string(), tree("S2"))]);
    cache.flush(59);
    assert_eq!(cache.entries().len(), 1);
    cache.flush(60);
    assert_eq!(cache.entries().len(), 0);
}

fn part(n: i64) -> Device {
    Device::Partition(Partition {
        partition_number: n,
        size: 256,
        major: "8".to_string(),
        minor: n.to_string(),
        devpath: format!("/devices/sda{}", n),
        filesystem_type: None,
        paths: vec![format!("/dev/sda{}", n)],
        mount_path: None,
        children: vec![],
    })
}

fn disk_with(serial: &str, children: Vec<Device>) -> Device {
    match tree(serial) {
        Device::Root(mut r) => match r.children.remove(0) {
            Device::ScsiDevice(mut s) => {
                s.children = children;
                Device::ScsiDevice(s)
            }
            other => other,
        },
        other => other,
    }
}

fn root_of(children: Vec<Device>) -> Device {
    Device::Root(Root { children })
}

#[test]
fn a_tree_with_its_children_in_another_order_has_not_changed() {
    let mut cache = Cache::new();
    let first = root_of(vec![disk_with("S1", vec![part(1), part(2)]), disk_with("S2", vec![])]);
    let turned = root_of(vec![disk_with("S2", vec![]), disk_with("S1", vec![part(2), part(1)])]);
    let twice = root_of(vec![
        disk_with("S2", vec![]),
        disk_with("S1", vec![part(2), part(1), part(2)]),
        disk_with("S2", vec![]),
    ]);
    assert!(cache.receive("h1", Some(first.clone()), 0));
    assert!(!cache.receive("h1", Some(turned.clone()), 1));
    assert_eq!(cache.entries(), vec![("h1".to_string(), turned.clone())]);
    assert!(!cache.receive("h1", Some(twice), 2));
    assert!(!cache.receive("h1", Some(first), 3));
    // the same host under another name is another entry
    assert!(cache.receive("h2", Some(turned), 4));
}

#[test]
fn a_tree_that_gains_or_loses_a_device_at_any_depth_has_changed() {
    let mut cache = Cache::new();
    let first = root_of(vec![disk_with("S1", vec![part(1), part(2)])]);
    let fewer = root_of(vec![disk_with("S1", vec![part(1)])]);
    let other = root_of(vec![disk_with("S1", vec![part(1), part(3)])]);
    let moved = root_of(vec![disk_with("S1", vec![part(1)]), part(2)]);
    assert!(cache.receive("h1", Some(first.clone()), 0));
    assert!(cache.receive("h1", Some(fewer), 1));
    assert!(cache.receive("h1", Some(first.clone()), 2));
    assert!(cache.receive("h1", Some(other), 3));
    assert!(cache.receive("h1", Some(moved), 4));
    assert!(cache.receive("h1", Some(root_of(vec![])), 5));
    assert!(cache.receive("h1", Some(first), 6));
}

#[test]
fn nodes_are_alike_where_they_hold_the_same_devices() {
    let a = disk_with("S1", vec![part(1), part(2)]);
    let b = disk_with("S1", vec![part(2), part(1), part(1)]);
    assert!(a.alike(&b));
    assert!(b.alike(&a));
    assert!(!a.same(&b));
    assert!(a.alike(&a.clone()));
    assert!(!a.alike(&disk_with("S2", vec![part(1), part(2)])));
    assert!(!a.alike(&disk_with("S1", vec![part(1)])));
    assert!(!disk_with("S1", vec![part(1)]).alike(&a));
    assert!(!a.alike(&part(1)));
    assert!(devices_alike(&vec![], &vec![]));
    assert!(!devices_alike(&vec![part(1)], &vec![]));
    assert!(!devices_alike(&vec![], &vec![part(1)]));
    assert!(devices_alike(&vec![part(1), part(2)], &vec![part(2), part(1)]));
}

#[test]
fn an_entry_written_at_the_end_of_time_never_expires() {
    let mut cache = Cache::new();
    cache.upsert("h1", tree("S1"), u64::MAX - 3);
    cache.flush(u64::MAX - 1);
    assert_eq!(cache.entries().len(), 1);
}
