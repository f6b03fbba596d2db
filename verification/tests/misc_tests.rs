use device_scanner::error::Error;
use device_scanner::message::Message;
use device_scanner::number::{parse_decimal, parse_prefixed_hex};
use device_scanner::pool::{Dataset, Pool, VDev};
use device_scanner::text::{contains_str, opt_eq, share_member, strs_eq};
use device_scanner::zed::{prop, zfs, zpool, PoolCommand, ZedCommand};
use device_scanner::zed_enhancer::{handle_zed_commands, lookup_for, Found, Lookup};

#[test]
fn decimal_numbers() {
    assert_eq!(parse_decimal("0"), Some(0));
    assert_eq!(parse_decimal("0042"), Some(42));
    assert_eq!(parse_decimal("+42"), Some(42));
    assert_eq!(parse_decimal("18446744073709551615"), Some(u64::MAX));
    assert_eq!(parse_decimal("18446744073709551616"), None);
    assert_eq!(parse_decimal("99999999999999999999999"), None);
    for bad in ["", "+", "-1", "1a", " 1", "0x10", "1.0", "\u{663}"] {
        assert_eq!(parse_decimal(bad), None, "{:?}", bad);
    }
}

#[test]
fn hexadecimal_numbers() {
    assert_eq!(parse_prefixed_hex("0x10"), Some(16));
    assert_eq!(parse_prefixed_hex("10"), Some(16));
    assert_eq!(parse_prefixed_hex("0xAbCdEf"), Some(0xABCDEF));
    assert_eq!(parse_prefixed_hex("0x0x0x1"), Some(1));
    assert_eq!(parse_prefixed_hex("0x+1"), Some(1));
    assert_eq!(parse_prefixed_hex("0xFFFFFFFFFFFFFFFF"), Some(u64::MAX));
    assert_eq!(parse_prefixed_hex("0x00000000000000000001"), Some(1));
    assert_eq!(parse_prefixed_hex("0x1FFFFFFFFFFFFFFFF"), None);
    for bad in ["", "0x", "0X10", "x10", "0x1g", "+0x1", "0x 1"] {
        assert_eq!(parse_prefixed_hex(bad), None, "{:?}", bad);
    }
}

#[test]
fn strings_in_lists() {
    let xs = vec!["a".to_string(), "b".to_string()];
    assert!(contains_str(&xs, &"b".to_string()));
    assert!(!contains_str(&xs, &"c".to_string()));
    assert!(share_member(&xs, &vec!["x".to_string(), "a".to_string()]));
    assert!(!share_member(&xs, &vec!["x".to_string()]));
    assert!(!share_member(&xs, &vec![]));
    assert!(strs_eq(&xs, &xs.clone()));
    assert!(!strs_eq(&xs, &vec!["b".to_string(), "a".to_string()]));
    assert!(!strs_eq(&xs, &vec!["a".to_string()]));
    assert!(opt_eq(&None, &None));
    assert!(opt_eq(&Some("a".to_string()), &Some("a".to_string())));
    assert!(!opt_eq(&Some("a".to_string()), &None));
    assert!(!opt_eq(&Some("a".to_string()), &Some("b".to_string())));
}

fn pool(guid: u64) -> Pool {
    Pool {
        name: "tank".to_string(),
        guid,
        health: "ONLINE".to_string(),
        hostname: "h".to_string(),
        hostid: Some(3),
        state: "ACTIVE".to_string(),
        readonly: false,
        size: "1".to_string(),
        vdev: VDev::RaidZ { children: vec![] },
        props: vec![],
        datasets: vec![],
    }
}

fn dataset() -> Dataset {
    Dataset {
        name: "tank/a".to_string(),
        guid: "9".to_string(),
        kind: "filesystem".to_string(),
        props: vec![],
    }
}

fn name() -> zpool::Name {
    zpool::Name("tank".to_string())
}

fn state() -> zpool::State {
    zpool::State("ACTIVE".to_string())
}

fn guid() -> zpool::Guid {
    zpool::Guid("0x000000000000002A".to_string())
}

fn bad_guid() -> zpool::Guid {
    zpool::Guid("forty-two".to_string())
}

#[test]
fn what_is_looked_up_for_an_event() {
    assert_eq!(lookup_for(&ZedCommand::Init), Ok(Lookup::ImportedPools));
    assert_eq!(
        lookup_for(&ZedCommand::CreateZpool(name(), guid(), state())),
        Ok(Lookup::Pool("tank".to_string(), 42))
    );
    assert_eq!(
        lookup_for(&ZedCommand::ImportZpool(name(), guid(), state())),
        Ok(Lookup::Pool("tank".to_string(), 42))
    );
    assert_eq!(
        lookup_for(&ZedCommand::AddVdev(name(), guid())),
        Ok(Lookup::Pool("tank".to_string(), 42))
    );
    assert_eq!(
        lookup_for(&ZedCommand::AddVdev(name(), bad_guid())),
        Err(Error::ParseInt)
    );
    assert_eq!(
        lookup_for(&ZedCommand::CreateZfs(bad_guid(), zfs::Name("tank/a".to_string()))),
        Ok(Lookup::Dataset("tank/a".to_string()))
    );
    assert_eq!(lookup_for(&ZedCommand::DestroyZpool(bad_guid())), Ok(Lookup::Nothing));
    assert_eq!(lookup_for(&ZedCommand::ExportZpool(guid(), state())), Ok(Lookup::Nothing));
}

#[test]
fn the_command_that_an_event_gives() {
    assert_eq!(
        handle_zed_commands(ZedCommand::Init, Found::Pools(vec![pool(1), pool(2)])),
        Ok(PoolCommand::AddPools(vec![pool(1), pool(2)]))
    );
    assert_eq!(
        handle_zed_commands(ZedCommand::CreateZpool(name(), guid(), state()), Found::Pool(pool(42))),
        Ok(PoolCommand::AddPool(pool(42)))
    );
    assert_eq!(
        handle_zed_commands(ZedCommand::ImportZpool(name(), guid(), state()), Found::Pool(pool(42))),
        Ok(PoolCommand::UpdatePool(pool(42)))
    );
    assert_eq!(
        handle_zed_commands(ZedCommand::AddVdev(name(), guid()), Found::Pool(pool(42))),
        Ok(PoolCommand::UpdatePool(pool(42)))
    );
    assert_eq!(
        handle_zed_commands(ZedCommand::ExportZpool(guid(), state()), Found::Nothing),
        Ok(PoolCommand::RemovePool(guid()))
    );
    assert_eq!(
        handle_zed_commands(ZedCommand::DestroyZpool(guid()), Found::Nothing),
        Ok(PoolCommand::RemovePool(guid()))
    );
    assert_eq!(
        handle_zed_commands(
            ZedCommand::CreateZfs(guid(), zfs::Name("tank/a".to_string())),
            Found::Dataset(dataset())
        ),
        Ok(PoolCommand::AddDataset(guid(), dataset()))
    );
    assert_eq!(
        handle_zed_commands(
            ZedCommand::DestroyZfs(guid(), zfs::Name("tank/a".to_string())),
            Found::Nothing
        ),
        Ok(PoolCommand::RemoveDataset(guid(), zfs::Name("tank/a".to_string())))
    );
    assert_eq!(
        handle_zed_commands(
            ZedCommand::SetZpoolProp(guid(), prop::Key("k".to_string()), prop::Value("v".to_string())),
            Found::Nothing
        ),
        Ok(PoolCommand::SetZpoolProp(
            guid(),
            prop::Key("k".to_string()),
            prop::Value("v".to_string())
        ))
    );
    assert_eq!(
        handle_zed_commands(
            ZedCommand::SetZfsProp(
                guid(),
                zfs::Name("tank/a".to_string()),
                prop::Key("k".to_string()),
                prop::Value("v".to_string())
            ),
            Found::Nothing
        ),
        Ok(PoolCommand::SetZfsProp(
            guid(),
            zfs::Name("tank/a".to_string()),
            prop::Key("k".to_string()),
            prop::Value("v".to_string())
        ))
    );
}

#[test]
fn an_event_without_what_it_needs_fails() {
    assert_eq!(handle_zed_commands(ZedCommand::Init, Found::Nothing), Err(Error::PoolNotFound));
    assert_eq!(
        handle_zed_commands(ZedCommand::CreateZpool(name(), guid(), state()), Found::Nothing),
        Err(Error::PoolNotFound)
    );
    assert_eq!(
        handle_zed_commands(
            ZedCommand::CreateZpool(name(), bad_guid(), state()),
            Found::Pool(pool(42))
        ),
        Err(Error::ParseInt)
    );
    assert_eq!(
        handle_zed_commands(
            ZedCommand::CreateZfs(guid(), zfs::Name("tank/a".to_string())),
            Found::Pool(pool(42))
        ),
        Err(Error::ZfsNotFound)
    );
}

#[test]
fn the_state_of_a_pool_is_its_text() {
    assert_eq!(state().into_string(), "ACTIVE");
}

#[test]
fn a_message_is_data_or_a_heartbeat() {
    assert!(matches!(Message::Data("{}".to_string()), Message::Data(_)));
    assert!(matches!(Message::Heartbeat, Message::Heartbeat));
}
