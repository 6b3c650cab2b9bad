use autoroute::prefs::{DevicePrefs, DeviceRole, PortDir, PrefsModel, UserPrefs};

fn entry(name: &str, alias: Option<&str>) -> DevicePrefs {
    DevicePrefs {
        port_name: name.to_string(),
        port_dir: PortDir::Duplex,
        alias: alias.map(|a| a.to_string()),
        roles: vec![],
    }
}

fn store(devices: Vec<DevicePrefs>) -> UserPrefs {
    UserPrefs::new(PrefsModel { devices })
}

#[test]
fn alias_round_trip() {
    let prefs = store(vec![entry("USB MIDI 1", Some("keys")), entry("USB MIDI 2", None)]);
    let alias = prefs.resolve_to_alias("USB MIDI 1");
    assert_eq!(alias, "keys");
    assert_eq!(prefs.resolve_to_portname(&alias), "USB MIDI 1");
}

#[test]
fn unknown_names_resolve_to_themselves() {
    let prefs = store(vec![entry("USB MIDI 1", Some("keys")), entry("USB MIDI 2", None)]);
    assert_eq!(prefs.resolve_to_alias("USB MIDI 2"), "USB MIDI 2");
    assert_eq!(prefs.resolve_to_alias("nothing"), "nothing");
    assert_eq!(prefs.resolve_to_portname("USB MIDI 1"), "USB MIDI 1");
    assert_eq!(prefs.resolve_to_portname("drums"), "drums");
}

#[test]
fn last_entry_of_a_name_wins() {
    let mut second = entry("P", Some("second"));
    second.port_dir = PortDir::Output;
    let prefs = store(vec![entry("P", Some("first")), second.clone()]);
    assert_eq!(prefs.get_port_prefs("P"), Some(&second));
    assert_eq!(prefs.resolve_to_alias("P"), "second");
    assert_eq!(prefs.get_port_prefs("Q"), None);
}

#[test]
fn empty_store_knows_nothing() {
    let prefs = UserPrefs::default();
    assert!(prefs.prefs_model.devices.is_empty());
    assert_eq!(prefs.get_port_prefs("P"), None);
}

#[test]
fn defaults_of_a_new_entry() {
    let d = DevicePrefs::from_port("Y".to_string());
    assert_eq!(d.port_name, "Y");
    assert_eq!(d.port_dir, PortDir::Duplex);
    assert_eq!(d.alias, None);
    assert!(d.roles.is_empty());
    assert_eq!(PortDir::default(), PortDir::Duplex);
    assert_ne!(DeviceRole::Broadcast, DeviceRole::Monitor);
}
