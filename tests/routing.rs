use autoroute::ports::{
    add_ports, broadcast, monitor, port_names, ports_changed, Addr, BusEvent, AlsaMidi, PortListing, Sub, SubsAction, SubsApply, SubsUpdate,
    SYSTEM_ANNOUNCE_PORT, SYSTEM_CLIENT,
};
use autoroute::prefs::{DevicePrefs, DeviceRole, PortDir, PrefsModel, UserPrefs};

fn addr(client: i32) -> Addr {
    Addr { client, port: 0 }
}

fn dev(name: &str, dir: PortDir, roles: Vec<DeviceRole>) -> DevicePrefs {
    DevicePrefs { port_name: name.to_string(), port_dir: dir, alias: None, roles }
}

fn store(devices: Vec<DevicePrefs>) -> UserPrefs {
    UserPrefs::new(PrefsModel { devices })
}

fn snapshot(names: &[(&str, i32)], subs: Vec<Sub>) -> AlsaMidi {
    AlsaMidi {
        ports: names.iter().map(|(n, c)| (n.to_string(), addr(*c))).collect(),
        subs,
    }
}

fn edge(from: i32, to: i32) -> Sub {
    Sub { sender: addr(from), dest: addr(to) }
}

fn sorted(mut v: Vec<Sub>) -> Vec<Sub> {
    v.sort_by_key(|s| (s.sender.client, s.sender.port, s.dest.client, s.dest.port));
    v
}

#[test]
fn scenario_broadcast_skips_input_device() {
    let prefs = store(vec![
        dev("A", PortDir::Duplex, vec![DeviceRole::Broadcast]),
        dev("B", PortDir::Input, vec![]),
        dev("C", PortDir::Duplex, vec![]),
    ]);
    let snap = snapshot(&[("A", 20), ("B", 21), ("C", 22)], vec![]);
    let update = snap.update_subs(&prefs);
    assert_eq!(update.subscribe, vec![edge(20, 22)]);
    assert!(update.unsubscribe.is_empty());
}

#[test]
fn broadcast_reaches_duplex_output_and_unconfigured_ports() {
    let prefs = store(vec![
        dev("A", PortDir::Duplex, vec![DeviceRole::Broadcast]),
        dev("B", PortDir::Duplex, vec![]),
        dev("O", PortDir::Output, vec![]),
        dev("I", PortDir::Input, vec![]),
    ]);
    let snap = snapshot(&[("A", 20), ("B", 21), ("D", 22), ("O", 23), ("I", 24)], vec![]);
    let expected = sorted(snap.expected_subs(&prefs));
    assert_eq!(expected, vec![edge(20, 21), edge(20, 22), edge(20, 23)]);
}

#[test]
fn monitor_skips_broadcasters_and_output_only_ports() {
    let prefs = store(vec![
        dev("A", PortDir::Input, vec![DeviceRole::Monitor]),
        dev("B", PortDir::Duplex, vec![DeviceRole::Broadcast]),
        dev("O", PortDir::Output, vec![]),
        dev("D", PortDir::Duplex, vec![]),
    ]);
    // A is input-only, so B's own broadcast does not reach it either.
    let snap = snapshot(&[("A", 20), ("B", 21), ("O", 22), ("D", 23), ("U", 24)], vec![]);
    let expected = sorted(snap.expected_subs(&prefs));
    assert_eq!(expected, vec![edge(21, 22), edge(21, 23), edge(21, 24), edge(23, 20), edge(24, 20)]);
}

#[test]
fn broadcaster_still_sends_to_a_monitor_that_accepts_input() {
    let prefs = store(vec![
        dev("A", PortDir::Duplex, vec![DeviceRole::Monitor]),
        dev("B", PortDir::Duplex, vec![DeviceRole::Broadcast]),
    ]);
    let snap = snapshot(&[("A", 20), ("B", 21)], vec![]);
    assert_eq!(snap.expected_subs(&prefs), vec![edge(21, 20)]);
}

#[test]
fn monitor_and_broadcast_on_one_port() {
    let prefs = store(vec![dev("A", PortDir::Duplex, vec![DeviceRole::Broadcast, DeviceRole::Monitor])]);
    let snap = snapshot(&[("A", 20), ("B", 21)], vec![]);
    let expected = sorted(snap.expected_subs(&prefs));
    assert_eq!(expected, vec![edge(20, 21), edge(21, 20)]);
}

#[test]
fn duplicated_roles_give_each_edge_once() {
    let prefs = store(vec![dev("A", PortDir::Duplex, vec![DeviceRole::Broadcast, DeviceRole::Broadcast])]);
    let snap = snapshot(&[("A", 20), ("B", 21)], vec![]);
    assert_eq!(snap.expected_subs(&prefs), vec![edge(20, 21)]);
}

#[test]
fn unconfigured_ports_originate_nothing() {
    let prefs = store(vec![]);
    let snap = snapshot(&[("A", 20), ("B", 21)], vec![edge(20, 21)]);
    assert!(snap.expected_subs(&prefs).is_empty());
    let update = snap.update_subs(&prefs);
    assert!(update.subscribe.is_empty());
    assert_eq!(update.unsubscribe, vec![edge(20, 21)]);
}

#[test]
fn update_touches_only_the_difference() {
    let prefs = store(vec![dev("A", PortDir::Duplex, vec![DeviceRole::Broadcast])]);
    // expected: 20->21, 20->22; live: 20->21 (kept), 22->21 (stale)
    let snap = snapshot(&[("A", 20), ("B", 21), ("C", 22)], vec![edge(20, 21), edge(22, 21)]);
    let update = snap.update_subs(&prefs);
    assert_eq!(update.subscribe, vec![edge(20, 22)]);
    assert_eq!(update.unsubscribe, vec![edge(22, 21)]);
}

#[test]
fn second_update_after_success_is_empty() {
    let prefs = store(vec![
        dev("A", PortDir::Duplex, vec![DeviceRole::Broadcast]),
        dev("M", PortDir::Duplex, vec![DeviceRole::Monitor]),
    ]);
    let mut snap = snapshot(&[("A", 20), ("M", 21), ("C", 22)], vec![edge(22, 20)]);
    let first = snap.update_subs(&prefs);
    assert!(!first.subscribe.is_empty());
    let mut live: Vec<Sub> = snap.subs.iter().copied().filter(|s| !first.unsubscribe.contains(s)).collect();
    live.extend(first.subscribe.iter().copied());
    snap.subs = live;
    let second = snap.update_subs(&prefs);
    assert!(second.subscribe.is_empty());
    assert!(second.unsubscribe.is_empty());
}

fn run(update: SubsUpdate, failing: &[Sub]) -> (Vec<SubsAction>, SubsAction) {
    let mut apply = SubsApply::new(update);
    let mut issued = vec![];
    loop {
        let action = apply.next_action();
        match action {
            SubsAction::Subscribe(s) | SubsAction::Unsubscribe(s) => {
                issued.push(action);
                apply.record(!failing.contains(&s));
            }
            SubsAction::Done | SubsAction::Failed => return (issued, action),
        }
    }
}

#[test]
fn apply_issues_subscriptions_then_removals() {
    let update = SubsUpdate { subscribe: vec![edge(1, 2), edge(1, 3)], unsubscribe: vec![edge(4, 5)] };
    let (issued, end) = run(update, &[]);
    assert_eq!(
        issued,
        vec![
            SubsAction::Subscribe(edge(1, 2)),
            SubsAction::Subscribe(edge(1, 3)),
            SubsAction::Unsubscribe(edge(4, 5))
        ]
    );
    assert_eq!(end, SubsAction::Done);
}

#[test]
fn failed_subscription_stops_the_pass() {
    let update = SubsUpdate { subscribe: vec![edge(1, 2), edge(1, 3)], unsubscribe: vec![edge(4, 5)] };
    let (issued, end) = run(update, &[edge(1, 2)]);
    assert_eq!(issued, vec![SubsAction::Subscribe(edge(1, 2))]);
    assert_eq!(end, SubsAction::Failed);
}

#[test]
fn failed_removal_is_passed_over() {
    let update = SubsUpdate { subscribe: vec![], unsubscribe: vec![edge(4, 5), edge(6, 7)] };
    let (issued, end) = run(update, &[edge(4, 5)]);
    assert_eq!(issued, vec![SubsAction::Unsubscribe(edge(4, 5)), SubsAction::Unsubscribe(edge(6, 7))]);
    assert_eq!(end, SubsAction::Done);
}

#[test]
fn bootstrap_adds_defaults_for_unknown_ports() {
    let x = DevicePrefs {
        port_name: "X".to_string(),
        port_dir: PortDir::Input,
        alias: Some("ex".to_string()),
        roles: vec![DeviceRole::Monitor],
    };
    let prefs = store(vec![x.clone()]);
    let snap = snapshot(&[("X", 20), ("Y", 21)], vec![]);
    let doc = add_ports(&snap, prefs);
    assert_eq!(doc.devices.len(), 2);
    assert_eq!(doc.devices[0], x);
    assert_eq!(doc.devices[1], DevicePrefs::from_port("Y".to_string()));
    assert_eq!(doc.devices[1].port_dir, PortDir::Duplex);
    assert!(doc.devices[1].roles.is_empty());
    assert_eq!(doc.devices[1].alias, None);
}

#[test]
fn bootstrap_from_empty_store_lists_every_port() {
    let snap = snapshot(&[("P", 20), ("Q", 21)], vec![]);
    let doc = add_ports(&snap, UserPrefs::default());
    let names: Vec<&str> = doc.devices.iter().map(|d| d.port_name.as_str()).collect();
    assert_eq!(names, vec!["P", "Q"]);
}

fn listing(client: i32, port: i32, name: Option<&str>, subs: Vec<Sub>) -> PortListing {
    PortListing { addr: Addr { client, port }, name: name.map(|n| n.to_string()), subs }
}

#[test]
fn listing_drops_system_and_unnamed_ports() {
    let ls = vec![
        listing(SYSTEM_CLIENT, SYSTEM_ANNOUNCE_PORT, Some("Announce"), vec![edge(0, 30)]),
        listing(20, 0, Some("Keys"), vec![edge(20, 21)]),
        listing(21, 0, None, vec![edge(21, 20)]),
        listing(22, 0, Some("Synth"), vec![edge(20, 21)]),
    ];
    let snap = AlsaMidi::from_listing(&ls);
    assert_eq!(snap.ports, vec![("Keys".to_string(), addr(20)), ("Synth".to_string(), addr(22))]);
    assert_eq!(snap.subs, vec![edge(20, 21), edge(21, 20)]);
    assert_eq!(port_names(&ls), vec!["Keys".to_string(), "Synth".to_string()]);
}

#[test]
fn listing_keeps_last_address_of_a_name() {
    let ls = vec![listing(20, 0, Some("Dup"), vec![]), listing(21, 1, Some("Dup"), vec![])];
    let snap = AlsaMidi::from_listing(&ls);
    assert_eq!(snap.ports, vec![("Dup".to_string(), Addr { client: 21, port: 1 })]);
    assert_eq!(port_names(&ls), vec!["Dup".to_string(), "Dup".to_string()]);
}

#[test]
fn listing_drops_subscriptions_from_system_ports() {
    let announce = Addr { client: SYSTEM_CLIENT, port: SYSTEM_ANNOUNCE_PORT };
    let ls = vec![listing(
        20,
        0,
        Some("Keys"),
        vec![Sub { sender: announce, dest: addr(20) }, Sub { sender: addr(20), dest: announce }, edge(20, 21)],
    )];
    let snap = AlsaMidi::from_listing(&ls);
    assert_eq!(snap.subs, vec![edge(20, 21)]);
    let update = snap.update_subs(&UserPrefs::default());
    assert_eq!(update.unsubscribe, vec![edge(20, 21)]);
}

#[test]
fn repeated_live_subscription_is_removed_once() {
    let snap = snapshot(&[("A", 20), ("B", 21)], vec![edge(20, 21), edge(20, 21)]);
    let update = snap.update_subs(&UserPrefs::default());
    assert_eq!(update.unsubscribe, vec![edge(20, 21)]);
}

#[test]
fn broadcast_helper_respects_input_only_targets() {
    let input = dev("B", PortDir::Input, vec![]);
    let duplex = dev("B", PortDir::Duplex, vec![]);
    let mut subs = vec![];
    broadcast(addr(20), addr(21), Some(&input), &mut subs);
    assert!(subs.is_empty());
    broadcast(addr(20), addr(21), Some(&duplex), &mut subs);
    broadcast(addr(20), addr(22), None, &mut subs);
    broadcast(addr(20), addr(22), None, &mut subs);
    assert_eq!(subs, vec![edge(20, 21), edge(20, 22)]);
}

#[test]
fn monitor_helper_skips_broadcasters_and_outputs() {
    let caster = dev("B", PortDir::Duplex, vec![DeviceRole::Broadcast]);
    let output = dev("O", PortDir::Output, vec![]);
    let duplex = dev("D", PortDir::Duplex, vec![DeviceRole::Monitor]);
    let mut subs = vec![];
    monitor(addr(20), addr(21), Some(&caster), &mut subs);
    monitor(addr(20), addr(22), Some(&output), &mut subs);
    assert!(subs.is_empty());
    monitor(addr(20), addr(23), Some(&duplex), &mut subs);
    monitor(addr(20), addr(24), None, &mut subs);
    assert_eq!(subs, vec![edge(23, 20), edge(24, 20)]);
}

#[test]
fn only_port_events_trigger_a_new_listing() {
    assert!(ports_changed(BusEvent::PortStart));
    assert!(ports_changed(BusEvent::PortExit));
    assert!(ports_changed(BusEvent::PortChange));
    assert!(!ports_changed(BusEvent::Other));
}
