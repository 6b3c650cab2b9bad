use autoroute::model::{Event, Key, ListState, Model, SingleSelectList, TabsState};
use autoroute::prefs::UserPrefs;

fn names(v: &[&str]) -> Vec<String> {
    v.iter().map(|s| s.to_string()).collect()
}

#[test]
fn list_selection_wraps() {
    let mut list = SingleSelectList::with_items(names(&["a", "b", "c"]));
    assert_eq!(list.state.selected(), None);
    list.next();
    assert_eq!(list.state.selected(), Some(0));
    list.next();
    list.next();
    assert_eq!(list.state.selected(), Some(2));
    list.next();
    assert_eq!(list.state.selected(), Some(0));
    list.previous();
    assert_eq!(list.state.selected(), Some(2));
    list.previous();
    assert_eq!(list.state.selected(), Some(1));
}

#[test]
fn previous_without_selection_selects_first() {
    let mut list = SingleSelectList::with_items(names(&["a", "b"]));
    list.previous();
    assert_eq!(list.state.selected(), Some(0));
}

#[test]
fn update_keeps_selection_by_value() {
    let mut list = SingleSelectList::with_items(names(&["a", "b", "c"]));
    list.state.select(Some(1));
    list.update_items(names(&["x", "y", "b", "b"]));
    assert_eq!(list.state.selected(), Some(2));
    assert_eq!(list.items, names(&["x", "y", "b", "b"]));
}

#[test]
fn update_clears_selection_of_a_vanished_item() {
    let mut list = SingleSelectList::with_items(names(&["a", "b"]));
    list.state.select(Some(0));
    list.update_items(names(&["b", "c"]));
    assert_eq!(list.state.selected(), None);
}

#[test]
fn update_without_selection_keeps_none() {
    let mut list = SingleSelectList::with_items(names(&["a"]));
    list.update_items(names(&["a", "b"]));
    assert_eq!(list.state, ListState::default());
}

#[test]
fn tabs_wrap_both_ways() {
    let mut tabs = TabsState::new(vec!["one", "two", "three"]);
    assert_eq!(tabs.index, 0);
    tabs.previous();
    assert_eq!(tabs.index, 2);
    tabs.next();
    assert_eq!(tabs.index, 0);
    tabs.next();
    assert_eq!(tabs.index, 1);
}

#[test]
fn events_drive_the_model() {
    let mut model = Model::new("Routing", names(&["p", "q"]), UserPrefs::default());
    assert_eq!(model.tabs.titles, vec!["Ports"]);
    let down = Event::KeyPressed(Key::Down);
    assert!(model.can_handle(&down));
    assert!(!model.handle_event(down));
    assert_eq!(model.ports.state.selected(), Some(0));
    assert!(!model.handle_event(Event::KeyPressed(Key::Up)));
    assert_eq!(model.ports.state.selected(), Some(1));
    assert!(!model.handle_event(Event::KeyPressed(Key::Right)));
    assert_eq!(model.tabs.index, 0);
    assert!(!model.handle_event(Event::MidiPortsChanged(names(&["q", "r"]))));
    assert_eq!(model.ports.state.selected(), Some(0));
    assert!(!model.handle_event(Event::KeyPressed(Key::Char('x'))));
    assert!(model.handle_event(Event::KeyPressed(Key::Char('q'))));
}

#[test]
fn refresh_on_empty_list_keeps_nothing_selected() {
    let mut model = Model::new("Routing", vec![], UserPrefs::default());
    model.refresh_ports(names(&["p"]));
    assert_eq!(model.ports.state.selected(), None);
    let down = Event::KeyPressed(Key::Down);
    assert!(!model.handle_event(down));
    assert_eq!(model.ports.state.selected(), Some(0));
}

#[test]
fn empty_list_refuses_a_second_move() {
    let mut model = Model::new("Routing", vec![], UserPrefs::default());
    assert!(!model.handle_event(Event::KeyPressed(Key::Down)));
    assert!(!model.can_handle(&Event::KeyPressed(Key::Down)));
    assert!(!model.can_handle(&Event::KeyPressed(Key::Up)));
    assert!(!model.can_handle(&Event::MidiPortsChanged(vec![])));
}
