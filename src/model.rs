//! The state behind the interactive port list: tabs, a single-selection list that keeps its
//! selection by value when the list changes, and the handling of one input event.

use vstd::prelude::*;
use itertools::Itertools;
use crate::prefs::UserPrefs;

verus! {

/// A row of tabs and the index of the active one.
pub struct TabsState<'a> {
    pub titles: Vec<&'a str>,
    pub index: usize,
}

impl<'a> TabsState<'a> {
    pub fn new(titles: Vec<&'a str>) -> (r: TabsState<'a>)
        ensures
            r.titles@ == titles@,
            r.index == 0,
    {
        TabsState { titles, index: 0 }
    }

    /// Moves to the next tab, wrapping around after the last.
    pub fn next(&mut self)
        requires
            old(self).titles@.len() > 0,
            old(self).index < usize::MAX,
        ensures
            final(self).titles@ == old(self).titles@,
            final(self).index == (old(self).index + 1) % (old(self).titles@.len() as int),
    {
        self.index = (self.index + 1) % self.titles.len();
    }

    /// Moves to the previous tab, wrapping around before the first.
    pub fn previous(&mut self)
        requires
            old(self).titles@.len() > 0,
        ensures
            final(self).titles@ == old(self).titles@,
            final(self).index == if old(self).index > 0 {
                old(self).index - 1
            } else {
                old(self).titles@.len() - 1
            },
    {
        if self.index > 0 {
            self.index -= 1;
        } else {
            self.index = self.titles.len() - 1;
        }
    }
}

/// Which row of a list is selected, if any.
#[derive(Debug, Clone, Copy, PartialEq, Eq, Structural)]
pub struct ListState {
    pub selected: Option<usize>,
}

impl Default for ListState {
    fn default() -> (r: ListState)
        ensures
            r.selected is None,
    {
        ListState { selected: None }
    }
}

impl ListState {
    pub fn selected(&self) -> (r: Option<usize>)
        ensures
            r == self.selected,
    {
        self.selected
    }

    pub fn select(&mut self, index: Option<usize>)
        ensures
            final(self).selected == index,
    {
        self.selected = index;
    }
}

/// `r` is the position of the first item whose text is `s`, or None if no item has it.
pub open spec fn is_first_position(items: Seq<String>, s: Seq<char>, r: Option<usize>) -> bool {
    match r {
        Some(k) => k < items.len() && items[k as int]@ == s && forall|j: int|
            0 <= j < k ==> #[trigger] items[j]@ != s,
        None => forall|j: int| 0 <= j < items.len() ==> #[trigger] items[j]@ != s,
    }
}

pub fn same_text(a: &String, b: &String) -> (r: bool)
    ensures
        r == (a@ == b@),
{
    *a == *b
}

/// Relies on itertools' `Itertools::find_position`: the position of the first element that
/// satisfies the predicate, or None.
#[verifier::external_body]
fn position_of(items: &Vec<String>, saved: &String) -> (r: Option<usize>)
    ensures
        is_first_position(items@, saved@, r),
{
    items.iter().find_position(|item| same_text(item, saved)).map(|z| z.0)
}

/// A list of names with at most one selected row.
pub struct SingleSelectList {
    pub state: ListState,
    pub items: Vec<String>,
}

/// The row that `next` selects.
pub open spec fn next_row(selected: Option<usize>, len: int) -> usize {
    match selected {
        Some(i) => if i >= len - 1 {
            0
        } else {
            (i + 1) as usize
        },
        None => 0,
    }
}

/// The row that `previous` selects.
pub open spec fn previous_row(selected: Option<usize>, len: int) -> usize {
    match selected {
        Some(i) => if i == 0 {
            (len - 1) as usize
        } else {
            (i - 1) as usize
        },
        None => 0,
    }
}

impl SingleSelectList {
    /// The selection points at an item.
    pub open spec fn wf(&self) -> bool {
        self.state.selected matches Some(i) ==> i < self.items@.len()
    }

    pub fn with_items(items: Vec<String>) -> (r: SingleSelectList)
        ensures
            r.items@ == items@,
            r.state.selected is None,
    {
        SingleSelectList { state: ListState::default(), items }
    }

    /// Selects the row below, wrapping around after the last; the first row when none is
    /// selected.
    pub fn next(&mut self)
        requires
            old(self).state.selected is Some ==> old(self).items@.len() > 0,
        ensures
            final(self).items@ == old(self).items@,
            final(self).state.selected == Some(
                next_row(old(self).state.selected, old(self).items@.len() as int),
            ),
    {
        let i = match self.state.selected() {
            Some(i) => {
                if i >= self.items.len() - 1 {
                    0
                } else {
                    i + 1
                }
            },
            None => 0,
        };
        self.state.select(Some(i));
    }

    /// Selects the row above, wrapping around before the first; the first row when none is
    /// selected.
    pub fn previous(&mut self)
        requires
            old(self).state.selected == Some(0usize) ==> old(self).items@.len() > 0,
        ensures
            final(self).items@ == old(self).items@,
            final(self).state.selected == Some(
                previous_row(old(self).state.selected, old(self).items@.len() as int),
            ),
    {
        let i = match self.state.selected() {
            Some(i) => {
                if i == 0 {
                    self.items.len() - 1
                } else {
                    i - 1
                }
            },
            None => 0,
        };
        self.state.select(Some(i));
    }

    /// Replaces the items, keeping the selected item selected by its text, or clearing the
    /// selection when the new items do not hold it.
    pub fn update_items(&mut self, items: Vec<String>)
        requires
            old(self).wf(),
        ensures
            final(self).wf(),
            final(self).items@ == items@,
            match old(self).state.selected {
                Some(idx) => is_first_position(
                    items@,
                    old(self).items@[idx as int]@,
                    final(self).state.selected,
                ),
                None => final(self).state.selected is None,
            },
    {
        let saved: Option<String> = match self.state.selected() {
            Some(idx) => Some(self.items[idx].clone()),
            None => None,
        };
        self.items = items;
        if let Some(saved) = saved {
            let found = position_of(&self.items, &saved);
            self.state.select(found);
        }
    }
}

/// A key as the control loop tells keys apart.
#[derive(Debug, Clone, Copy, PartialEq, Eq, Structural)]
pub enum Key {
    Char(char),
    Up,
    Down,
    Left,
    Right,
    /// Any other key: ignored.
    Other,
}

/// An event of the control loop.
#[derive(Debug, Clone)]
pub enum Event {
    KeyPressed(Key),
    /// The full list of live port names, after the bus announced a change.
    MidiPortsChanged(Vec<String>),
}

/// The model of the interactive view.
pub struct Model<'a> {
    pub title: &'a str,
    pub tabs: TabsState<'a>,
    pub ports: SingleSelectList,
    pub prefs: UserPrefs,
}

impl<'a> Model<'a> {
    pub fn new(title: &'a str, ports: Vec<String>, prefs: UserPrefs) -> (r: Model<'a>)
        ensures
            r.title@ == title@,
            r.tabs.titles@.len() == 1,
            r.tabs.titles@[0]@ == "Ports"@,
            r.tabs.index == 0,
            r.ports.items@ == ports@,
            r.ports.state.selected is None,
            r.prefs == prefs,
    {
        Model {
            title,
            tabs: TabsState::new(vec!["Ports"]),
            ports: SingleSelectList::with_items(ports),
            prefs,
        }
    }

    /// The event can be handled without a row or a tab index out of its list.
    pub open spec fn accepts(&self, event: Event) -> bool {
        match event {
            Event::KeyPressed(Key::Up) => self.ports.state.selected == Some(0usize)
                ==> self.ports.items@.len() > 0,
            Event::KeyPressed(Key::Down) => self.ports.state.selected is Some
                ==> self.ports.items@.len() > 0,
            Event::KeyPressed(Key::Left) => self.tabs.titles@.len() > 0,
            Event::KeyPressed(Key::Right) => self.tabs.titles@.len() > 0 && self.tabs.index
                < usize::MAX,
            Event::KeyPressed(_) => true,
            Event::MidiPortsChanged(_) => self.ports.wf(),
        }
    }

    pub fn can_handle(&self, event: &Event) -> (r: bool)
        ensures
            r == self.accepts(*event),
    {
        match event {
            Event::KeyPressed(Key::Up) => match self.ports.state.selected() {
                Some(i) => i != 0 || self.ports.items.len() > 0,
                None => true,
            },
            Event::KeyPressed(Key::Down) => match self.ports.state.selected() {
                Some(_) => self.ports.items.len() > 0,
                None => true,
            },
            Event::KeyPressed(Key::Left) => self.tabs.titles.len() > 0,
            Event::KeyPressed(Key::Right) => self.tabs.titles.len() > 0 && self.tabs.index
                < usize::MAX,
            Event::KeyPressed(_) => true,
            Event::MidiPortsChanged(_) => match self.ports.state.selected() {
                Some(i) => i < self.ports.items.len(),
                None => true,
            },
        }
    }

    /// Applies one event; returns whether the loop should stop. `q` stops it, the arrow keys
    /// move the list selection (up, down) or the active tab (left, right), a new port list
    /// replaces the shown one; nothing else changes the model.
    pub fn handle_event(&mut self, event: Event) -> (quit: bool)
        requires
            old(self).accepts(event),
        ensures
            quit == (event == Event::KeyPressed(Key::Char('q'))),
            final(self).title == old(self).title,
            final(self).prefs == old(self).prefs,
            match event {
                Event::KeyPressed(Key::Up) => final(self).tabs == old(self).tabs
                    && final(self).ports.items@ == old(self).ports.items@
                    && final(self).ports.state.selected == Some(
                    previous_row(old(self).ports.state.selected, old(self).ports.items@.len() as int),
                ),
                Event::KeyPressed(Key::Down) => final(self).tabs == old(self).tabs
                    && final(self).ports.items@ == old(self).ports.items@
                    && final(self).ports.state.selected == Some(
                    next_row(old(self).ports.state.selected, old(self).ports.items@.len() as int),
                ),
                Event::KeyPressed(Key::Left) => final(self).ports == old(self).ports
                    && final(self).tabs.titles@ == old(self).tabs.titles@
                    && final(self).tabs.index == if old(self).tabs.index > 0 {
                    old(self).tabs.index - 1
                } else {
                    old(self).tabs.titles@.len() - 1
                },
                Event::KeyPressed(Key::Right) => final(self).ports == old(self).ports
                    && final(self).tabs.titles@ == old(self).tabs.titles@
                    && final(self).tabs.index == (old(self).tabs.index + 1) % (
                old(self).tabs.titles@.len() as int),
                Event::KeyPressed(_) => final(self).ports == old(self).ports && final(self).tabs
                    == old(self).tabs,
                Event::MidiPortsChanged(p) => final(self).tabs == old(self).tabs
                    && final(self).ports.wf() && final(self).ports.items@ == p@
                    && match old(self).ports.state.selected {
                    Some(idx) => is_first_position(
                        p@,
                        old(self).ports.items@[idx as int]@,
                        final(self).ports.state.selected,
                    ),
                    None => final(self).ports.state.selected is None,
                },
            },
    {
        match event {
            Event::KeyPressed(key) => match key {
                Key::Char(c) => {
                    return c == 'q';
                },
                Key::Up => self.ports.previous(),
                Key::Down => self.ports.next(),
                Key::Left => self.tabs.previous(),
                Key::Right => self.tabs.next(),
                Key::Other => {},
            },
            Event::MidiPortsChanged(ports) => self.refresh_ports(ports),
        }
        false
    }

    /// Shows a new port list, keeping the selected port selected when it is still there.
    pub fn refresh_ports(&mut self, ports: Vec<String>)
        requires
            old(self).ports.wf(),
        ensures
            final(self).ports.wf(),
            final(self).ports.items@ == ports@,
            final(self).tabs == old(self).tabs,
            final(self).title == old(self).title,
            final(self).prefs == old(self).prefs,
            match old(self).ports.state.selected {
                Some(idx) => is_first_position(
                    ports@,
                    old(self).ports.items@[idx as int]@,
                    final(self).ports.state.selected,
                ),
                None => final(self).ports.state.selected is None,
            },
    {
        self.ports.update_items(ports);
    }
}

} // verus!
