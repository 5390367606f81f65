//! The browsing model of a client: tabs of items, and a history of tabs.
use vstd::prelude::*;

verus! {

/// What a tab shows.
#[derive(Clone, Copy, Debug, PartialEq, Eq, Structural)]
pub enum TabKind {
    Empty,
    InvalidCredentials,
    LoggedOut,
    Starting,
    Home,
}

/// What an item of a tab shows.
#[derive(Clone, Copy, Debug, PartialEq, Eq, Structural)]
pub enum ItemKind {
    Starting,
    UserProfile,
    Search,
    Recommended,
    News,
    Settings,
}

/// One entry of a tab.
#[derive(Clone, Copy, Debug, PartialEq, Eq, Structural)]
pub struct Item {
    pub kind: ItemKind,
}

impl Item {
    pub fn new(kind: ItemKind) -> (r: Item)
        ensures
            r.kind == kind,
    {
        Item { kind }
    }
}

/// The title shown for a tab of the given kind.
pub open spec fn tab_name(kind: TabKind) -> Seq<char> {
    match kind {
        TabKind::Empty => ""@,
        TabKind::InvalidCredentials => "Invalid Credentials"@,
        TabKind::LoggedOut => "Logged Out"@,
        TabKind::Starting => "Starting"@,
        TabKind::Home => "Home"@,
    }
}

/// A tab: its kind, its items, and which item is selected.
#[derive(Clone, Debug)]
pub struct Tab {
    pub kind: TabKind,
    pub items: Vec<Item>,
    pub selected: usize,
}

impl Tab {
    pub fn new(kind: TabKind) -> (r: Tab)
        ensures
            r.kind == kind,
            r.items@ == Seq::<Item>::empty(),
            r.selected == 0,
    {
        Tab { kind, items: Vec::new(), selected: 0 }
    }

    pub fn name(&self) -> (r: &'static str)
        ensures
            r@ == tab_name(self.kind),
    {
        match self.kind {
            TabKind::Empty => "",
            TabKind::InvalidCredentials => "Invalid Credentials",
            TabKind::LoggedOut => "Logged Out",
            TabKind::Starting => "Starting",
            TabKind::Home => "Home",
        }
    }

    /// Appends an item of the given kind.
    pub fn push_item(&mut self, kind: ItemKind)
        ensures
            final(self).items@ == old(self).items@.push(Item { kind }),
            final(self).kind == old(self).kind,
            final(self).selected == old(self).selected,
    {
        self.items.push(Item::new(kind));
    }

    /// Selects the item at `index`.
    pub fn go(&mut self, index: usize)
        requires
            index < old(self).items@.len(),
        ensures
            final(self).selected == index,
            final(self).items@ == old(self).items@,
            final(self).kind == old(self).kind,
    {
        self.selected = index;
    }
}

/// A history of tabs, with the selected one.
#[derive(Clone, Debug)]
pub struct TabHistory {
    pub tabs: Vec<Tab>,
    pub selected: usize,
}

impl TabHistory {
    pub fn new(tabs: Vec<Tab>) -> (r: TabHistory)
        ensures
            r.tabs@ == tabs@,
            r.selected == 0,
    {
        TabHistory { tabs, selected: 0 }
    }
}

} // verus!
