use rizzle::{Item, ItemKind, Tab, TabHistory, TabKind};

#[test]
fn tab_names() {
    assert_eq!(Tab::new(TabKind::Empty).name(), "");
    assert_eq!(Tab::new(TabKind::InvalidCredentials).name(), "Invalid Credentials");
    assert_eq!(Tab::new(TabKind::LoggedOut).name(), "Logged Out");
    assert_eq!(Tab::new(TabKind::Starting).name(), "Starting");
    assert_eq!(Tab::new(TabKind::Home).name(), "Home");
}

#[test]
fn tab_items_and_selection() {
    let mut tab = Tab::new(TabKind::Home);
    tab.push_item(ItemKind::UserProfile);
    tab.push_item(ItemKind::Search);
    assert_eq!(tab.items, vec![Item::new(ItemKind::UserProfile), Item::new(ItemKind::Search)]);
    assert_eq!(tab.selected, 0);
    tab.go(1);
    assert_eq!(tab.selected, 1);
}

#[test]
fn history_starts_at_first_tab() {
    let history = TabHistory::new(vec![Tab::new(TabKind::Starting), Tab::new(TabKind::Home)]);
    assert_eq!(history.selected, 0);
    assert_eq!(history.tabs.len(), 2);
    assert_eq!(history.tabs[1].kind, TabKind::Home);
}
