use rime::menu::{submenu_flyout, title_press, Item, Menu, PANEL_PAD, ROW_H, SEP_H};

#[derive(Clone, Debug, PartialEq)]
enum Msg {
    Hover,
    Pick,
}

fn action(label: &str) -> Item<Msg> {
    Item::action(label, Msg::Pick)
}

fn submenu(expanded: bool) -> Item<Msg> {
    Item::submenu("More", vec![action("Nested")], expanded, Msg::Hover)
}

/// The offset returned for `items` (panics if there is no expanded submenu).
fn offset(items: &[Item<Msg>]) -> u64 {
    let y = submenu_flyout(items).expect("an expanded submenu").1;
    u64::try_from(y).expect("a small offset")
}

#[test]
fn none_without_an_expanded_submenu() {
    assert!(submenu_flyout::<Msg>(&[]).is_none());
    assert!(submenu_flyout(&[action("A"), action("B")]).is_none());
    // A submenu that exists but is collapsed does not fly out.
    assert!(submenu_flyout(&[action("A"), submenu(false)]).is_none());
}

#[test]
fn offset_is_the_parent_padding_plus_preceding_row_heights() {
    // First row: just the panel padding.
    assert_eq!(offset(&[submenu(true)]), PANEL_PAD);
    // One action above it.
    assert_eq!(offset(&[action("A"), submenu(true)]), PANEL_PAD + ROW_H);
    // Action + separator above it (separators are shorter).
    assert_eq!(
        offset(&[action("A"), Item::separator(), submenu(true)]),
        PANEL_PAD + ROW_H + SEP_H,
    );
    // Several actions.
    assert_eq!(
        offset(&[action("A"), action("B"), action("C"), submenu(true)]),
        PANEL_PAD + 3 * ROW_H,
    );
}

#[test]
fn only_the_first_expanded_submenu_flies_out() {
    // Two expanded submenus: the first one wins (one flyout level).
    let items = vec![submenu(true), action("A"), submenu(true)];
    assert_eq!(offset(&items), PANEL_PAD);
}

#[test]
fn flyout_reports_the_index_of_the_expanded_row() {
    let items = vec![action("A"), Item::separator(), submenu(false), submenu(true)];
    assert_eq!(submenu_flyout(&items), Some((3, u128::from(PANEL_PAD + ROW_H + SEP_H + ROW_H))));
}

#[test]
fn items_and_menus_keep_what_they_are_built_with() {
    match Item::shortcut("Save", "Cmd-S", Msg::Pick) {
        Item::Action { label, shortcut, on_select } => {
            assert_eq!(label, "Save");
            assert_eq!(shortcut.as_deref(), Some("Cmd-S"));
            assert_eq!(on_select, Msg::Pick);
        }
        _ => panic!("expected an action"),
    }
    assert_eq!(Item::<Msg>::separator().height(), SEP_H);
    assert_eq!(action("A").height(), ROW_H);
    let menu = Menu::new("File", vec![action("Open")]);
    assert_eq!(menu.title, "File");
    assert_eq!(menu.items.len(), 1);
}

#[test]
fn a_title_press_opens_switches_or_closes() {
    assert_eq!(title_press(None, 2), Some(2));
    assert_eq!(title_press(Some(1), 2), Some(2));
    assert_eq!(title_press(Some(2), 2), None);
}
