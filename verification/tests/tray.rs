use clipedit::tray::{menu_action, MenuAction};

#[test]
fn menu_ids_map_to_actions() {
    assert_eq!(menu_action("open"), Some(MenuAction::Open));
    assert_eq!(menu_action("settings"), Some(MenuAction::Settings));
    assert_eq!(menu_action("clear"), Some(MenuAction::Clear));
    assert_eq!(menu_action("autostart"), Some(MenuAction::Autostart));
    assert_eq!(menu_action("quit"), Some(MenuAction::Quit));
}

#[test]
fn unknown_menu_id_maps_to_nothing() {
    assert_eq!(menu_action("Open"), None);
    assert_eq!(menu_action(""), None);
    assert_eq!(menu_action("quit "), None);
}
