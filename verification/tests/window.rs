use clipedit::window::{hides_on_focus_change, keeps_running, toggle_hides};

#[test]
fn popup_hides_when_it_loses_focus() {
    assert!(hides_on_focus_change("popup", false));
    assert!(!hides_on_focus_change("popup", true));
    assert!(!hides_on_focus_change("settings", false));
    assert!(!hides_on_focus_change("popups", false));
}

#[test]
fn hotkey_hides_only_a_visible_popup() {
    assert!(toggle_hides(Some(true)));
    assert!(!toggle_hides(Some(false)));
    assert!(!toggle_hides(None));
}

#[test]
fn exit_without_code_is_turned_down() {
    assert!(keeps_running(None));
    assert!(!keeps_running(Some(0)));
    assert!(!keeps_running(Some(1)));
}
