use clipedit::history::DEFAULT_CAP;
use clipedit::settings::{Settings, SettingsState};

fn custom() -> Settings {
    Settings {
        autostart: true,
        hotkey: "Alt+V".to_string(),
        history_size: 7,
        persist_history: false,
        launched_before: true,
    }
}

#[test]
fn default_settings_values() {
    let s = Settings::default();
    assert!(!s.autostart);
    assert_eq!(s.hotkey, "CmdOrCtrl+B");
    assert_eq!(s.history_size, DEFAULT_CAP);
    assert!(s.persist_history);
    assert!(!s.launched_before);
}

#[test]
fn load_without_stored_settings_gives_defaults() {
    let st = SettingsState::load("settings.json".to_string(), None);
    assert_eq!(st.get(), Settings::default());
    assert_eq!(st.path(), "settings.json");
}

#[test]
fn load_with_stored_settings_keeps_them() {
    let st = SettingsState::load("s".to_string(), Some(custom()));
    assert_eq!(st.get(), custom());
}

#[test]
fn get_after_save_reads_back() {
    let mut st = SettingsState::load("s".to_string(), None);
    st.save(custom());
    assert_eq!(st.get(), custom());
    assert_eq!(st.path(), "s");
}

#[test]
fn mark_launched_reports_first_start_once() {
    let mut st = SettingsState::load("s".to_string(), None);
    assert!(st.mark_launched());
    assert!(st.get().launched_before);
    assert!(!st.mark_launched());
    assert!(st.get().launched_before);
}

#[test]
fn set_autostart_changes_only_autostart() {
    let mut st = SettingsState::load("s".to_string(), None);
    st.set_autostart(true);
    let mut expected = Settings::default();
    expected.autostart = true;
    assert_eq!(st.get(), expected);
}

#[test]
fn settings_clone_is_equal() {
    assert_eq!(custom().clone(), custom());
}
