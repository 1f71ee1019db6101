use clipedit::clipboard::{commit_edit, observe_clipboard, LastClipboard};
use clipedit::commands::{select_history, set_settings};
use clipedit::history::HistoryState;
use clipedit::settings::{Settings, SettingsState};

fn empty(cap: usize) -> HistoryState {
    HistoryState::load("h".to_string(), Vec::new(), cap, true)
}

fn texts(h: &HistoryState) -> Vec<String> {
    h.snapshot().into_iter().map(|i| i.text).collect()
}

#[test]
fn new_last_clipboard_is_empty() {
    assert_eq!(LastClipboard::new().0, "");
}

#[test]
fn observed_text_is_recorded() {
    let mut last = LastClipboard::new();
    let mut h = empty(10);
    assert!(observe_clipboard(&mut last, &mut h, false, Some("copied".to_string())));
    assert_eq!(last.0, "copied");
    assert_eq!(texts(&h), vec!["copied"]);
}

#[test]
fn echo_of_own_write_is_ignored() {
    let mut last = LastClipboard::new();
    let mut h = empty(10);
    last.record("mine");
    assert!(!observe_clipboard(&mut last, &mut h, false, Some("mine".to_string())));
    assert!(h.snapshot().is_empty());
}

#[test]
fn repeated_read_is_ignored() {
    let mut last = LastClipboard::new();
    let mut h = empty(10);
    assert!(observe_clipboard(&mut last, &mut h, false, Some("x".to_string())));
    h.delete(1);
    assert!(!observe_clipboard(&mut last, &mut h, false, Some("x".to_string())));
    assert!(h.snapshot().is_empty());
}

#[test]
fn sensitive_content_is_ignored() {
    let mut last = LastClipboard::new();
    let mut h = empty(10);
    assert!(!observe_clipboard(&mut last, &mut h, true, Some("secret".to_string())));
    assert_eq!(last.0, "");
    assert!(h.snapshot().is_empty());
}

#[test]
fn empty_or_unreadable_clipboard_is_ignored() {
    let mut last = LastClipboard::new();
    let mut h = empty(10);
    assert!(!observe_clipboard(&mut last, &mut h, false, None));
    assert!(!observe_clipboard(&mut last, &mut h, false, Some(String::new())));
    assert!(h.snapshot().is_empty());
}

#[test]
fn observed_newest_text_updates_last_without_change() {
    let mut last = LastClipboard::new();
    let mut h = empty(10);
    h.add_at("a".to_string(), 1);
    assert!(!observe_clipboard(&mut last, &mut h, false, Some("a".to_string())));
    assert_eq!(last.0, "a");
    assert_eq!(texts(&h), vec!["a"]);
}

#[test]
fn commit_edit_keeps_previous_behind_new() {
    let mut last = LastClipboard::new();
    let mut h = empty(10);
    assert!(commit_edit(&mut h, &mut last, Some("before".to_string()), "after".to_string()));
    assert_eq!(texts(&h), vec!["after", "before"]);
    assert_eq!(last.0, "after");
}

#[test]
fn commit_edit_without_previous_adds_new_only() {
    let mut last = LastClipboard::new();
    let mut h = empty(10);
    assert!(commit_edit(&mut h, &mut last, None, "t".to_string()));
    assert_eq!(texts(&h), vec!["t"]);
    assert!(commit_edit(&mut h, &mut last, Some(String::new()), "u".to_string()));
    assert_eq!(texts(&h), vec!["u", "t"]);
}

#[test]
fn commit_edit_of_unchanged_text_stores_it_once() {
    let mut last = LastClipboard::new();
    let mut h = empty(10);
    assert!(commit_edit(&mut h, &mut last, Some("same".to_string()), "same".to_string()));
    assert_eq!(texts(&h), vec!["same"]);
    assert!(!commit_edit(&mut h, &mut last, Some("same".to_string()), "same".to_string()));
}

#[test]
fn select_history_notes_text_as_last() {
    let mut last = LastClipboard::new();
    let mut h = empty(10);
    h.add_at("a".to_string(), 1);
    h.add_at("b".to_string(), 2);
    assert_eq!(select_history(&mut h, &mut last, 1), Some("a".to_string()));
    assert_eq!(last.0, "a");
    assert_eq!(texts(&h), vec!["a", "b"]);
    assert_eq!(select_history(&mut h, &mut last, 99), None);
    assert_eq!(last.0, "a");
}

#[test]
fn set_settings_applies_size_persistence_and_launch_flag() {
    let mut h = empty(10);
    for t in ["a", "b", "c"] {
        h.add_at(t.to_string(), 1);
    }
    let mut st = SettingsState::load("s".to_string(), None);
    let new = Settings {
        autostart: true,
        hotkey: "Ctrl+Shift+V".to_string(),
        history_size: 0,
        persist_history: false,
        launched_before: false,
    };
    set_settings(&mut h, &mut st, new);
    assert_eq!(texts(&h), vec!["c"]);
    assert_eq!(h.save_payload(), None);
    let stored = st.get();
    assert!(stored.launched_before);
    assert_eq!(stored.history_size, 0);
    assert_eq!(stored.hotkey, "Ctrl+Shift+V");
    assert!(stored.autostart);
}
