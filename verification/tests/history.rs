use clipedit::history::{HistoryItem, HistoryState, DEFAULT_CAP};

fn empty(cap: usize, persist: bool) -> HistoryState {
    HistoryState::load("history.json".to_string(), Vec::new(), cap, persist)
}

fn item(id: u64, text: &str, created_at: u64) -> HistoryItem {
    HistoryItem { id, text: text.to_string(), created_at }
}

fn texts(h: &HistoryState) -> Vec<String> {
    h.snapshot().into_iter().map(|i| i.text).collect()
}

fn ids(h: &HistoryState) -> Vec<u64> {
    h.snapshot().into_iter().map(|i| i.id).collect()
}

#[test]
fn default_cap_is_one_hundred() {
    assert_eq!(DEFAULT_CAP, 100);
}

#[test]
fn empty_history_has_no_entries() {
    let h = empty(10, true);
    assert!(h.snapshot().is_empty());
    assert_eq!(h.path(), "history.json");
}

#[test]
fn add_rejects_empty_text() {
    let mut h = empty(10, true);
    assert!(!h.add_at(String::new(), 5));
    assert!(h.snapshot().is_empty());
    assert!(h.add_at("x".to_string(), 6));
    assert_eq!(ids(&h), vec![1]);
}

#[test]
fn add_puts_newest_first_with_fresh_ids() {
    let mut h = empty(10, true);
    assert!(h.add_at("a".to_string(), 100));
    assert!(h.add_at("b".to_string(), 200));
    assert_eq!(h.snapshot(), vec![item(2, "b", 200), item(1, "a", 100)]);
}

#[test]
fn add_of_newest_text_changes_nothing() {
    let mut h = empty(10, true);
    assert!(h.add_at("a".to_string(), 1));
    assert!(!h.add_at("a".to_string(), 2));
    assert_eq!(h.snapshot(), vec![item(1, "a", 1)]);
    // the id counter did not move either
    assert!(h.add_at("b".to_string(), 3));
    assert_eq!(ids(&h), vec![2, 1]);
}

#[test]
fn add_of_stored_text_moves_it_to_the_front() {
    let mut h = empty(10, true);
    h.add_at("a".to_string(), 1);
    h.add_at("b".to_string(), 2);
    h.add_at("c".to_string(), 3);
    assert!(h.add_at("a".to_string(), 4));
    assert_eq!(
        h.snapshot(),
        vec![item(4, "a", 4), item(3, "c", 3), item(2, "b", 2)]
    );
}

#[test]
fn add_drops_oldest_beyond_cap() {
    let mut h = empty(2, true);
    h.add_at("a".to_string(), 1);
    h.add_at("b".to_string(), 2);
    h.add_at("c".to_string(), 3);
    assert_eq!(texts(&h), vec!["c", "b"]);
}

#[test]
fn add_with_clock_stamps_current_time() {
    let mut h = empty(10, true);
    assert!(h.add("now".to_string()));
    let snap = h.snapshot();
    assert_eq!(snap.len(), 1);
    assert_eq!(snap[0].text, "now");
    assert!(snap[0].created_at > 1_600_000_000_000);
}

#[test]
fn load_with_zero_cap_keeps_one_entry() {
    let mut h = empty(0, true);
    h.add_at("a".to_string(), 1);
    h.add_at("b".to_string(), 2);
    assert_eq!(texts(&h), vec!["b"]);
}

#[test]
fn load_keeps_items_and_continues_ids_after_the_largest() {
    let loaded = vec![item(5, "x", 1), item(9, "y", 2), item(2, "z", 3)];
    let mut h = HistoryState::load("p".to_string(), loaded, 10, true);
    assert_eq!(ids(&h), vec![5, 9, 2]);
    assert!(h.add_at("new".to_string(), 4));
    assert_eq!(ids(&h), vec![10, 5, 9, 2]);
}

#[test]
fn load_keeps_only_the_newest_within_cap() {
    let loaded = vec![item(1, "x", 1), item(2, "y", 2), item(3, "z", 3)];
    let h = HistoryState::load("p".to_string(), loaded, 2, true);
    assert_eq!(texts(&h), vec!["x", "y"]);
}

#[test]
fn load_with_zero_cap_keeps_the_newest_entry() {
    let loaded = vec![item(1, "x", 1), item(2, "y", 2)];
    let h = HistoryState::load("p".to_string(), loaded, 0, true);
    assert_eq!(texts(&h), vec!["x"]);
}

#[test]
fn load_drops_repeated_texts_keeping_the_newest() {
    let loaded = vec![item(1, "a", 1), item(2, "b", 2), item(3, "b", 3), item(4, "a", 4)];
    let mut h = HistoryState::load("p".to_string(), loaded, 10, true);
    assert_eq!(h.snapshot(), vec![item(1, "a", 1), item(2, "b", 2)]);
    // ids continue after the largest one read back, dropped entries included
    assert!(h.add_at("b".to_string(), 9));
    assert_eq!(h.snapshot(), vec![item(5, "b", 9), item(1, "a", 1)]);
}

#[test]
fn load_keeps_repeated_ids_and_empty_texts() {
    let loaded = vec![item(1, "a", 1), item(1, "b", 2), item(8, "", 3), item(9, "c", 4)];
    let h = HistoryState::load("p".to_string(), loaded, 5, true);
    assert_eq!(
        h.snapshot(),
        vec![item(1, "a", 1), item(1, "b", 2), item(8, "", 3), item(9, "c", 4)]
    );
}

#[test]
fn load_reads_back_what_save_wrote() {
    let mut h = empty(3, true);
    for (i, t) in ["a", "b", "c", "d"].iter().enumerate() {
        h.add_at(t.to_string(), i as u64);
    }
    h.select(2);
    let written = h.save_payload().unwrap();
    let mut back = HistoryState::load("p".to_string(), written.clone(), 3, true);
    assert_eq!(back.snapshot(), written);
    assert!(back.add_at("e".to_string(), 9));
    assert_eq!(back.snapshot()[0].id, 5);
}

#[test]
fn load_counts_cap_after_dropping_repeats() {
    let loaded = vec![item(1, "a", 1), item(2, "a", 2), item(3, "b", 3), item(4, "c", 4)];
    let h = HistoryState::load("p".to_string(), loaded, 2, true);
    assert_eq!(texts(&h), vec!["a", "b"]);
}

#[test]
fn ids_wrap_to_zero_past_the_largest() {
    let loaded = vec![item(u64::MAX - 1, "old", 1)];
    let mut h = HistoryState::load("p".to_string(), loaded, 10, true);
    h.add_at("a".to_string(), 2);
    h.add_at("b".to_string(), 3);
    assert_eq!(ids(&h), vec![0, u64::MAX, u64::MAX - 1]);
}

#[test]
fn select_moves_entry_to_front_and_returns_text() {
    let mut h = empty(10, true);
    h.add_at("a".to_string(), 1);
    h.add_at("b".to_string(), 2);
    h.add_at("c".to_string(), 3);
    assert_eq!(h.select(1), Some("a".to_string()));
    assert_eq!(h.snapshot(), vec![item(1, "a", 1), item(3, "c", 3), item(2, "b", 2)]);
}

#[test]
fn select_unknown_id_changes_nothing() {
    let mut h = empty(10, true);
    h.add_at("a".to_string(), 1);
    assert_eq!(h.select(42), None);
    assert_eq!(h.snapshot(), vec![item(1, "a", 1)]);
}

#[test]
fn select_newest_added_entry_gives_its_text() {
    let mut h = empty(10, true);
    h.add_at("a".to_string(), 1);
    h.add_at("b".to_string(), 2);
    let before = h.snapshot();
    assert_eq!(h.select(2), Some("b".to_string()));
    assert_eq!(h.snapshot(), before);
}

#[test]
fn delete_removes_the_entry_with_the_id() {
    let loaded = vec![item(1, "a", 1), item(2, "b", 2), item(3, "d", 4)];
    let mut h = HistoryState::load("p".to_string(), loaded, 10, true);
    h.delete(1);
    assert_eq!(h.snapshot(), vec![item(2, "b", 2), item(3, "d", 4)]);
    assert_eq!(h.select(1), None);
}

#[test]
fn delete_unknown_id_changes_nothing() {
    let mut h = empty(10, true);
    h.add_at("a".to_string(), 1);
    h.delete(7);
    assert_eq!(h.snapshot(), vec![item(1, "a", 1)]);
}

#[test]
fn clear_removes_everything_but_keeps_counting() {
    let mut h = empty(10, true);
    h.add_at("a".to_string(), 1);
    h.add_at("b".to_string(), 2);
    h.clear();
    assert!(h.snapshot().is_empty());
    h.add_at("c".to_string(), 3);
    assert_eq!(ids(&h), vec![3]);
}

#[test]
fn set_cap_drops_oldest() {
    let mut h = empty(10, true);
    for (i, t) in ["a", "b", "c", "d"].iter().enumerate() {
        h.add_at(t.to_string(), i as u64);
    }
    h.set_cap(2);
    assert_eq!(texts(&h), vec!["d", "c"]);
    h.add_at("e".to_string(), 9);
    assert_eq!(texts(&h), vec!["e", "d"]);
}

#[test]
fn set_cap_zero_acts_as_one() {
    let mut h = empty(10, true);
    h.add_at("a".to_string(), 1);
    h.add_at("b".to_string(), 2);
    h.set_cap(0);
    assert_eq!(texts(&h), vec!["b"]);
}

#[test]
fn set_cap_larger_keeps_everything() {
    let mut h = empty(2, true);
    h.add_at("a".to_string(), 1);
    h.add_at("b".to_string(), 2);
    h.set_cap(50);
    h.add_at("c".to_string(), 3);
    assert_eq!(texts(&h), vec!["c", "b", "a"]);
}

#[test]
fn save_payload_follows_persistence() {
    let mut h = empty(10, false);
    h.add_at("a".to_string(), 1);
    assert_eq!(h.save_payload(), None);
    h.set_persist(true);
    assert_eq!(h.save_payload(), Some(vec![item(1, "a", 1)]));
    h.set_persist(false);
    assert_eq!(h.save_payload(), None);
}

#[test]
fn item_clone_is_equal() {
    let i = item(3, "héllo", 7);
    assert_eq!(i.clone(), i);
}
