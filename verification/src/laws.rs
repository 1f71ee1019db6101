use vstd::prelude::*;

use crate::clipboard::{
    after_commit, after_keep_previous, after_observe, commit_changes, keeps_previous,
    observation_recorded,
};
use crate::settings::{after_save, with_autostart, with_launched, SettingsStateView, SettingsView};
use crate::history::{
    clamp_cap, distinct_entries, lemma_text_absent, next_after, history_wf, holds_text, ids_below_next, ids_fresh, ids_unique, keep_newest, texts_nonempty, texts_unique,
    add_changes, after_add, after_delete, after_select, after_set_cap, first_id_at, first_text_at,
    id_position, lemma_id_absent, lemma_id_position_at, lemma_id_position_valid, lemma_text_position_at,
    lemma_text_position_valid, max_id, selected_text, text_position, with_items, with_persist,
    without_id, without_text, Entry, HistoryView,
};

verus! {

/// `r` picks the entries of `s` at the distinct indices `src(i)`.
pub open spec fn picks_distinct(s: Seq<Entry>, r: Seq<Entry>, src: spec_fn(int) -> int) -> bool {
    &&& forall|i: int| 0 <= i < r.len() ==> 0 <= #[trigger] src(i) < s.len() && r[i] == s[src(i)]
    &&& forall|i: int, j: int| 0 <= i < j < r.len() ==> #[trigger] src(i) != #[trigger] src(j)
}

/// Picking entries at distinct indices keeps texts and ids free of
/// duplicates and texts non-empty, and picks only entries of `s`.
pub proof fn lemma_picks_keep_properties(s: Seq<Entry>, r: Seq<Entry>, src: spec_fn(int) -> int)
    requires
        picks_distinct(s, r, src),
    ensures
        texts_unique(s) ==> texts_unique(r),
        ids_unique(s) ==> ids_unique(r),
        texts_nonempty(s) ==> texts_nonempty(r),
        forall|i: int| 0 <= i < r.len() ==> s.contains(#[trigger] r[i]),
{
    assert forall|i: int| 0 <= i < r.len() implies s.contains(#[trigger] r[i]) by {
        assert(r[i] == s[src(i)]);
    }
    if texts_unique(s) {
        assert forall|i: int, j: int|
            #![trigger r[i], r[j]]
            0 <= i < j < r.len() implies r[i].text != r[j].text by {
            let a = src(i);
            let b = src(j);
            assert(r[i] == s[a] && r[j] == s[b] && a != b);
            if a < b {
                assert(s[a].text != s[b].text);
            } else {
                assert(s[b].text != s[a].text);
            }
        }
    }
    if ids_unique(s) {
        assert forall|i: int, j: int|
            #![trigger r[i], r[j]]
            0 <= i < j < r.len() implies r[i].id != r[j].id by {
            let a = src(i);
            let b = src(j);
            assert(r[i] == s[a] && r[j] == s[b] && a != b);
            if a < b {
                assert(s[a].id != s[b].id);
            } else {
                assert(s[b].id != s[a].id);
            }
        }
    }
    if texts_nonempty(s) {
        assert forall|i: int| 0 <= i < r.len() implies #[trigger] r[i].text.len() > 0 by {
            assert(r[i] == s[src(i)]);
        }
    }
}

/// Keeping the newest entries keeps texts and ids free of duplicates and
/// texts non-empty.
pub proof fn lemma_keep_newest_keeps_properties(s: Seq<Entry>, cap: usize)
    ensures
        texts_unique(s) ==> texts_unique(keep_newest(s, cap)),
        ids_unique(s) ==> ids_unique(keep_newest(s, cap)),
        texts_nonempty(s) ==> texts_nonempty(keep_newest(s, cap)),
        forall|i: int| 0 <= i < keep_newest(s, cap).len() ==> keep_newest(s, cap)[i] == s[i],
        keep_newest(s, cap).len() <= cap,
        keep_newest(s, cap).len() <= s.len(),
{
    let r = keep_newest(s, cap);
    let src = |i: int| i;
    assert(picks_distinct(s, r, src));
    lemma_picks_keep_properties(s, r, src);
}

/// A text that occurs in `s` has a first position.
pub proof fn lemma_text_present_has_position(s: Seq<Entry>, text: Seq<char>, j: int)
    requires
        0 <= j < s.len(),
        s[j].text == text,
    ensures
        text_position(s, text) is Some,
    decreases j,
{
    if forall|k: int| 0 <= k < j ==> s[k].text != text {
        lemma_text_position_at(s, text, j);
    } else {
        let k = choose|k: int| 0 <= k < j && s[k].text == text;
        lemma_text_present_has_position(s, text, k);
    }
}

/// An id that occurs in `s` has a first position.
pub proof fn lemma_id_present_has_position(s: Seq<Entry>, id: u64, j: int)
    requires
        0 <= j < s.len(),
        s[j].id == id,
    ensures
        id_position(s, id) is Some,
    decreases j,
{
    if forall|k: int| 0 <= k < j ==> s[k].id != id {
        lemma_id_position_at(s, id, j);
    } else {
        let k = choose|k: int| 0 <= k < j && s[k].id == id;
        lemma_id_present_has_position(s, id, k);
    }
}

/// Every entry after an addition is the new entry or an entry from before.
pub proof fn lemma_add_entries_origin(h: HistoryView, text: Seq<char>, now: u64)
    requires
        add_changes(h, text),
    ensures
        ({
            let r = after_add(h, text, now).items;
            &&& h.cap >= 1 ==> r.len() >= 1
            &&& r.len() >= 1 ==> r[0] == (Entry { id: h.next_id, text, created_at: now })
            &&& forall|i: int| 1 <= i < r.len() ==> h.items.contains(#[trigger] r[i])
        }),
{
    let s = h.items;
    lemma_text_position_valid(s, text);
    let base = without_text(s, text);
    let full = seq![Entry { id: h.next_id, text, created_at: now }] + base;
    let r = after_add(h, text, now).items;
    if r.len() >= 1 {
        assert(r[0] == full[0]);
    }
    assert forall|i: int| 1 <= i < r.len() implies s.contains(#[trigger] r[i]) by {
        assert(r[i] == full[i]);
        assert(full[i] == base[i - 1]);
        match text_position(s, text) {
            Some(p) => {
                if i - 1 < p {
                    assert(base[i - 1] == s[i - 1]);
                } else {
                    assert(base[i - 1] == s[i]);
                }
            },
            None => {
                assert(base[i - 1] == s[i - 1]);
            },
        }
    }
}

/// After adding a non-empty text to a history that keeps at least one
/// entry, the newest entry holds that text; when the addition changed the
/// history, the newest entry is the new one, with the next id and the given
/// time.
pub proof fn lemma_add_puts_text_first(h: HistoryView, text: Seq<char>, now: u64)
    requires
        h.cap >= 1,
        text.len() > 0,
    ensures
        after_add(h, text, now).items.len() >= 1,
        after_add(h, text, now).items[0].text == text,
        add_changes(h, text) ==> after_add(h, text, now).items[0] == (Entry {
            id: h.next_id,
            text,
            created_at: now,
        }),
{
    lemma_text_position_valid(h.items, text);
    if add_changes(h, text) {
        lemma_add_entries_origin(h, text, now);
    }
}

/// Adding the same text twice in a row changes the history only once: the
/// second addition reports no change and leaves the history as it is.
pub proof fn lemma_add_twice(h: HistoryView, text: Seq<char>, t1: u64, t2: u64)
    requires
        h.cap >= 1,
    ensures
        !add_changes(after_add(h, text, t1), text),
        after_add(after_add(h, text, t1), text, t2) == after_add(h, text, t1),
{
    if text.len() > 0 {
        lemma_add_puts_text_first(h, text, t1);
        let s = after_add(h, text, t1).items;
        assert(first_text_at(s, text, 0));
        lemma_text_position_at(s, text, 0);
    }
}

/// A history holds at most as many entries as its capacity after a change
/// by addition, and an addition never takes a history over its capacity.
pub proof fn lemma_add_bounded(h: HistoryView, text: Seq<char>, now: u64)
    ensures
        add_changes(h, text) ==> after_add(h, text, now).items.len() <= h.cap,
        h.items.len() <= h.cap ==> after_add(h, text, now).items.len() <= h.cap,
        after_add(h, text, now).cap == h.cap,
{
}

/// Setting a capacity of zero is setting a capacity of one, and afterwards
/// the history holds at most that many entries.
pub proof fn lemma_set_cap_bounded(h: HistoryView, cap: usize)
    ensures
        after_set_cap(h, 0) == after_set_cap(h, 1),
        after_set_cap(h, cap).cap >= 1,
        after_set_cap(h, cap).items.len() <= after_set_cap(h, cap).cap,
        cap >= 1 ==> after_set_cap(h, cap).cap == cap,
{
}

/// Adding keeps the texts of a history free of duplicates: a text that is
/// already stored moves to the front instead of being stored twice.
pub proof fn lemma_add_keeps_texts_unique(h: HistoryView, text: Seq<char>, now: u64)
    requires
        texts_unique(h.items),
    ensures
        texts_unique(after_add(h, text, now).items),
{
    if add_changes(h, text) {
        let s = h.items;
        let base = without_text(s, text);
        lemma_text_position_valid(s, text);
        match text_position(s, text) {
            Some(p) => {
                assert forall|i: int| 0 <= i < base.len() implies #[trigger] base[i].text != text by {
                    if i < p {
                        assert(base[i] == s[i]);
                    } else {
                        assert(base[i] == s[i + 1]);
                        assert(s[p].text != s[i + 1].text);
                    }
                }
                assert forall|i: int, j: int|
                    #![trigger base[i], base[j]]
                    0 <= i < j < base.len() implies base[i].text != base[j].text by {
                    let a = if i < p {
                        i
                    } else {
                        i + 1
                    };
                    let b = if j < p {
                        j
                    } else {
                        j + 1
                    };
                    assert(base[i] == s[a]);
                    assert(base[j] == s[b]);
                    assert(s[a].text != s[b].text);
                }
            },
            None => {
                assert forall|i: int| 0 <= i < base.len() implies #[trigger] base[i].text != text by {
                    if s[i].text == text {
                        lemma_text_present_has_position(s, text, i);
                    }
                }
            },
        }
        let e = Entry { id: h.next_id, text, created_at: now };
        let full = seq![e] + base;
        assert forall|i: int, j: int|
            #![trigger full[i], full[j]]
            0 <= i < j < full.len() implies full[i].text != full[j].text by {
            if i == 0 {
                assert(full[j] == base[j - 1]);
            } else {
                assert(full[i] == base[i - 1]);
                assert(full[j] == base[j - 1]);
            }
        }
        let r = after_add(h, text, now).items;
        assert forall|i: int, j: int|
            #![trigger r[i], r[j]]
            0 <= i < j < r.len() implies r[i].text != r[j].text by {
            assert(r[i] == full[i]);
            assert(r[j] == full[j]);
        }
    }
}

/// The entry an addition creates is found again by its id: selecting that id
/// hands back the added text and leaves the history as it is.
pub proof fn lemma_add_then_select(h: HistoryView, text: Seq<char>, now: u64)
    requires
        h.cap >= 1,
        add_changes(h, text),
    ensures
        selected_text(after_add(h, text, now), h.next_id) == Some(text),
        after_select(after_add(h, text, now), h.next_id) == after_add(h, text, now),
{
    lemma_add_entries_origin(h, text, now);
    let a = after_add(h, text, now);
    assert(first_id_at(a.items, h.next_id, 0));
    lemma_id_position_at(a.items, h.next_id, 0);
    assert(seq![a.items[0]] + a.items.remove(0) =~= a.items);
}

/// Where entry `i` of the history after moving entry `p` to the front came from.
pub open spec fn moved_from(p: int, i: int) -> int {
    if i == 0 {
        p
    } else if i - 1 < p {
        i - 1
    } else {
        i
    }
}

/// Selecting keeps the number of entries and which entries there are: it
/// only reorders them.
pub proof fn lemma_select_keeps_entries(h: HistoryView, id: u64)
    ensures
        after_select(h, id).items.len() == h.items.len(),
        forall|e: Entry| after_select(h, id).items.contains(e) <==> h.items.contains(e),
        after_select(h, id).cap == h.cap,
        after_select(h, id).next_id == h.next_id,
        texts_unique(h.items) ==> texts_unique(after_select(h, id).items),
        ids_unique(h.items) ==> ids_unique(after_select(h, id).items),
        texts_nonempty(h.items) ==> texts_nonempty(after_select(h, id).items),
{
    lemma_id_position_valid(h.items, id);
    match id_position(h.items, id) {
        Some(p) => {
            let s = h.items;
            let r = after_select(h, id).items;
            assert(r == seq![s[p]] + s.remove(p));
            let src = |i: int| moved_from(p, i);
            assert forall|i: int| 0 <= i < r.len() implies 0 <= #[trigger] src(i) < s.len() && r[i]
                == s[src(i)] by {}
            assert(picks_distinct(s, r, src));
            lemma_picks_keep_properties(s, r, src);
            assert forall|e: Entry| r.contains(e) <==> s.contains(e) by {
                if s.contains(e) {
                    let k = choose|k: int| 0 <= k < s.len() && s[k] == e;
                    let i = if k == p {
                        0
                    } else if k < p {
                        k + 1
                    } else {
                        k
                    };
                    assert(r[i] == s[moved_from(p, i)]);
                }
            }
        },
        None => {},
    }
}

/// Selecting an id that no entry has hands back nothing; selecting an id
/// that some entry has hands back the text of the first such entry.
pub proof fn lemma_select_finds_present_id(h: HistoryView, id: u64, j: int)
    requires
        0 <= j < h.items.len(),
        h.items[j].id == id,
    ensures
        selected_text(h, id) is Some,
        after_select(h, id).items[0].id == id,
{
    lemma_id_present_has_position(h.items, id, j);
    lemma_id_position_valid(h.items, id);
}

/// Deleting an id removes exactly the entries with that id: every other
/// entry stays, in its order.
pub proof fn lemma_delete_removes_exactly(s: Seq<Entry>, id: u64)
    ensures
        forall|e: Entry|
            #![trigger without_id(s, id).contains(e)]
            #![trigger s.contains(e)]
            without_id(s, id).contains(e) <==> (s.contains(e) && e.id != id),
        without_id(s, id).len() <= s.len(),
    decreases s.len(),
{
    if s.len() > 0 {
        let init = s.drop_last();
        lemma_delete_removes_exactly(init, id);
        let rest = without_id(init, id);
        assert forall|e: Entry| without_id(s, id).contains(e) <==> (s.contains(e) && e.id != id) by {
            if s.contains(e) && e.id != id {
                let k = choose|k: int| 0 <= k < s.len() && s[k] == e;
                if k < s.len() - 1 {
                    assert(init[k] == e);
                    assert(init.contains(e));
                    assert(rest.contains(e));
                    let m = choose|m: int| 0 <= m < rest.len() && rest[m] == e;
                    if s.last().id != id {
                        assert(rest.push(s.last())[m] == e);
                    }
                } else {
                    assert(rest.push(s.last())[rest.len() as int] == e);
                }
            }
            if without_id(s, id).contains(e) {
                let m = choose|m: int|
                    0 <= m < without_id(s, id).len() && without_id(s, id)[m] == e;
                if m < rest.len() {
                    assert(rest[m] == e);
                    assert(rest.contains(e));
                    let k = choose|k: int| 0 <= k < init.len() && init[k] == e;
                    assert(s[k] == e);
                } else {
                    assert(e == s.last());
                    assert(s[s.len() - 1] == e);
                }
            }
        }
    }
}

/// Deleting keeps the entries free of duplicate texts and ids.
pub proof fn lemma_delete_keeps_unique(s: Seq<Entry>, id: u64)
    ensures
        texts_unique(s) ==> texts_unique(without_id(s, id)),
        ids_unique(s) ==> ids_unique(without_id(s, id)),
    decreases s.len(),
{
    if s.len() > 0 {
        let init = s.drop_last();
        lemma_delete_keeps_unique(init, id);
        lemma_delete_removes_exactly(init, id);
        let rest = without_id(init, id);
        if s.last().id != id {
            let r = rest.push(s.last());
            if texts_unique(s) {
                assert(texts_unique(init));
                assert forall|i: int, j: int|
                    #![trigger r[i], r[j]]
                    0 <= i < j < r.len() implies r[i].text != r[j].text by {
                    if j == rest.len() {
                        assert(rest.contains(r[i]));
                        let k = choose|k: int| 0 <= k < init.len() && init[k] == r[i];
                        assert(s[k] == r[i]);
                        assert(s[s.len() - 1] == r[j]);
                    } else {
                        assert(r[i] == rest[i]);
                        assert(r[j] == rest[j]);
                    }
                }
            }
            if ids_unique(s) {
                assert(ids_unique(init));
                assert forall|i: int, j: int|
                    #![trigger r[i], r[j]]
                    0 <= i < j < r.len() implies r[i].id != r[j].id by {
                    if j == rest.len() {
                        assert(rest.contains(r[i]));
                        let k = choose|k: int| 0 <= k < init.len() && init[k] == r[i];
                        assert(s[k] == r[i]);
                        assert(s[s.len() - 1] == r[j]);
                    } else {
                        assert(r[i] == rest[i]);
                        assert(r[j] == rest[j]);
                    }
                }
            }
        } else {
            if texts_unique(s) {
                assert(texts_unique(init));
            }
            if ids_unique(s) {
                assert(ids_unique(init));
            }
        }
    }
}

/// The largest id is at least every id.
pub proof fn lemma_max_id_bounds(s: Seq<Entry>)
    ensures
        forall|i: int| 0 <= i < s.len() ==> #[trigger] s[i].id <= max_id(s),
    decreases s.len(),
{
    if s.len() > 0 {
        lemma_max_id_bounds(s.drop_last());
        assert forall|i: int| 0 <= i < s.len() implies #[trigger] s[i].id <= max_id(s) by {
            if i < s.len() - 1 {
                assert(s[i] == s.drop_last()[i]);
            }
        }
    }
}

/// A loaded history hands out ids above every loaded id.
pub proof fn lemma_loaded_ids_below_next(h: HistoryView)
    requires
        h.next_id == max_id(h.items) + 1,
    ensures
        ids_below_next(h),
{
    lemma_max_id_bounds(h.items);
}

/// Every operation keeps the ids of a history below the next id it hands
/// out and free of duplicates; an addition does so while the next id has not
/// reached `u64::MAX`.
pub proof fn lemma_ids_stay_fresh(h: HistoryView, text: Seq<char>, now: u64, id: u64, cap: usize, persist: bool)
    requires
        ids_fresh(h),
    ensures
        h.next_id < u64::MAX ==> ids_below_next(after_add(h, text, now)) && ids_unique(
            after_add(h, text, now).items,
        ),
        ids_below_next(after_select(h, id)) && ids_unique(after_select(h, id).items),
        ids_below_next(after_delete(h, id)) && ids_unique(after_delete(h, id).items),
        ids_below_next(after_set_cap(h, cap)) && ids_unique(after_set_cap(h, cap).items),
        ids_below_next(with_items(h, Seq::empty())),
        ids_below_next(with_persist(h, persist)) && ids_unique(with_persist(h, persist).items),
{
    // addition
    if h.next_id < u64::MAX && add_changes(h, text) {
        lemma_add_entries_origin(h, text, now);
        let a = after_add(h, text, now);
        let r = a.items;
        assert forall|i: int| 0 <= i < r.len() implies #[trigger] r[i].id < a.next_id by {
            if i > 0 {
                assert(h.items.contains(r[i]));
                let k = choose|k: int| 0 <= k < h.items.len() && h.items[k] == r[i];
                assert(h.items[k].id < h.next_id);
            }
        }
        // the entries after the new one are a subsequence of the old ones
        let s = h.items;
        let base = without_text(s, text);
        let full = seq![r[0]] + base;
        lemma_text_position_valid(s, text);
        assert forall|i: int, j: int|
            #![trigger r[i], r[j]]
            0 <= i < j < r.len() implies r[i].id != r[j].id by {
            assert(r[i] == full[i]);
            assert(r[j] == full[j]);
            assert(full[j] == base[j - 1]);
            let b = match text_position(s, text) {
                Some(p) => if j - 1 < p {
                    j - 1
                } else {
                    j
                },
                None => j - 1,
            };
            assert(base[j - 1] == s[b]);
            if i == 0 {
                assert(s[b].id < h.next_id);
            } else {
                assert(full[i] == base[i - 1]);
                let a = match text_position(s, text) {
                    Some(p) => if i - 1 < p {
                        i - 1
                    } else {
                        i
                    },
                    None => i - 1,
                };
                assert(base[i - 1] == s[a]);
                assert(a < b);
                assert(s[a].id != s[b].id);
            }
        }
    }
    // selection
    lemma_select_keeps_entries(h, id);
    let sel = after_select(h, id);
    assert forall|i: int| 0 <= i < sel.items.len() implies #[trigger] sel.items[i].id < sel.next_id by {
        assert(sel.items.contains(sel.items[i]));
        let k = choose|k: int| 0 <= k < h.items.len() && h.items[k] == sel.items[i];
        assert(h.items[k].id < h.next_id);
    }
    // deletion
    lemma_delete_removes_exactly(h.items, id);
    lemma_delete_keeps_unique(h.items, id);
    let del = after_delete(h, id);
    assert forall|i: int| 0 <= i < del.items.len() implies #[trigger] del.items[i].id < del.next_id by {
        assert(del.items.contains(del.items[i]));
        let k = choose|k: int| 0 <= k < h.items.len() && h.items[k] == del.items[i];
        assert(h.items[k].id < h.next_id);
    }
    // capacity
    let sc = after_set_cap(h, cap);
    assert forall|i: int| 0 <= i < sc.items.len() implies #[trigger] sc.items[i].id < sc.next_id by {
        assert(sc.items[i] == h.items[i]);
    }
    assert forall|i: int, j: int|
        #![trigger sc.items[i], sc.items[j]]
        0 <= i < j < sc.items.len() implies sc.items[i].id != sc.items[j].id by {
        assert(sc.items[i] == h.items[i]);
        assert(sc.items[j] == h.items[j]);
    }
}

/// Capacity changes keep the texts free of duplicates.
pub proof fn lemma_set_cap_keeps_texts_unique(h: HistoryView, cap: usize)
    requires
        texts_unique(h.items),
    ensures
        texts_unique(after_set_cap(h, cap).items),
{
    let r = after_set_cap(h, cap).items;
    assert forall|i: int, j: int|
        #![trigger r[i], r[j]]
        0 <= i < j < r.len() implies r[i].text != r[j].text by {
        assert(r[i] == h.items[i]);
        assert(r[j] == h.items[j]);
    }
}

/// A clipboard text equal to the last one seen (the echo of an own write, or
/// a repeated read) is ignored: the history does not change.
pub proof fn lemma_echo_ignored(h: HistoryView, text: Seq<char>, sensitive: bool, now: u64)
    ensures
        !observation_recorded(text, sensitive, Some(text)),
        after_observe(h, text, sensitive, Some(text), now) == h,
{
}

/// Sensitive clipboard content never reaches the history.
pub proof fn lemma_sensitive_ignored(
    h: HistoryView,
    last: Seq<char>,
    read: Option<Seq<char>>,
    now: u64,
)
    ensures
        !observation_recorded(last, true, read),
        after_observe(h, last, true, read, now) == h,
{
}

/// A recorded clipboard text becomes the newest entry of the history.
pub proof fn lemma_observed_text_first(
    h: HistoryView,
    last: Seq<char>,
    text: Seq<char>,
    now: u64,
)
    requires
        h.cap >= 1,
        observation_recorded(last, false, Some(text)),
    ensures
        after_observe(h, last, false, Some(text), now).items[0].text == text,
{
    lemma_add_puts_text_first(h, text, now);
}

/// After an edit is committed, the new text is the newest entry; when the
/// previous clipboard text was kept and the history holds at least two
/// entries, the previous text stands right behind it.
pub proof fn lemma_commit_order(
    h: HistoryView,
    prev: Option<Seq<char>>,
    new_text: Seq<char>,
    t1: u64,
    t2: u64,
)
    requires
        h.cap >= 1,
        new_text.len() > 0,
    ensures
        after_commit(h, prev, new_text, t1, t2).items[0].text == new_text,
        keeps_previous(prev, new_text) && h.cap >= 2 ==> after_commit(
            h,
            prev,
            new_text,
            t1,
            t2,
        ).items[1].text == prev.unwrap(),
{
    let h1 = after_keep_previous(h, prev, new_text, t1);
    lemma_add_puts_text_first(h1, new_text, t2);
    if keeps_previous(prev, new_text) && h.cap >= 2 {
        let p = prev.unwrap();
        lemma_add_puts_text_first(h, p, t1);
        let s = h1.items;
        assert(s[0].text == p);
        assert(text_position(s, p) == Some(0int)) by {
            assert(first_text_at(s, p, 0));
            lemma_text_position_at(s, p, 0);
        }
        lemma_text_position_valid(s, new_text);
        assert(text_position(s, new_text) != Some(0int));
        assert(add_changes(h1, new_text));
        let base = without_text(s, new_text);
        assert(base[0] == s[0]);
        let full = seq![Entry { id: h1.next_id, text: new_text, created_at: t2 }] + base;
        assert(full[1] == base[0]);
        assert(full.len() >= 2);
    }
}

/// Deleting an id leaves no entry with it: selecting it afterwards hands
/// back nothing and changes nothing.
pub proof fn lemma_delete_then_select(h: HistoryView, id: u64)
    ensures
        selected_text(after_delete(h, id), id) is None,
        after_select(after_delete(h, id), id) == after_delete(h, id),
{
    lemma_delete_removes_exactly(h.items, id);
    let r = after_delete(h, id).items;
    assert forall|j: int| 0 <= j < r.len() implies r[j].id != id by {
        assert(r.contains(r[j]));
    }
    lemma_id_absent(r, id);
}

/// What was stored is what is read back, and the file stays the same.
pub proof fn lemma_settings_read_back(st: SettingsStateView, settings: SettingsView)
    ensures
        after_save(st, settings).settings == settings,
        after_save(st, settings).path == st.path,
        after_save(after_save(st, settings), settings) == after_save(st, settings),
{
}

/// Only the first start counts as the first: once the flag is set, setting
/// it again changes nothing; autostart changes leave the flag alone.
pub proof fn lemma_launched_once(s: SettingsView, enabled: bool)
    ensures
        with_launched(s).launched_before,
        with_launched(with_launched(s)) == with_launched(s),
        with_autostart(s, enabled).launched_before == s.launched_before,
        with_autostart(s, enabled).autostart == enabled,
{
}

/// The entries a history is loaded with hold no text twice, each of them is
/// one of the given entries, and they keep the given entries' distinct ids
/// and non-empty texts.
pub proof fn lemma_distinct_entries(s: Seq<Entry>)
    ensures
        texts_unique(distinct_entries(s)),
        ids_unique(s) ==> ids_unique(distinct_entries(s)),
        texts_nonempty(s) ==> texts_nonempty(distinct_entries(s)),
        forall|i: int|
            0 <= i < distinct_entries(s).len() ==> s.contains(#[trigger] distinct_entries(s)[i]),
        distinct_entries(s).len() <= s.len(),
    decreases s.len(),
{
    if s.len() > 0 {
        let init = s.drop_last();
        lemma_distinct_entries(init);
        let k = distinct_entries(init);
        let e = s.last();
        let d = distinct_entries(s);
        assert forall|i: int| 0 <= i < d.len() implies s.contains(#[trigger] d[i]) by {
            if i < k.len() {
                assert(d[i] == k[i]);
                assert(init.contains(k[i]));
                let m = choose|m: int| 0 <= m < init.len() && init[m] == k[i];
                assert(s[m] == init[m]);
            } else {
                assert(d[i] == e);
                assert(s[s.len() - 1] == e);
            }
        }
        if ids_unique(s) {
            assert(ids_unique(init)) by {
                assert forall|i: int, j: int|
                    #![trigger init[i], init[j]]
                    0 <= i < j < init.len() implies init[i].id != init[j].id by {
                    assert(init[i] == s[i] && init[j] == s[j]);
                }
            }
        }
        if texts_nonempty(s) {
            assert(texts_nonempty(init)) by {
                assert forall|i: int| 0 <= i < init.len() implies #[trigger] init[i].text.len()
                    > 0 by {
                    assert(init[i] == s[i]);
                }
            }
            assert forall|i: int| 0 <= i < d.len() implies #[trigger] d[i].text.len() > 0 by {
                assert(s.contains(d[i]));
                let m = choose|m: int| 0 <= m < s.len() && s[m] == d[i];
                assert(s[m].text.len() > 0);
            }
        }
        if !holds_text(k, e.text) {
            assert forall|i: int, j: int|
                #![trigger d[i], d[j]]
                0 <= i < j < d.len() implies d[i].text != d[j].text by {
                assert(d[i] == k[i]);
                if j == k.len() {
                    if k[i].text == e.text {
                        assert(holds_text(k, e.text));
                    }
                } else {
                    assert(d[j] == k[j]);
                }
            }
            if ids_unique(s) {
                assert forall|i: int, j: int|
                    #![trigger d[i], d[j]]
                    0 <= i < j < d.len() implies d[i].id != d[j].id by {
                    assert(d[i] == k[i]);
                    if j == k.len() {
                        assert(init.contains(k[i]));
                        let m = choose|m: int| 0 <= m < init.len() && init[m] == k[i];
                        assert(s[m] == k[i]);
                        assert(s[s.len() - 1] == e);
                        assert(s[m].id != s[s.len() - 1].id);
                    } else {
                        assert(d[j] == k[j]);
                    }
                }
            }
        }
    }
}

/// Entries that hold no text twice are all kept by loading.
pub proof fn lemma_distinct_entries_keeps_unique(s: Seq<Entry>)
    requires
        texts_unique(s),
    ensures
        distinct_entries(s) == s,
    decreases s.len(),
{
    if s.len() > 0 {
        let init = s.drop_last();
        assert(texts_unique(init)) by {
            assert forall|i: int, j: int|
                #![trigger init[i], init[j]]
                0 <= i < j < init.len() implies init[i].text != init[j].text by {
                assert(init[i] == s[i] && init[j] == s[j]);
            }
        }
        lemma_distinct_entries_keeps_unique(init);
        let e = s.last();
        if holds_text(init, e.text) {
            let i = choose|i: int| 0 <= i < init.len() && #[trigger] init[i].text == e.text;
            assert(s[i] == init[i]);
            assert(s[i].text != s[s.len() - 1].text);
        }
        assert(init.push(e) =~= s);
    }
}

/// What a history wrote is what it reads back: entries that hold no text
/// twice and fit the capacity come back unchanged, in their order.
pub proof fn lemma_load_round_trip(loaded: Seq<Entry>, cap: usize)
    requires
        texts_unique(loaded),
        loaded.len() <= clamp_cap(cap),
    ensures
        keep_newest(distinct_entries(loaded), clamp_cap(cap)) == loaded,
{
    lemma_distinct_entries_keeps_unique(loaded);
}

/// A loaded history is well formed and hands out ids above every loaded id;
/// its ids are fresh when the loaded ids are distinct.
pub proof fn lemma_loaded_history(h: HistoryView, loaded: Seq<Entry>, cap: usize)
    requires
        h.cap == clamp_cap(cap),
        h.items == keep_newest(distinct_entries(loaded), h.cap),
        h.next_id == max_id(loaded) + 1,
    ensures
        history_wf(h),
        ids_below_next(h),
        ids_unique(loaded) ==> ids_fresh(h),
{
    let d = distinct_entries(loaded);
    lemma_distinct_entries(loaded);
    lemma_keep_newest_keeps_properties(d, h.cap);
    lemma_max_id_bounds(loaded);
    assert forall|i: int| 0 <= i < h.items.len() implies #[trigger] h.items[i].id < h.next_id by {
        assert(h.items[i] == d[i]);
        assert(loaded.contains(d[i]));
        let m = choose|m: int| 0 <= m < loaded.len() && loaded[m] == d[i];
        assert(loaded[m].id <= max_id(loaded));
    }
}

/// Every operation keeps a history well formed: at least one entry kept, no
/// more entries than the capacity, no text twice.
pub proof fn lemma_ops_keep_wf(
    h: HistoryView,
    text: Seq<char>,
    now: u64,
    id: u64,
    cap: usize,
    persist: bool,
)
    requires
        history_wf(h),
    ensures
        history_wf(after_add(h, text, now)),
        history_wf(after_select(h, id)),
        history_wf(after_delete(h, id)),
        history_wf(after_set_cap(h, cap)),
        history_wf(with_items(h, Seq::empty())),
        history_wf(with_persist(h, persist)),
{
    lemma_add_bounded(h, text, now);
    lemma_add_keeps_texts_unique(h, text, now);
    lemma_select_keeps_entries(h, id);
    lemma_delete_removes_exactly(h.items, id);
    lemma_delete_keeps_unique(h.items, id);
    lemma_keep_newest_keeps_properties(h.items, clamp_cap(cap));
    assert(texts_unique(Seq::<Entry>::empty()));
}

/// No operation stores an empty text: a history without empty texts stays
/// so.
pub proof fn lemma_ops_keep_texts_nonempty(
    h: HistoryView,
    text: Seq<char>,
    now: u64,
    id: u64,
    cap: usize,
)
    requires
        texts_nonempty(h.items),
    ensures
        texts_nonempty(after_add(h, text, now).items),
        texts_nonempty(after_select(h, id).items),
        texts_nonempty(after_delete(h, id).items),
        texts_nonempty(after_set_cap(h, cap).items),
{
    if add_changes(h, text) {
        lemma_add_entries_origin(h, text, now);
        let r = after_add(h, text, now).items;
        assert forall|i: int| 0 <= i < r.len() implies #[trigger] r[i].text.len() > 0 by {
            if i > 0 {
                assert(h.items.contains(r[i]));
                let k = choose|k: int| 0 <= k < h.items.len() && h.items[k] == r[i];
                assert(h.items[k].text.len() > 0);
            }
        }
    }
    lemma_select_keeps_entries(h, id);
    lemma_delete_removes_exactly(h.items, id);
    let del = without_id(h.items, id);
    assert forall|i: int| 0 <= i < del.len() implies #[trigger] del[i].text.len() > 0 by {
        assert(del.contains(del[i]));
        let k = choose|k: int| 0 <= k < h.items.len() && h.items[k] == del[i];
        assert(h.items[k].text.len() > 0);
    }
    lemma_keep_newest_keeps_properties(h.items, clamp_cap(cap));
}

/// Whether a clipboard change is recorded depends on nothing but this: the
/// content is not sensitive, a text could be read, it is not empty, and it
/// differs from the last text seen.
pub proof fn lemma_observation_recorded_exactly(
    last: Seq<char>,
    sensitive: bool,
    read: Option<Seq<char>>,
)
    ensures
        observation_recorded(last, sensitive, read) <==> (!sensitive && read is Some
            && read.unwrap().len() > 0 && read.unwrap() != last),
{
}

/// A readable, non-empty, non-sensitive text that differs from the last one
/// seen is added to the history, exactly as an addition adds it, and ends up
/// as the newest entry.
pub proof fn lemma_observe_records_new_text(
    h: HistoryView,
    last: Seq<char>,
    text: Seq<char>,
    now: u64,
)
    requires
        text.len() > 0,
        text != last,
    ensures
        observation_recorded(last, false, Some(text)),
        after_observe(h, last, false, Some(text), now) == after_add(h, text, now),
        h.cap >= 1 ==> after_observe(h, last, false, Some(text), now).items[0].text == text,
{
    if h.cap >= 1 {
        lemma_add_puts_text_first(h, text, now);
    }
}

/// Keeping the newest `cap` entries drops exactly what lies beyond the
/// capacity: the result is the first `min(len, cap)` entries, in order.
pub proof fn lemma_keep_newest_exact(s: Seq<Entry>, cap: usize)
    ensures
        keep_newest(s, cap).len() == if s.len() < cap {
            s.len()
        } else {
            cap as nat
        },
        forall|i: int| 0 <= i < keep_newest(s, cap).len() ==> #[trigger] keep_newest(s, cap)[i] == s[i],
{
}

/// Adding a text that no entry holds puts it in front of all entries, keeps
/// their order, and drops only the oldest entry beyond the capacity: the
/// history grows by one up to the capacity.
pub proof fn lemma_add_new_text_shape(h: HistoryView, text: Seq<char>, now: u64)
    requires
        text.len() > 0,
        forall|j: int| 0 <= j < h.items.len() ==> h.items[j].text != text,
    ensures
        add_changes(h, text),
        after_add(h, text, now).items.len() == if h.items.len() + 1 < h.cap {
            h.items.len() + 1
        } else {
            h.cap as nat
        },
        h.cap >= 1 ==> after_add(h, text, now).items[0] == (Entry {
            id: h.next_id,
            text,
            created_at: now,
        }),
        forall|i: int|
            1 <= i < after_add(h, text, now).items.len() ==> #[trigger] after_add(
                h,
                text,
                now,
            ).items[i] == h.items[i - 1],
        after_add(h, text, now).next_id == next_after(h.next_id),
        after_add(h, text, now).cap == h.cap,
{
    lemma_text_absent(h.items, text);
}

/// Adding a text that an older entry holds moves that text to the front as a
/// new entry: the first entry holding it leaves, every other entry keeps its
/// place in the order, and the length stays, up to the capacity.
pub proof fn lemma_add_stored_text_shape(h: HistoryView, text: Seq<char>, now: u64, p: int)
    requires
        text.len() > 0,
        0 < p < h.items.len(),
        h.items[p].text == text,
        forall|j: int| 0 <= j < p ==> h.items[j].text != text,
    ensures
        add_changes(h, text),
        after_add(h, text, now).items.len() == if h.items.len() < h.cap {
            h.items.len()
        } else {
            h.cap as nat
        },
        h.cap >= 1 ==> after_add(h, text, now).items[0] == (Entry {
            id: h.next_id,
            text,
            created_at: now,
        }),
        forall|i: int|
            1 <= i <= p && i < after_add(h, text, now).items.len() ==> #[trigger] after_add(
                h,
                text,
                now,
            ).items[i] == h.items[i - 1],
        forall|i: int|
            p < i < after_add(h, text, now).items.len() ==> #[trigger] after_add(
                h,
                text,
                now,
            ).items[i] == h.items[i],
        after_add(h, text, now).next_id == next_after(h.next_id),
{
    assert(first_text_at(h.items, text, p));
    lemma_text_position_at(h.items, text, p);
    let base = h.items.remove(p);
    let full = seq![Entry { id: h.next_id, text, created_at: now }] + base;
    let r = after_add(h, text, now).items;
    assert forall|i: int| 1 <= i <= p && i < r.len() implies #[trigger] r[i] == h.items[i - 1] by {
        assert(r[i] == full[i]);
        assert(full[i] == base[i - 1]);
    }
    assert forall|i: int| p < i < r.len() implies #[trigger] r[i] == h.items[i] by {
        assert(r[i] == full[i]);
        assert(full[i] == base[i - 1]);
    }
}

/// An addition reports a change exactly when it changes the history.
pub proof fn lemma_add_changes_iff_differs(h: HistoryView, text: Seq<char>, now: u64)
    ensures
        add_changes(h, text) <==> after_add(h, text, now) != h,
{
    if add_changes(h, text) {
        assert(after_add(h, text, now).next_id != h.next_id);
    }
}

/// Committing an edit reports a change exactly when it changes the history.
pub proof fn lemma_commit_changes_iff_differs(
    h: HistoryView,
    prev: Option<Seq<char>>,
    new_text: Seq<char>,
    t1: u64,
    t2: u64,
)
    ensures
        commit_changes(h, prev, new_text, t1) <==> after_commit(h, prev, new_text, t1, t2) != h,
{
    let h1 = after_keep_previous(h, prev, new_text, t1);
    let h2 = after_commit(h, prev, new_text, t1, t2);
    lemma_add_changes_iff_differs(h1, new_text, t2);
    let first = keeps_previous(prev, new_text) && add_changes(h, prev.unwrap());
    if first {
        assert(h1.next_id == next_after(h.next_id));
    } else {
        assert(h1 == h);
    }
    if add_changes(h1, new_text) {
        assert(h2.next_id == next_after(h1.next_id));
        assert(h2.next_id != h.next_id);
    } else {
        assert(h2 == h1);
    }
}

/// Selecting an id that some entry has moves the first such entry to the
/// front and hands back its text; every other entry keeps its place in the
/// order, and nothing else changes.
pub proof fn lemma_select_moves_only_selected(h: HistoryView, id: u64, p: int)
    requires
        0 <= p < h.items.len(),
        h.items[p].id == id,
        forall|j: int| 0 <= j < p ==> h.items[j].id != id,
    ensures
        selected_text(h, id) == Some(h.items[p].text),
        after_select(h, id).items.len() == h.items.len(),
        after_select(h, id).items[0] == h.items[p],
        after_select(h, id).items.drop_first() == h.items.remove(p),
        forall|i: int| 1 <= i <= p ==> #[trigger] after_select(h, id).items[i] == h.items[i - 1],
        forall|i: int|
            p < i < h.items.len() ==> #[trigger] after_select(h, id).items[i] == h.items[i],
        after_select(h, id) == with_items(h, after_select(h, id).items),
{
    assert(first_id_at(h.items, id, p));
    lemma_id_position_at(h.items, id, p);
    let r = after_select(h, id).items;
    assert(r.drop_first() =~= h.items.remove(p));
}

/// Selecting an id that no entry has hands back nothing and changes nothing.
pub proof fn lemma_select_absent_id(h: HistoryView, id: u64)
    requires
        forall|j: int| 0 <= j < h.items.len() ==> h.items[j].id != id,
    ensures
        selected_text(h, id) is None,
        after_select(h, id) == h,
{
    lemma_id_absent(h.items, id);
}

/// Setting the capacity to `cap` makes it `cap`, or one for zero, and keeps
/// the newest entries up to that capacity, in order; nothing else changes.
pub proof fn lemma_set_cap_exact(h: HistoryView, cap: usize)
    ensures
        after_set_cap(h, cap).cap == if cap == 0 {
            1
        } else {
            cap
        },
        after_set_cap(h, cap).items.len() == if h.items.len() < after_set_cap(h, cap).cap {
            h.items.len()
        } else {
            after_set_cap(h, cap).cap as nat
        },
        forall|i: int|
            0 <= i < after_set_cap(h, cap).items.len() ==> #[trigger] after_set_cap(h, cap).items[i]
                == h.items[i],
        after_set_cap(h, cap).next_id == h.next_id,
        after_set_cap(h, cap).persist == h.persist,
        after_set_cap(h, cap).path == h.path,
{
}

} // verus!
