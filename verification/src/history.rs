use std::collections::VecDeque;
use vstd::prelude::*;

use crate::clock::now_millis;

verus! {

/// Number of entries kept when no other size has been configured.
pub const DEFAULT_CAP: usize = 100;

/// One remembered clipboard text.
#[derive(Debug, PartialEq, Eq)]
pub struct HistoryItem {
    pub id: u64,
    pub text: String,
    pub created_at: u64,
}

/// What a `HistoryItem` holds, as mathematical values.
pub struct Entry {
    pub id: u64,
    pub text: Seq<char>,
    pub created_at: u64,
}

impl View for HistoryItem {
    type V = Entry;

    open spec fn view(&self) -> Entry {
        Entry { id: self.id, text: self.text@, created_at: self.created_at }
    }
}

impl Clone for HistoryItem {
    fn clone(&self) -> (r: Self)
        ensures
            r@ == self@,
    {
        HistoryItem { id: self.id, text: self.text.clone(), created_at: self.created_at }
    }
}

/// The entries of a sequence of items, front (newest) first.
pub open spec fn entries(items: Seq<HistoryItem>) -> Seq<Entry> {
    Seq::new(items.len(), |i: int| items[i]@)
}

/// The abstract state of a history.
pub struct HistoryView {
    pub items: Seq<Entry>,
    pub path: Seq<char>,
    pub cap: usize,
    pub persist: bool,
    pub next_id: u64,
}

/// A capacity as the history uses it: at least one.
pub open spec fn clamp_cap(cap: usize) -> usize {
    if cap < 1 {
        1
    } else {
        cap
    }
}

/// The id handed out after `id`: one more, wrapping to zero past `u64::MAX`.
pub open spec fn next_after(id: u64) -> u64 {
    if id == u64::MAX {
        0
    } else {
        (id + 1) as u64
    }
}

/// `i` is the first index whose entry holds `text`.
pub open spec fn first_text_at(s: Seq<Entry>, text: Seq<char>, i: int) -> bool {
    &&& 0 <= i < s.len()
    &&& s[i].text == text
    &&& forall|j: int| 0 <= j < i ==> s[j].text != text
}

/// The index of the first entry that holds `text`, if any.
pub open spec fn text_position(s: Seq<Entry>, text: Seq<char>) -> Option<int> {
    if exists|i: int| first_text_at(s, text, i) {
        Some(choose|i: int| first_text_at(s, text, i))
    } else {
        None
    }
}

/// `i` is the first index whose entry has id `id`.
pub open spec fn first_id_at(s: Seq<Entry>, id: u64, i: int) -> bool {
    &&& 0 <= i < s.len()
    &&& s[i].id == id
    &&& forall|j: int| 0 <= j < i ==> s[j].id != id
}

/// The index of the first entry with id `id`, if any.
pub open spec fn id_position(s: Seq<Entry>, id: u64) -> Option<int> {
    if exists|i: int| first_id_at(s, id, i) {
        Some(choose|i: int| first_id_at(s, id, i))
    } else {
        None
    }
}

/// The newest `cap` entries of `s`.
pub open spec fn keep_newest(s: Seq<Entry>, cap: usize) -> Seq<Entry> {
    if s.len() > cap {
        s.take(cap as int)
    } else {
        s
    }
}

/// `s` without the first entry that holds `text`.
pub open spec fn without_text(s: Seq<Entry>, text: Seq<char>) -> Seq<Entry> {
    match text_position(s, text) {
        Some(p) => s.remove(p),
        None => s,
    }
}

/// `s` without any entry whose id is `id`, the others in their order.
pub open spec fn without_id(s: Seq<Entry>, id: u64) -> Seq<Entry>
    decreases s.len(),
{
    if s.len() == 0 {
        s
    } else {
        let rest = without_id(s.drop_last(), id);
        if s.last().id == id {
            rest
        } else {
            rest.push(s.last())
        }
    }
}

/// The largest id in `s`, zero when `s` is empty.
pub open spec fn max_id(s: Seq<Entry>) -> u64
    decreases s.len(),
{
    if s.len() == 0 {
        0
    } else {
        let m = max_id(s.drop_last());
        if s.last().id > m {
            s.last().id
        } else {
            m
        }
    }
}

/// Some entry of `s` holds `text`.
pub open spec fn holds_text(s: Seq<Entry>, text: Seq<char>) -> bool {
    exists|i: int| 0 <= i < s.len() && #[trigger] s[i].text == text
}

/// The entries of `s`, front first, without any entry whose text an
/// earlier kept entry already holds.
pub open spec fn distinct_entries(s: Seq<Entry>) -> Seq<Entry>
    decreases s.len(),
{
    if s.len() == 0 {
        s
    } else {
        let kept = distinct_entries(s.drop_last());
        let e = s.last();
        if holds_text(kept, e.text) {
            kept
        } else {
            kept.push(e)
        }
    }
}

/// No two entries hold the same text.
pub open spec fn texts_unique(s: Seq<Entry>) -> bool {
    forall|i: int, j: int|
        #![trigger s[i], s[j]]
        0 <= i < j < s.len() ==> s[i].text != s[j].text
}

/// No entry holds the empty text.
pub open spec fn texts_nonempty(s: Seq<Entry>) -> bool {
    forall|i: int| 0 <= i < s.len() ==> #[trigger] s[i].text.len() > 0
}

/// No two entries have the same id.
pub open spec fn ids_unique(s: Seq<Entry>) -> bool {
    forall|i: int, j: int| #![trigger s[i], s[j]] 0 <= i < j < s.len() ==> s[i].id != s[j].id
}

/// Every entry has an id below the next one to be handed out.
pub open spec fn ids_below_next(h: HistoryView) -> bool {
    forall|i: int| 0 <= i < h.items.len() ==> #[trigger] h.items[i].id < h.next_id
}

/// The history is well formed: it keeps at least one entry, holds no more
/// entries than its capacity, and holds each text at most once.
pub open spec fn history_wf(h: HistoryView) -> bool {
    &&& h.cap >= 1
    &&& h.items.len() <= h.cap
    &&& texts_unique(h.items)
}

/// The ids are distinct and below the next id to be handed out, so every
/// new entry gets an id no other entry has.
pub open spec fn ids_fresh(h: HistoryView) -> bool {
    ids_unique(h.items) && ids_below_next(h)
}

/// `h` with other items.
pub open spec fn with_items(h: HistoryView, items: Seq<Entry>) -> HistoryView {
    HistoryView { items, path: h.path, cap: h.cap, persist: h.persist, next_id: h.next_id }
}

/// Adding `text` changes the history: it is not empty and not already the newest entry.
pub open spec fn add_changes(h: HistoryView, text: Seq<char>) -> bool {
    text.len() > 0 && text_position(h.items, text) != Some(0int)
}

/// The history after adding `text` at time `now`.
pub open spec fn after_add(h: HistoryView, text: Seq<char>, now: u64) -> HistoryView {
    if add_changes(h, text) {
        HistoryView {
            items: keep_newest(
                seq![Entry { id: h.next_id, text, created_at: now }] + without_text(h.items, text),
                h.cap,
            ),
            path: h.path,
            cap: h.cap,
            persist: h.persist,
            next_id: next_after(h.next_id),
        }
    } else {
        h
    }
}

/// The text that selecting `id` hands back.
pub open spec fn selected_text(h: HistoryView, id: u64) -> Option<Seq<char>> {
    match id_position(h.items, id) {
        Some(p) => Some(h.items[p].text),
        None => None,
    }
}

/// The history after selecting `id`: its first entry moves to the front.
pub open spec fn after_select(h: HistoryView, id: u64) -> HistoryView {
    match id_position(h.items, id) {
        Some(p) => with_items(h, seq![h.items[p]] + h.items.remove(p)),
        None => h,
    }
}

/// The history after deleting `id`.
pub open spec fn after_delete(h: HistoryView, id: u64) -> HistoryView {
    with_items(h, without_id(h.items, id))
}

/// `h` with persistence turned on or off.
pub open spec fn with_persist(h: HistoryView, persist: bool) -> HistoryView {
    HistoryView { items: h.items, path: h.path, cap: h.cap, persist, next_id: h.next_id }
}

/// The history after setting the capacity to `cap`.
pub open spec fn after_set_cap(h: HistoryView, cap: usize) -> HistoryView {
    HistoryView {
        items: keep_newest(h.items, clamp_cap(cap)),
        path: h.path,
        cap: clamp_cap(cap),
        persist: h.persist,
        next_id: h.next_id,
    }
}

pub proof fn lemma_text_position_at(s: Seq<Entry>, text: Seq<char>, i: int)
    requires
        first_text_at(s, text, i),
    ensures
        text_position(s, text) == Some(i),
{
    let k = choose|k: int| first_text_at(s, text, k);
    assert(first_text_at(s, text, k));
    if k < i {
        assert(s[k].text != text);
    }
    if i < k {
        assert(s[i].text != text);
    }
}

pub proof fn lemma_text_absent(s: Seq<Entry>, text: Seq<char>)
    requires
        forall|j: int| 0 <= j < s.len() ==> s[j].text != text,
    ensures
        text_position(s, text) is None,
{
    if exists|i: int| first_text_at(s, text, i) {
        let i = choose|i: int| first_text_at(s, text, i);
        assert(s[i].text == text);
    }
}

pub proof fn lemma_id_position_at(s: Seq<Entry>, id: u64, i: int)
    requires
        first_id_at(s, id, i),
    ensures
        id_position(s, id) == Some(i),
{
    let k = choose|k: int| first_id_at(s, id, k);
    assert(first_id_at(s, id, k));
    if k < i {
        assert(s[k].id != id);
    }
    if i < k {
        assert(s[i].id != id);
    }
}

pub proof fn lemma_id_absent(s: Seq<Entry>, id: u64)
    requires
        forall|j: int| 0 <= j < s.len() ==> s[j].id != id,
    ensures
        id_position(s, id) is None,
{
    if exists|i: int| first_id_at(s, id, i) {
        let i = choose|i: int| first_id_at(s, id, i);
        assert(s[i].id == id);
    }
}

/// A text position, when there is one, lies inside the sequence and holds the text.
pub proof fn lemma_text_position_valid(s: Seq<Entry>, text: Seq<char>)
    ensures
        text_position(s, text) matches Some(p) ==> first_text_at(s, text, p),
{
}

/// An id position, when there is one, lies inside the sequence and holds the id.
pub proof fn lemma_id_position_valid(s: Seq<Entry>, id: u64)
    ensures
        id_position(s, id) matches Some(p) ==> first_id_at(s, id, p),
{
}

/// Drops items from the back of `items` until at most `cap` remain.
fn keep_newest_in(items: &mut VecDeque<HistoryItem>, cap: usize)
    ensures
        entries(final(items)@) == keep_newest(entries(old(items)@), cap),
{
    let ghost orig = items@;
    while items.len() > cap
        invariant
            items@.len() <= orig.len(),
            items@ == orig.take(items@.len() as int),
            orig.len() > cap ==> items@.len() >= cap,
            orig.len() <= cap ==> items@ == orig,
        decreases items@.len(),
    {
        let _ = items.pop_back();
    }
    proof {
        if orig.len() > cap {
            assert(entries(items@) =~= entries(orig).take(cap as int));
        } else {
            assert(items@ =~= orig);
        }
    }
}

/// A bounded clipboard history, newest entry first. Adding a text that is
/// already stored moves it to the front instead of storing it twice.
pub struct HistoryState {
    items: VecDeque<HistoryItem>,
    path: String,
    cap: usize,
    persist: bool,
    next_id: u64,
}

impl View for HistoryState {
    type V = HistoryView;

    closed spec fn view(&self) -> HistoryView {
        HistoryView {
            items: entries(self.items@),
            path: self.path@,
            cap: self.cap,
            persist: self.persist,
            next_id: self.next_id,
        }
    }
}

/// Whether some item holds `text`.
fn contains_text(items: &VecDeque<HistoryItem>, text: &String) -> (r: bool)
    ensures
        r == holds_text(entries(items@), text@),
{
    let n = items.len();
    let mut i: usize = 0;
    while i < n
        invariant
            n == items@.len(),
            i <= n,
            forall|j: int| 0 <= j < i ==> entries(items@)[j].text != text@,
        decreases n - i,
    {
        if items[i].text == *text {
            assert(entries(items@)[i as int].text == text@);
            return true;
        }
        i += 1;
    }
    false
}

impl HistoryState {
    /// The history is well formed: see `history_wf`.
    pub open spec fn wf(&self) -> bool {
        history_wf(self@)
    }

    /// Builds the history from the items read back from `path` (none when
    /// nothing could be read), the configured capacity and the persistence
    /// flag. It keeps, newest first, the entries whose text no newer entry
    /// holds, at most as many as the capacity (at least one); new ids
    /// continue after the largest id read back.
    pub fn load(path: String, items: Vec<HistoryItem>, cap: usize, persist: bool) -> (r: Self)
        requires
            forall|i: int| 0 <= i < items@.len() ==> items@[i].id < u64::MAX,
        ensures
            r.wf(),
            ids_below_next(r@),
            ids_unique(entries(items@)) ==> ids_fresh(r@),
            texts_unique(entries(items@)) && items@.len() <= clamp_cap(cap) ==> r@.items
                == entries(items@),
            r@.items == keep_newest(distinct_entries(entries(items@)), clamp_cap(cap)),
            r@.path == path@,
            r@.cap == clamp_cap(cap),
            r@.persist == persist,
            r@.next_id == max_id(entries(items@)) + 1,
    {
        let mut deque: VecDeque<HistoryItem> = VecDeque::new();
        let mut max: u64 = 0;
        let n = items.len();
        let mut i: usize = 0;
        while i < n
            invariant
                n == items@.len(),
                i <= n,
                forall|k: int| 0 <= k < items@.len() ==> items@[k].id < u64::MAX,
                entries(deque@) == distinct_entries(entries(items@).take(i as int)),
                max == max_id(entries(items@).take(i as int)),
                max < u64::MAX,
            decreases n - i,
        {
            let item = items[i].clone();
            proof {
                let s = entries(items@);
                assert(s.take(i + 1).drop_last() =~= s.take(i as int));
                assert(s.take(i + 1).last() == s[i as int]);
            }
            if item.id > max {
                max = item.id;
            }
            if !contains_text(&deque, &item.text) {
                let ghost before = deque@;
                deque.push_back(item);
                proof {
                    assert(entries(deque@) =~= entries(before).push(entries(items@)[i as int]));
                }
            }
            i += 1;
        }
        proof {
            assert(entries(items@).take(n as int) =~= entries(items@));
        }
        let cap = if cap < 1 {
            1
        } else {
            cap
        };
        keep_newest_in(&mut deque, cap);
        let r = HistoryState { items: deque, path, cap, persist, next_id: max + 1 };
        proof {
            crate::laws::lemma_loaded_history(r@, entries(items@), cap);
            if texts_unique(entries(items@)) && items@.len() <= clamp_cap(cap) {
                crate::laws::lemma_load_round_trip(entries(items@), cap);
            }
        }
        r
    }

    /// A copy of all entries, newest first.
    pub fn snapshot(&self) -> (r: Vec<HistoryItem>)
        ensures
            entries(r@) == self@.items,
    {
        let mut out: Vec<HistoryItem> = Vec::new();
        let n = self.items.len();
        let mut i: usize = 0;
        while i < n
            invariant
                n == self.items@.len(),
                i <= n,
                entries(out@) == entries(self.items@).take(i as int),
            decreases n - i,
        {
            let item = self.items[i].clone();
            assert(item@ == entries(self.items@)[i as int]);
            let ghost before = out@;
            out.push(item);
            proof {
                assert(entries(before).len() == before.len());
                assert(entries(out@) =~= entries(self.items@).take(i + 1));
            }
            i += 1;
        }
        proof {
            assert(entries(self.items@).take(n as int) =~= entries(self.items@));
        }
        out
    }

    /// The index of the first entry holding `text`.
    fn position_of_text(&self, text: &String) -> (r: Option<usize>)
        ensures
            match r {
                Some(i) => text_position(self@.items, text@) == Some(i as int),
                None => text_position(self@.items, text@) is None,
            },
    {
        let n = self.items.len();
        let mut i: usize = 0;
        while i < n
            invariant
                n == self.items@.len(),
                i <= n,
                forall|j: int| 0 <= j < i ==> self@.items[j].text != text@,
            decreases n - i,
        {
            if self.items[i].text == *text {
                proof {
                    lemma_text_position_at(self@.items, text@, i as int);
                }
                return Some(i);
            }
            i += 1;
        }
        proof {
            lemma_text_absent(self@.items, text@);
        }
        None
    }

    /// The index of the first entry with id `id`.
    fn position_of_id(&self, id: u64) -> (r: Option<usize>)
        ensures
            match r {
                Some(i) => id_position(self@.items, id) == Some(i as int),
                None => id_position(self@.items, id) is None,
            },
    {
        let n = self.items.len();
        let mut i: usize = 0;
        while i < n
            invariant
                n == self.items@.len(),
                i <= n,
                forall|j: int| 0 <= j < i ==> self@.items[j].id != id,
            decreases n - i,
        {
            if self.items[i].id == id {
                proof {
                    lemma_id_position_at(self@.items, id, i as int);
                }
                return Some(i);
            }
            i += 1;
        }
        proof {
            lemma_id_absent(self@.items, id);
        }
        None
    }

    /// Adds `text` at the front, stamped with `now`. A text that is already
    /// stored moves to the front instead of being stored twice; the oldest
    /// entries beyond the capacity are dropped. Returns whether the history
    /// changed: not for an empty text, nor for the text of the newest entry.
    pub fn add_at(&mut self, text: String, now: u64) -> (changed: bool)
        requires
            old(self).wf(),
        ensures
            final(self).wf(),
            changed == add_changes(old(self)@, text@),
            final(self)@ == after_add(old(self)@, text@, now),
            changed == (final(self)@ != old(self)@),
            ids_fresh(old(self)@) && old(self)@.next_id < u64::MAX ==> ids_fresh(final(self)@),
    {
        proof {
            crate::laws::lemma_ops_keep_wf(self@, text@, now, 0, 0, false);
            crate::laws::lemma_add_changes_iff_differs(self@, text@, now);
            if ids_fresh(self@) {
                crate::laws::lemma_ids_stay_fresh(self@, text@, now, 0, 0, false);
            }
        }
        if text.as_str().is_empty() {
            return false;
        }
        let ghost h0 = self@;
        let pos = self.position_of_text(&text);
        match pos {
            Some(p) => {
                if p == 0 {
                    return false;
                }
                let ghost before = self.items@;
                let _ = self.items.remove(p);
                proof {
                    assert(entries(self.items@) =~= entries(before).remove(p as int));
                }
            },
            None => {},
        }
        assert(entries(self.items@) == without_text(h0.items, text@));
        let id = self.next_id;
        self.next_id = if self.next_id == u64::MAX {
            0
        } else {
            self.next_id + 1
        };
        let ghost before = self.items@;
        self.items.push_front(HistoryItem { id, text, created_at: now });
        proof {
            assert(entries(self.items@) =~= seq![Entry { id, text: text@, created_at: now }]
                + entries(before));
        }
        keep_newest_in(&mut self.items, self.cap);
        true
    }

    /// Adds `text` at the front, stamped with the current time, as `add_at` does.
    pub fn add(&mut self, text: String) -> (changed: bool)
        requires
            old(self).wf(),
        ensures
            final(self).wf(),
            changed == add_changes(old(self)@, text@),
            exists|now: u64| final(self)@ == after_add(old(self)@, text@, now),
            changed == (final(self)@ != old(self)@),
            ids_fresh(old(self)@) && old(self)@.next_id < u64::MAX ==> ids_fresh(final(self)@),
    {
        let now = now_millis();
        self.add_at(text, now)
    }

    /// Moves the first entry with id `id` to the front and returns its text;
    /// `None`, with nothing changed, when no entry has that id.
    pub fn select(&mut self, id: u64) -> (r: Option<String>)
        requires
            old(self).wf(),
        ensures
            final(self).wf(),
            final(self)@ == after_select(old(self)@, id),
            match r {
                Some(t) => selected_text(old(self)@, id) == Some(t@),
                None => selected_text(old(self)@, id) is None,
            },
            ids_fresh(old(self)@) ==> ids_fresh(final(self)@),
    {
        proof {
            crate::laws::lemma_ops_keep_wf(self@, Seq::empty(), 0, id, 0, false);
            if ids_fresh(self@) {
                crate::laws::lemma_ids_stay_fresh(self@, Seq::empty(), 0, id, 0, false);
            }
        }
        let pos = self.position_of_id(id);
        match pos {
            None => None,
            Some(p) => {
                let ghost before = self.items@;
                let removed = self.items.remove(p);
                match removed {
                    Some(item) => {
                        let text = item.text.clone();
                        self.items.push_front(item);
                        proof {
                            assert(entries(self.items@) =~= seq![entries(before)[p as int]]
                                + entries(before).remove(p as int));
                        }
                        Some(text)
                    },
                    None => None,
                }
            },
        }
    }

    /// Removes every entry with id `id`, keeping the others in order.
    pub fn delete(&mut self, id: u64)
        requires
            old(self).wf(),
        ensures
            final(self).wf(),
            final(self)@ == after_delete(old(self)@, id),
            ids_fresh(old(self)@) ==> ids_fresh(final(self)@),
    {
        proof {
            crate::laws::lemma_ops_keep_wf(self@, Seq::empty(), 0, id, 0, false);
            if ids_fresh(self@) {
                crate::laws::lemma_ids_stay_fresh(self@, Seq::empty(), 0, id, 0, false);
            }
        }
        let ghost orig = self@.items;
        let mut rest: VecDeque<HistoryItem> = VecDeque::new();
        std::mem::swap(&mut rest, &mut self.items);
        let mut kept: VecDeque<HistoryItem> = VecDeque::new();
        let ghost mut k: int = 0;
        while rest.len() > 0
            invariant
                0 <= k <= orig.len(),
                entries(rest@) == orig.skip(k),
                entries(kept@) == without_id(orig.take(k), id),
            decreases rest@.len(),
        {
            let ghost before = rest@;
            let item = rest.pop_front().unwrap();
            proof {
                assert(entries(rest@) =~= entries(before).skip(1));
                assert(orig.skip(k).skip(1) =~= orig.skip(k + 1));
                assert(entries(before)[0] == orig.skip(k)[0]);
                assert(orig[k] == item@);
                assert(orig.take(k + 1).drop_last() =~= orig.take(k));
                assert(orig.take(k + 1).last() == orig[k]);
            }
            let ghost kept_before = kept@;
            if item.id != id {
                kept.push_back(item);
                proof {
                    assert(entries(kept@) =~= entries(kept_before).push(orig[k]));
                }
            }
            proof {
                k = k + 1;
            }
        }
        proof {
            assert(orig.skip(k).len() == 0);
            assert(orig.take(k) =~= orig);
        }
        self.items = kept;
    }

    /// Removes every entry.
    pub fn clear(&mut self)
        requires
            old(self).wf(),
        ensures
            final(self).wf(),
            final(self)@ == with_items(old(self)@, Seq::empty()),
            ids_fresh(old(self)@) ==> ids_fresh(final(self)@),
    {
        proof {
            crate::laws::lemma_ops_keep_wf(self@, Seq::empty(), 0, 0, 0, false);
            if ids_fresh(self@) {
                crate::laws::lemma_ids_stay_fresh(self@, Seq::empty(), 0, 0, 0, false);
            }
        }
        self.items.clear();
        proof {
            assert(entries(self.items@) =~= Seq::<Entry>::empty());
        }
    }

    /// Sets the capacity to `cap`, at least one, and drops the oldest
    /// entries beyond it.
    pub fn set_cap(&mut self, cap: usize)
        requires
            old(self).wf(),
        ensures
            final(self).wf(),
            final(self)@ == after_set_cap(old(self)@, cap),
            ids_fresh(old(self)@) ==> ids_fresh(final(self)@),
    {
        proof {
            crate::laws::lemma_ops_keep_wf(self@, Seq::empty(), 0, 0, cap, false);
            if ids_fresh(self@) {
                crate::laws::lemma_ids_stay_fresh(self@, Seq::empty(), 0, 0, cap, false);
            }
        }
        let cap = if cap < 1 {
            1
        } else {
            cap
        };
        self.cap = cap;
        keep_newest_in(&mut self.items, cap);
    }

    /// Turns writing the history to disk on or off.
    pub fn set_persist(&mut self, persist: bool)
        requires
            old(self).wf(),
        ensures
            final(self).wf(),
            final(self)@ == with_persist(old(self)@, persist),
            ids_fresh(old(self)@) ==> ids_fresh(final(self)@),
    {
        proof {
            crate::laws::lemma_ops_keep_wf(self@, Seq::empty(), 0, 0, 0, persist);
            if ids_fresh(self@) {
                crate::laws::lemma_ids_stay_fresh(self@, Seq::empty(), 0, 0, 0, persist);
            }
        }
        self.persist = persist;
    }

    /// What is to be written to disk now: all entries when persistence is on,
    /// nothing when it is off.
    pub fn save_payload(&self) -> (r: Option<Vec<HistoryItem>>)
        ensures
            match r {
                Some(v) => self@.persist && entries(v@) == self@.items,
                None => !self@.persist,
            },
    {
        if !self.persist {
            return None;
        }
        Some(self.snapshot())
    }

    /// The file the history is kept in.
    pub fn path(&self) -> (r: &String)
        ensures
            r@ == self@.path,
    {
        &self.path
    }
}

} // verus!
