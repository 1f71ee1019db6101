use vstd::prelude::*;

use crate::history::{add_changes, after_add, ids_fresh, HistoryState, HistoryView};

verus! {

/// The last clipboard text this application read or wrote. An observed text
/// equal to it is the echo of an own write or a repeated read.
pub struct LastClipboard(pub String);

impl LastClipboard {
    /// Nothing seen yet.
    pub fn new() -> (r: Self)
        ensures
            r.0@ == Seq::<char>::empty(),
    {
        LastClipboard(String::new())
    }

    /// Notes `text` as the text last written to the clipboard.
    pub fn record(&mut self, text: &str)
        ensures
            final(self).0@ == text@,
    {
        self.0 = String::from_str(text);
    }
}

/// An observed clipboard change is recorded: no sensitive content is on the
/// clipboard, a text could be read, it is not empty, and it differs from the
/// last text seen.
pub open spec fn observation_recorded(
    last: Seq<char>,
    sensitive: bool,
    read: Option<Seq<char>>,
) -> bool {
    &&& !sensitive
    &&& (read matches Some(t) && t.len() > 0 && t != last)
}

/// The text `read` holds, `None` when it holds none.
pub open spec fn read_text_of(read: Option<String>) -> Option<Seq<char>> {
    match read {
        Some(t) => Some(t@),
        None => None,
    }
}

/// The history after a recorded observation of `text` at `now`, or after an
/// ignored one.
pub open spec fn after_observe(
    h: HistoryView,
    last: Seq<char>,
    sensitive: bool,
    read: Option<Seq<char>>,
    now: u64,
) -> HistoryView {
    if observation_recorded(last, sensitive, read) {
        after_add(h, read.unwrap(), now)
    } else {
        h
    }
}

/// Handles a change of the system clipboard: `sensitive` tells whether the
/// clipboard holds content marked as concealed, `read` is the text read from
/// it (`None` when none could be read). A new text is remembered as the last
/// one and added to the history. Returns whether the history changed, that
/// is whether listeners are to be told.
pub fn observe_clipboard(
    last: &mut LastClipboard,
    history: &mut HistoryState,
    sensitive: bool,
    read: Option<String>,
) -> (notify: bool)
    requires
        old(history).wf(),
    ensures
        final(history).wf(),
        ids_fresh(old(history)@) && old(history)@.next_id < u64::MAX ==> ids_fresh(final(history)@),
        notify == (final(history)@ != old(history)@),
        observation_recorded(old(last).0@, sensitive, read_text_of(read)) ==> {
            &&& final(last).0@ == read_text_of(read).unwrap()
            &&& notify == add_changes(old(history)@, read_text_of(read).unwrap())
        },
        !observation_recorded(old(last).0@, sensitive, read_text_of(read)) ==> {
            &&& final(last).0@ == old(last).0@
            &&& !notify
        },
        exists|now: u64|
            final(history)@ == after_observe(
                old(history)@,
                old(last).0@,
                sensitive,
                read_text_of(read),
                now,
            ),
{
    if sensitive {
        assert(history@ == after_observe(old(history)@, old(last).0@, sensitive, read_text_of(read), 0));
        return false;
    }
    match read {
        None => {
            assert(history@ == after_observe(old(history)@, old(last).0@, sensitive, read_text_of(read), 0));
            false
        },
        Some(text) => {
            if text.as_str().is_empty() {
                assert(history@ == after_observe(old(history)@, old(last).0@, sensitive, read_text_of(read), 0));
                return false;
            }
            if last.0 == text {
                assert(history@ == after_observe(old(history)@, old(last).0@, sensitive, read_text_of(read), 0));
                return false;
            }
            last.0 = text.clone();
            let ghost h0 = history@;
            let ghost t = text@;
            let changed = history.add(text);
            let ghost now = choose|now: u64| history@ == after_add(h0, t, now);
            assert(history@ == after_observe(old(history)@, old(last).0@, sensitive, read_text_of(read), now));
            changed
        },
    }
}

/// The history after the previous clipboard text `prev` is kept ahead of an
/// edit that replaces it with `new_text`: `prev` is added when it is a
/// non-empty text other than `new_text`.
pub open spec fn keeps_previous(prev: Option<Seq<char>>, new_text: Seq<char>) -> bool {
    prev matches Some(p) && p.len() > 0 && p != new_text
}

/// The history once `prev` has been kept ahead of an edit to `new_text`.
pub open spec fn after_keep_previous(
    h: HistoryView,
    prev: Option<Seq<char>>,
    new_text: Seq<char>,
    now: u64,
) -> HistoryView {
    if keeps_previous(prev, new_text) {
        after_add(h, prev.unwrap(), now)
    } else {
        h
    }
}

/// The history after committing `new_text` with `prev` on the clipboard before.
pub open spec fn after_commit(
    h: HistoryView,
    prev: Option<Seq<char>>,
    new_text: Seq<char>,
    t1: u64,
    t2: u64,
) -> HistoryView {
    after_add(after_keep_previous(h, prev, new_text, t1), new_text, t2)
}

/// Committing changes the history: keeping `prev` did, or adding `new_text` did.
pub open spec fn commit_changes(
    h: HistoryView,
    prev: Option<Seq<char>>,
    new_text: Seq<char>,
    t1: u64,
) -> bool {
    (keeps_previous(prev, new_text) && add_changes(h, prev.unwrap())) || add_changes(
        after_keep_previous(h, prev, new_text, t1),
        new_text,
    )
}

/// Commits an edited text: the text `prev` that the clipboard held before (if
/// one could be read) is kept in the history, `new_text` is noted as the last
/// clipboard text (the caller puts it on the clipboard) and added to the
/// history. Returns whether the history changed.
pub fn commit_edit(
    history: &mut HistoryState,
    last: &mut LastClipboard,
    prev: Option<String>,
    new_text: String,
) -> (changed: bool)
    requires
        old(history).wf(),
    ensures
        final(history).wf(),
        ids_fresh(old(history)@) && old(history)@.next_id < u64::MAX - 1 ==> ids_fresh(
            final(history)@,
        ),
        final(last).0@ == new_text@,
        changed == (final(history)@ != old(history)@),
        exists|t1: u64, t2: u64|
            {
                &&& final(history)@ == #[trigger] after_commit(
                    old(history)@,
                    read_text_of(prev),
                    new_text@,
                    t1,
                    t2,
                )
                &&& changed == commit_changes(old(history)@, read_text_of(prev), new_text@, t1)
            },
{
    let ghost h0 = history@;
    let ghost prev_text = read_text_of(prev);
    let mut first_changed = false;
    let ghost mut t1: u64 = 0;
    match prev {
        Some(p) => {
            if !p.as_str().is_empty() && p != new_text {
                let ghost pt = p@;
                first_changed = history.add(p);
                proof {
                    t1 = choose|t: u64| history@ == after_add(h0, pt, t);
                }
            }
        },
        None => {},
    }
    let ghost h1 = history@;
    assert(h1 == after_keep_previous(h0, prev_text, new_text@, t1));
    last.record(new_text.as_str());
    let second_changed = history.add(new_text);
    let ghost t2 = choose|t: u64| history@ == after_add(h1, new_text@, t);
    assert(history@ == after_commit(h0, prev_text, new_text@, t1, t2));
    proof {
        crate::laws::lemma_commit_changes_iff_differs(h0, prev_text, new_text@, t1, t2);
    }
    first_changed || second_changed
}

} // verus!
