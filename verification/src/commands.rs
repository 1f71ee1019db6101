use vstd::prelude::*;

use crate::clipboard::LastClipboard;
use crate::history::{after_select, after_set_cap, ids_fresh, selected_text, with_persist, HistoryState};
use crate::settings::{after_save, with_launched, Settings, SettingsState};

verus! {

/// Brings the entry with id `id` to the front of the history and notes its
/// text as the last clipboard text; returns that text, which the caller puts
/// on the clipboard. Nothing changes when no entry has that id.
pub fn select_history(history: &mut HistoryState, last: &mut LastClipboard, id: u64) -> (r: Option<
    String,
>)
    requires
        old(history).wf(),
    ensures
        final(history).wf(),
        ids_fresh(old(history)@) ==> ids_fresh(final(history)@),
        final(history)@ == after_select(old(history)@, id),
        match r {
            Some(t) => {
                &&& selected_text(old(history)@, id) == Some(t@)
                &&& final(last).0@ == t@
            },
            None => {
                &&& selected_text(old(history)@, id) is None
                &&& final(last).0@ == old(last).0@
            },
        },
{
    let selected = history.select(id);
    match selected {
        Some(text) => {
            last.record(text.as_str());
            Some(text)
        },
        None => None,
    }
}

/// Applies new settings: the history takes the new size and persistence,
/// and the settings are stored with the first-launch flag set.
pub fn set_settings(history: &mut HistoryState, settings: &mut SettingsState, new_settings: Settings)
    requires
        old(history).wf(),
    ensures
        final(history).wf(),
        ids_fresh(old(history)@) ==> ids_fresh(final(history)@),
        final(history)@ == with_persist(
            after_set_cap(old(history)@, new_settings.history_size),
            new_settings.persist_history,
        ),
        final(settings)@ == after_save(old(settings)@, with_launched(new_settings@)),
{
    history.set_cap(new_settings.history_size);
    history.set_persist(new_settings.persist_history);
    let mut stored = new_settings;
    stored.launched_before = true;
    settings.save(stored);
}

} // verus!
