use vstd::prelude::*;

use crate::tray::same_str;

verus! {

/// Whether a window that gained or lost focus is to be hidden: the popup is
/// dismissed when it loses focus, other windows stay.
pub fn hides_on_focus_change(label: &str, focused: bool) -> (r: bool)
    ensures
        r == (label@ == "popup"@ && !focused),
{
    same_str(label, "popup") && !focused
}

/// Whether the hotkey hides the popup rather than showing it: only when the
/// popup exists and is known to be visible. `visible` is `None` when there is
/// no popup window yet.
pub fn toggle_hides(visible: Option<bool>) -> (r: bool)
    ensures
        r == (visible == Some(true)),
{
    match visible {
        Some(v) => v,
        None => false,
    }
}

/// Whether a request to exit is turned down: the application keeps running
/// in the tray when its last window closes (no exit code), and exits when
/// asked to with a code.
pub fn keeps_running(exit_code: Option<i32>) -> (r: bool)
    ensures
        r == (exit_code is None),
{
    exit_code.is_none()
}

} // verus!
