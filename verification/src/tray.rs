use vstd::prelude::*;

verus! {

/// What a click on an entry of the tray menu asks for.
#[derive(Debug, Clone, Copy, PartialEq, Eq)]
pub enum MenuAction {
    Open,
    Settings,
    Clear,
    Autostart,
    Quit,
}

/// Whether `a` and `b` hold the same characters.
pub(crate) fn same_str(a: &str, b: &str) -> (r: bool)
    ensures
        r == (a@ == b@),
{
    a.to_owned() == b.to_owned()
}

/// The action a tray menu entry stands for, by the entry's id; `None` for
/// an id that is not one of the menu's.
pub open spec fn spec_menu_action(id: Seq<char>) -> Option<MenuAction> {
    if id == "open"@ {
        Some(MenuAction::Open)
    } else if id == "settings"@ {
        Some(MenuAction::Settings)
    } else if id == "clear"@ {
        Some(MenuAction::Clear)
    } else if id == "autostart"@ {
        Some(MenuAction::Autostart)
    } else if id == "quit"@ {
        Some(MenuAction::Quit)
    } else {
        None
    }
}

/// The action for the tray menu entry with id `id`.
pub fn menu_action(id: &str) -> (r: Option<MenuAction>)
    ensures
        r == spec_menu_action(id@),
{
    if same_str(id, "open") {
        Some(MenuAction::Open)
    } else if same_str(id, "settings") {
        Some(MenuAction::Settings)
    } else if same_str(id, "clear") {
        Some(MenuAction::Clear)
    } else if same_str(id, "autostart") {
        Some(MenuAction::Autostart)
    } else if same_str(id, "quit") {
        Some(MenuAction::Quit)
    } else {
        None
    }
}

} // verus!
