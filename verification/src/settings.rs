use vstd::prelude::*;

use crate::history::DEFAULT_CAP;

verus! {

/// The user's preferences.
#[derive(Debug, PartialEq, Eq)]
pub struct Settings {
    pub autostart: bool,
    pub hotkey: String,
    pub history_size: usize,
    pub persist_history: bool,
    pub launched_before: bool,
}

/// What a `Settings` holds, as mathematical values.
pub struct SettingsView {
    pub autostart: bool,
    pub hotkey: Seq<char>,
    pub history_size: usize,
    pub persist_history: bool,
    pub launched_before: bool,
}

impl View for Settings {
    type V = SettingsView;

    open spec fn view(&self) -> SettingsView {
        SettingsView {
            autostart: self.autostart,
            hotkey: self.hotkey@,
            history_size: self.history_size,
            persist_history: self.persist_history,
            launched_before: self.launched_before,
        }
    }
}

impl Clone for Settings {
    fn clone(&self) -> (r: Self)
        ensures
            r@ == self@,
    {
        Settings {
            autostart: self.autostart,
            hotkey: self.hotkey.clone(),
            history_size: self.history_size,
            persist_history: self.persist_history,
            launched_before: self.launched_before,
        }
    }
}

/// The preferences of a first start: no autostart, the hotkey
/// `CmdOrCtrl+B`, the default history size, persistence on.
pub open spec fn default_settings() -> SettingsView {
    SettingsView {
        autostart: false,
        hotkey: "CmdOrCtrl+B"@,
        history_size: DEFAULT_CAP,
        persist_history: true,
        launched_before: false,
    }
}

impl Default for Settings {
    fn default() -> (r: Self)
        ensures
            r@ == default_settings(),
    {
        Settings {
            autostart: false,
            hotkey: String::from_str("CmdOrCtrl+B"),
            history_size: DEFAULT_CAP,
            persist_history: true,
            launched_before: false,
        }
    }
}

/// `s` with the first-launch flag set.
pub open spec fn with_launched(s: SettingsView) -> SettingsView {
    SettingsView {
        autostart: s.autostart,
        hotkey: s.hotkey,
        history_size: s.history_size,
        persist_history: s.persist_history,
        launched_before: true,
    }
}

/// `s` with autostart turned on or off.
pub open spec fn with_autostart(s: SettingsView, enabled: bool) -> SettingsView {
    SettingsView {
        autostart: enabled,
        hotkey: s.hotkey,
        history_size: s.history_size,
        persist_history: s.persist_history,
        launched_before: s.launched_before,
    }
}

/// The abstract state of the settings store.
pub struct SettingsStateView {
    pub settings: SettingsView,
    pub path: Seq<char>,
}

/// The store after `settings` replaced the current settings.
pub open spec fn after_save(st: SettingsStateView, settings: SettingsView) -> SettingsStateView {
    SettingsStateView { settings, path: st.path }
}

/// The current settings and the file they are kept in.
pub struct SettingsState {
    inner: Settings,
    path: String,
}

impl View for SettingsState {
    type V = SettingsStateView;

    closed spec fn view(&self) -> SettingsStateView {
        SettingsStateView { settings: self.inner@, path: self.path@ }
    }
}

impl SettingsState {
    /// Builds the store from the settings read back from `path`, or the
    /// defaults when none could be read.
    pub fn load(path: String, stored: Option<Settings>) -> (r: Self)
        ensures
            r@.path == path@,
            r@.settings == match stored {
                Some(s) => s@,
                None => default_settings(),
            },
    {
        let inner = match stored {
            Some(s) => s,
            None => Settings::default(),
        };
        SettingsState { inner, path }
    }

    /// A copy of the current settings.
    pub fn get(&self) -> (r: Settings)
        ensures
            r@ == self@.settings,
    {
        self.inner.clone()
    }

    /// Replaces the current settings.
    pub fn save(&mut self, settings: Settings)
        ensures
            final(self)@ == after_save(old(self)@, settings@),
    {
        self.inner = settings;
    }

    /// Records that the application has been started before; returns whether
    /// this is the first start.
    pub fn mark_launched(&mut self) -> (first: bool)
        ensures
            first == !old(self)@.settings.launched_before,
            final(self)@ == after_save(old(self)@, with_launched(old(self)@.settings)),
    {
        let first = !self.inner.launched_before;
        self.inner.launched_before = true;
        first
    }

    /// Turns launching at login on or off.
    pub fn set_autostart(&mut self, enabled: bool)
        ensures
            final(self)@ == after_save(old(self)@, with_autostart(old(self)@.settings, enabled)),
    {
        self.inner.autostart = enabled;
    }

    /// The file the settings are kept in.
    pub fn path(&self) -> (r: &String)
        ensures
            r@ == self@.path,
    {
        &self.path
    }
}

} // verus!
