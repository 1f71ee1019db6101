# clipedit

The core of a clipboard-history tray application, verified with Verus.

- `src/history.rs`: the bounded history (newest first, moving a re-added text
  to the front, capacity at least one) and its abstract model.
- `src/clipboard.rs`: what happens when the system clipboard changes or an
  edited text is committed.
- `src/settings.rs`: the user's preferences and their defaults.
- `src/commands.rs`: selecting an entry and applying new settings.
- `src/tray.rs`: which action a tray menu entry stands for.
- `src/window.rs`: when the popup hides and when the app keeps running.
- `src/clock.rs`: milliseconds since the Unix epoch.
- `src/laws.rs`: properties that hold across operations, proved.
- `app/`: the Tauri shell around the library (windows, tray, hotkey, clipboard
  access, JSON files).
