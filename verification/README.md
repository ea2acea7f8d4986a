# Limen

A macOS Space switcher that gives each Space a name: a ring overlay summoned
with a global shortcut (Option+Space by default), a menu-bar tray, and active
Space detection by fingerprinting the visible windows.

This crate holds the application's decision logic as a library verified with
Verus; `app/` holds the Tauri shell, the Cocoa/CoreGraphics calls and the file
I/O that call into it.

## Layout

- `src/text.rs` — trimming, ASCII case folding, substring tests, decimal
  formatting and parsing over the characters of a string.
- `src/config.rs` — shortcut preferences (bindings, updating the primary,
  de-duplication, defaults) and the migration of a stored configuration.
- `src/session.rs` — settings-at-launch, window toggling, shortcut
  registration, the debounce latch, nested suspension while recording a
  shortcut, and the transactional shortcut change.
- `src/desktop.rs` — which Spaces the Mission Control hotkeys reach, the key a
  switch injects, and the once-per-process Accessibility prompt.
- `src/fingerprint.rs` — the window-list fingerprint and the fingerprint →
  Space index memory.
- `src/apps.rs` — the system/background filter, the choice of visible apps,
  icon cache file names and icon decoding.
- `src/tray.rs` — Space labels, the tray menu, menu ids, tray icon files.
- `src/persistence.rs` — what is done with a persisted JSON file that was read,
  and the names of temporary and backup files.
- `src/calendar.rs` — the date of a day number, and `YYYY-MM-DD`.
- `src/updater.rs` — the update offer shown in settings.
- `tests/` — unit tests of the library.
- `app/` — the Tauri application around the library.
