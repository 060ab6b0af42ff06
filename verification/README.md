# clip_keeper

A clipboard-history keeper for the system tray. It remembers the last 50 texts copied to the
clipboard, lets the user paste one again (or several joined together) from a history window
opened by a global hotkey, and keeps named groups of saved snippets.

## Layout

- `src/` is the library, written in Verus. Every function in it is proved against its contract:
  - `app_state`: history, used marks and saved groups, with the invariants every operation keeps
  - `clipboard_service`: the operations the UI calls, and the history file's contents
  - `settings`: hotkey settings, their file format and its migration
  - `hotkey`, `detectors`, `keys`: which key events open the history window
  - `display`, `calendar`, `hotkey_logger`: previews, titles, timestamps and log lines
  - `history`, `saved`, `order`, `text`: the collections and text helpers underneath
- `tests/` runs the library on concrete values.
- `app/` is the program around it: windows, tray icon, clipboard polling, the keyboard hook
  and reading and writing the JSON files.

The history and settings files are kept next to the executable on Windows and in
`~/Library/Application Support/ClipKeeper` on macOS.
