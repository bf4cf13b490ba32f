# ohmylogcat

A terminal Android logcat viewer whose core is verified with Verus.

- `src/` is the verified library: threadtime parsing (`parser`), the
  bounded log buffer (`buffer`), filters (`filter`), the engine that keeps
  the filtered view in step with the buffer (`engine`), line assembly of the
  adb stream (`stream`), settings and the settings form (`settings`,
  `panel`), the command-line grammar and the uninstall/update decisions
  (`cli`), the controls of the terminal UI (`controls`), and the view
  logic under `ui/`: wrapping, formatting, find, selection geometry, text
  input, localisation and colours. `desktop/` holds the engine, filter and
  device-list logic of the desktop front end.
- `app/` is the terminal program around it: process and file I/O, the
  tokio streaming tasks, settings persistence with serde, and drawing with
  ratatui and crossterm.
- `tests/` exercises the library from outside.
