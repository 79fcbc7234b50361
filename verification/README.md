# clear_codex

The bookkeeping of a floating overlay that runs Codex CLI sessions in
terminal tabs, written in Verus and proved against its contracts.

- `src/` is the verified library: the session registry and how a session's
  status moves (`session`), the overlay's state around it (`app_state`), how
  the Codex launcher is chosen from `where codex` and how a process listing is
  read (`launcher`), the global hotkeys (`hotkeys`), and the string helpers
  they rest on (`text`).
- `app/` is the desktop shell: Tauri commands, window, tray and hotkey
  registration, pseudo-terminals and processes, and the JSON state file.
- `tests/` runs the library on concrete values.
