# dofus_switcher

A window switcher for playing several Dofus accounts on Windows: hotkeys
(`<` and `F2` by default) cycle the focus through the open game windows in
the order of a list that can be rearranged by drag and drop, and each
character can be given an icon that is remembered by name.

- `src/` is the verified library (Verus): the cycle of the hotkeys
  (`actions`), the window list, bindings and remembered icons (`state`), the
  decisions taken on what the system reports of windows and keys (`win_api`),
  the rules of the switcher's window controls (`gui`) and the text rules they
  rest on (`text`).
- `app/` is the program around it: the Windows API calls, the hotkey thread,
  the egui window and the JSON configuration file.
- `tests/` runs the library on concrete cases.
