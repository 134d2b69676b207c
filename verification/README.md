# cyberfiles_ui

The verified core of the CyberFiles file manager's user interface, written
in Verus.

- `src/` holds the library: paths compared and ordered as `std::path` does
  for `/`-separated paths, as on Unix (`path`, `selection`; Windows
  backslashes and drive prefixes are not modelled), the file browser's state machine — history,
  selection, focus, columns, sweeps, the paths rewritten after a rename,
  the cleanup after a delete and the system menu cache (`browser`) — the
  context menus (`menu`, `shell_menu`), the tab strip
  (`files_shell`), the session and pinned folders (`session`), clipboard and
  transfers (`transfer`), the text editor's buffer, search and metadata
  (`editor_*`, `language`), labels and sizes (`labels`), icons (`icons`),
  locales (`locale`), commands for other programs (`commands`) and the home
  page's keys and colours (`home`). Every public function states its result
  in `ensures`; the laws that span several calls are public proof functions
  named `law_*`.
- `app/` is ordinary Rust around it: reading directories and documents,
  starting the terminal or PowerShell, the popup action's serde form, and
  the floating-point geometry of the rubber-band selection.
- `tests/` runs the library on concrete values.
