# raix

A keyboard-driven application launcher for Wayland. The library in `src/` holds its logic,
verified with Verus; `app/` is the GTK program around it.

## Layout

- `src/text.rs`: characters of strings, Unicode white space and trimming, ASCII-case comparison,
  searching, splitting, replacing, lexicographic order, Unicode lower case.
- `src/desktop_entry.rs`: the `[Desktop Entry]` group of a desktop file: lines, `key=value`
  pairs, escape sequences, and the resulting key map (`DesktopEntry`).
- `src/desktop_keys.rs`: reading values: booleans, `;`-lists, localized keys and the locale,
  the current desktops and `OnlyShowIn` / `NotShowIn`.
- `src/command_line.rs`: splitting an `Exec` line into arguments.
- `src/launch.rs`: field codes of `Exec` lines, and how an application is launched (directly or
  in a terminal emulator).
- `src/apps.rs`: what a desktop entry comes to, and the catalog of applications (no duplicates,
  in name order).
- `src/fuzzy.rs`: the fuzzy score of a query against a text, and which queries match.
- `src/search.rs`: the ranked search results.
- `src/paths.rs`: the configuration file, the directories searched for desktop files, and where a
  command is looked for.
- `src/config.rs`, `src/style.rs`, `src/ui.rs`: the configuration and its defaults, the style
  sheet, keys, selection and list rows.
- `tests/`: tests of the library on concrete values.
- `app/main.rs`: the window, the file system, the environment and spawning processes.
