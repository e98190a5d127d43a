# jb-vmoptions-helper

Finds the JetBrains IDEs whose launcher scripts are on `$PATH` and adds JVM
options to their `.vmoptions` files, from the command line
(`--apply '<option>'`) or from a terminal interface.

- `src/` is the verified library (Verus):
  - `text.rs`: characters, Unicode whitespace and trimming, UTF-8 byte
    offsets, line splitting, substring search;
  - `registry.rs`: the list of detected IDEs (first launcher of a name wins,
    names in increasing order);
  - `vmoptions.rs`: recognising a launcher line, the candidate `.vmoptions`
    files of a program, and the new text of an options file;
  - `app.rs`: the interface state (app list and check boxes, focus,
    notifications) and every operation that a key, a click or an apply
    performs on it;
  - `editor.rs`: the multi-line option editor (cursor on UTF-8 character
    boundaries, editing keys, horizontal scrolling, what is drawn);
  - `laws.rs`: properties that relate several operations.
- `app/` is the program around it: scanning `$PATH`, file access, the event
  loop and drawing with ratatui/crossterm.
- `tests/` exercises the library on concrete values.
