# notes

The core logic of an encrypted desktop notes application, written in Verus
and proved against its specifications.

- `src/` is the verified library. Each module states its behaviour over
  mathematical models (`Seq<char>` for text, `Seq`/`Set` for lists and
  selections) and proves the code against it:
  - `text`: UTF-8 lengths, trimming, searching, splitting and joining;
  - `editor`, `keys`, `blocks`: the note editor's line operations (list
    prefixes and numbering, checkboxes, indentation, Enter, Backspace on
    images, tables, fenced blocks, the slash menu);
  - `search`, `colors`: find-in-note and coloured text ranges;
  - `snippet`, `strip`, `images`: the list snippet, formatting removal and
    the migration of embedded images to stored ones;
  - `notes`, `folders`, `tree`, `selection`: sorting the notes list,
    ordering and renaming folders, the visible tree, and what is done with
    picked notes and folders;
  - `session`: the application as a state machine. `step` takes the state
    and an event (a typed password, a finished key derivation, freshly
    loaded lists, a window getting the focus, a view chosen, Escape, ...)
    and returns the next state and the outside work to do (save a note,
    derive or check a vault key, store a rename, load the lists); events
    that close the menus first submit a rename in progress; locking the vault drops the key (the code
    overwrites it with zeros first; what is proved is `wipe`'s own result on
    the buffer, not the contents of memory after the drop), and a window's
    own state is stored and restored when the focus
    moves;
  - `types`, `settings`, `shortcuts`, `forms`, `words`, `size`, `ids`,
    `lower`: small decisions, stored settings, keyboard shortcuts, dialog
    checks, names and sizes, identifiers and lower-casing.
- `tests/` runs the library on concrete inputs.
- `app/` holds what stays outside: the loop that feeds `step` its events
  and performs its actions against a storage and cryptography backend, the
  file system, and floating-point colour arithmetic.
