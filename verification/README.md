# ijk

A modal text editor for the terminal, in the style of vi: a buffer page with
insert, visual and search modes, undo and redo, snippets, syntax colors, a
directory explorer and a navigator over the open pages.

The editing logic is a Verus library whose functions carry contracts that
Verus proves; the terminal, the files and the clipboard processes are driven
by a thin program around it.

## Layout

- `src/` — the verified library.
  - `read_buffer/` — the rows of a buffer, the cursor, the window on the
    screen and incremental search.
  - `edit_buffer/` — edits and their history (undo and redo), the clipboard,
    indentation, snippets, syntax colors (through `syntect`) and the view of
    a buffer.
  - `controller.rs`, `automaton.rs` — key sequences to actions.
  - `view.rs`, `screen.rs`, `page_view.rs`, `editor.rs` — views as layers of
    cells and the screen they make.
  - `directory.rs`, `navigator.rs` — the directory explorer and the list of
    pages.
  - `save_load.rs`, `normalize.rs` — the text a buffer is written as and read
    back from.
- `tests/` — tests of the library on concrete values.
- `app/` — the program: terminal input and output, files, configuration and
  the clipboard.
