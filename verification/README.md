# ced

The core of CED, a small modal terminal text editor, as a verified library.

- `src/line.rs` — a line's tokens (words, separators, space runs), how a line
  is displayed (runs of four spaces drawn as dots), and insertion into a line.
- `src/operation.rs` — editor operations and the insert-mode quick macros
  (`jk`, `{` then newline) recognised when typed within 250 ms.
- `src/editor.rs` — the editing buffer: lines, cursor, mode, the operation
  queue, and what each key and operation does.
- `src/edit.rs` — the text after the cursor on a line.
- `src/text.rs`, `src/indent.rs` — byte offsets versus characters, and the
  four-space replacement.
- `src/style.rs`, `src/clock.rs` — the terminal colours (termion) and the clock.
- `app/main.rs` — the terminal front end: raw mode, reading keys, drawing,
  saving.
