# jsonquill

A terminal JSON editor with vim-style keys, built around a library whose
behaviour is specified and proved with Verus.

## Layout

- `src/` — the verified library.
  - `document/` — the JSON document model (`JsonValue`, `JsonNode`,
    `JsonTree`) and path-based reads, writes, insertions and deletions.
  - `editor/` — modes, cursor, registers, the undo tree and `EditorState`,
    the editor state machine. Every operation is specified over
    `StateModel`, the mathematical model of the state.
  - `input/` — terminal-neutral key events, the key map and the
    `InputHandler`, which applies a key to the state and returns what the
    caller must do next (write a file, save the settings, quit).
  - `jsonpath/` — JSONPath queries: grammar, parser and evaluator.
  - `file/` — the JSON writer (compact and indented forms) and the framing
    of JSON Lines text.
  - `ui/` — the tree view lines, the status line text and the other text
    pieces the screen shows.
  - `theme/` — the built-in color themes.
  - `text.rs` — string helpers with their specifications.
- `app/` — the program: argument handling, reading and writing files, JSON
  parsing (numbers go through `f64`), the terminal loop and drawing.
- `tests/` — tests run against the compiled library.

Numbers are held as their decimal text, the form in which they are shown
and saved; the program turns parsed numbers into that text.
