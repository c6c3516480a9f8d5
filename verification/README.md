# pi_capture

A terminal tool for capturing ideas into an Obsidian-style Markdown inbox,
with an AI "secretary" that answers each idea with a short echo.

The logic is a Verus library under `src/`, each function proved against its
contract:

- `input`: the multi-line input buffer and its editing operations;
- `app`: the application state, key handling in each mode, undo/redo and
  the history search;
- `capture`: where a new idea goes in the capture file (year, month and day
  headings, task items with a Dataview `created` field);
- `highlight`: marking the search query in a row of history text;
- `ui`: display widths, wrapping, and the text of each part of the screen;
- `config`: defaults, `${VAR}` and `$VAR` placeholders, `~/` paths and `.env` lines;
- `ai`: when to ask the secretary, the offline replies, the chat request;
- `events`: pasted text as key presses;
- `text`, `clock`: string helpers and the readings of the clocks.

Laws of the library (undo and redo, search soundness and completeness,
filing under the right headings, wrapping) are public proof functions named
`law_*`.

`app/` is the program around the library: the terminal, the event loop,
reading and writing files, the HTTP calls and the drawing with ratatui.
