# snapback

The decisions behind a terminal board of coding sessions: what each frame of the
board is drawn of, which part of a transcript a pane shows, what a click in it
finds, which changes on disk are worth a reload, and which directories make up
one project.

`src/` is the library. Each function states what it returns over plain
mathematical models, and Verus proves it. What the library takes from other
crates stands behind a few small functions whose contracts are stated and
believed:

- how many rows a line wraps to, how many columns a text takes, what a border
  leaves of an area, how an area is shared out and at which row a list stands
  (`ratatui`);
- where one grapheme cluster ends and the next starts (`unicode-segmentation`);
- the fields of a moment (`time`).

`app/` is the terminal, the file system and git around it. `tests/` runs the
library, and paints whole frames to read them back cell by cell.

| module | what it holds |
| --- | --- |
| `text`, `style`, `geometry`, `draw` | characters, spans and lines, rectangles, what a frame is made of |
| `rows`, `scroll`, `links` | wrapped rows and windows over them, offsets and the scrollbar, clicks |
| `highlight`, `labels`, `clock`, `agents` | search marks, short texts, moments, agents and their badges |
| `app` | the state that a frame shows |
| `list`, `chrome`, `modal`, `compose`, `preview`, `board` | the parts of a frame, and the whole |
| `store`, `watch`, `threads` | where sessions are kept, what a change there means, and what the threads around the board do next |
| `paths`, `worktrees` | directories, and the project they belong to |
