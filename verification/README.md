# yonro

The core of a terminal text editor, verified with Verus.

`src/` is the library. Each type has a mathematical model (`state()`,
`lines()`, `root()` or a view `@`) and each public function a contract over it:

- `line`, `buffer`: lines of characters, editing at a location, reading a
  file's contents into lines and writing them back, wrap-around search.
  A grapheme here is one `char`: a character followed by a combining mark
  counts as two graphemes for caret movement and deletion.
- `edit`: the undo history's operations, what undoing and redoing each one
  does, and the laws that undo takes back what redo makes and the reverse.
- `view`: the editing area — caret movement, scrolling by screen columns,
  editing where quick keystrokes at the caret join one undo group, undo and
  redo, search, and the highlighted rows drawn on screen — with the laws
  that tie these together (`lemma_*` at the end of the file).
- `screen`: how a line shows in a window of columns, each grapheme marked by
  the search or by the syntax highlighting of its line.
- `layout`: a tree of panes, split and laid out over the screen.
- `mdsyntaxhighlighter`, `textsyntaxhighlighter`, `annotation`,
  `annotatedstring`: annotations of Markdown and plain-text lines, and the
  walk over an annotated string.
- `documentstatus`, `message`, `messagebar`, `fileinfo`, `commands`,
  `prelude`, `text`: status strings, the message bar, file names and types,
  commands, geometry and character helpers.

The only trusted items are the readings of the clock (`Instant::now`,
`Instant::duration_since`, `Duration::as_millis`), `String::push`, and the
display width of a character (`unicode_width::UnicodeWidthChar::width`),
whose result is named rather than restated.

`app/` holds what stays outside: printing (highlighted) rows on the terminal,
reading and writing files, and the floating-point split ratios of the pane
layout.

`tests/` exercises the library on concrete values.
