# gpui_kit

The verified core of a GPUI widget kit and its theme layer.

`src/` is a Verus library:

- `rope`, `point`: the text buffer (UTF-8 bytes addressed by offsets,
  (row, column) points and UTF-16 offsets);
- `selection`, `undo`, `history`, `history_proofs`: selections with a goal
  column, and the undo history with intent-driven coalescing and explicit
  transactions, together with the chain of texts that it leads through;
- `display_map`, `movement`: soft wrapping and cursor motion in visual rows;
- `segmentation`: grapheme and word boundaries (`unicode-segmentation`)
  and white space;
- `editor`: the editor state machine (editing, undo/redo, motion, words,
  clipboard text, IME composition);
- `layout`: the integer side of laying out the editor's rows (style runs
  around the composition, the selected part of a row, the caret's column);
- `tooltip`: when a hover tooltip shows and hides, as a step function from
  state and event to next state and the host's action;
- `color_slot`: which color table slot a theme file's dotted color key
  fills;
- `icon_theme`, `appearance`, `ui_density`, `scale`, `geometry`,
  `settings_provider`, `toggleable`: the small types of the theme and
  component layers.

`app/` holds what the library cannot: serde forms of settings and theme
files, and the floating-point color, density and slider arithmetic.
