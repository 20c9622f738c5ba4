# freya

The logic of a GUI component toolkit and its code editor, written in Verus and proved
against its specifications.

`src/` is the verified library:

- `docking` — docking trees of tabbed panels and splits: finding, moving, removing and
  splitting panels and tabs, collapsing empty panels, and the hover and preview decisions of
  a drag.
- `rope` — the text buffer (a `ropey::Rope`) seen as a sequence of chars, with its byte,
  UTF-16 and line positions.
- `editor` — editing that text at UTF-16 positions, with the parser edit and undo record each
  change leaves, and the selection.
- `editor_theme` — the editor's colors and the registry that themes are kept in.
- `syntax` — syntax lines: the colored runs drawn for each line, built from highlight spans.
- `highlight` — tree-sitter highlighting that produces those spans.
- `languages` — the languages the editor knows.
- `calendar` — the month grid of the calendar (dates from `chrono`).
- `markdown` — the block structure a markdown viewer draws (events from `pulldown-cmark`).
- `menu` — the stack of open menus and submenus.
- `router` — the transition state of an animated router.

`app/` holds what stays unverified: floating-point layout (resizable panels, overlay
placement) and calendar dates taken from `chrono`.

`tests/` runs the library on concrete inputs.
