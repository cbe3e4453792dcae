# bexa_ui

A GPU-accelerated UI toolkit for Rust, split in two:

- `src/` is the verified library (Verus). It holds what the toolkit decides
  and computes without floats or I/O:
  - `terminal`: the VT100/ANSI screen of the terminal widget (printing,
    control characters, CSI and ESC sequences, SGR colours, the 256-colour
    palette, the cursor position report) and the bytes a key sends to the
    program;
  - `text_input`: the editing state of a text field (caret, selection,
    typing, deletion, clipboard requests, mouse selection);
  - `tree_view`: the rows of a collapsible tree, which are visible, and how
    keys and the pointer expand, collapse and select them;
  - `controls`: the keyboard and pointer decisions of the dropdown select,
    tabs, table, checkbox, toggle, radio button, slider, button and modal;
  - `tree`, `focus`: the widget tree, the focusable widgets in tab order,
    widgets addressed by path, and what Tab, Shift+Tab, Enter, Space and
    Escape do;
  - `batch`: grouping quads that share a clip rectangle into draw calls;
  - `signal`, `reactive`: reactive values and change detection.

  Every public function carries a contract over a mathematical model of its
  type, and the laws that relate several operations (for instance that Tab
  then Shift+Tab gives the focus back, that a write through a tree path is
  read back, that toggling a tree node twice changes nothing, that typing a
  character then Backspace restores the text) are proof functions.

- `app/` is the rest: the widgets' drawing and layout (floats, taffy,
  glyphon), the wgpu renderer and the winit event loop, the PTY of the
  terminal widget, and the clipboard. It calls the library for every
  decision above.

`tests/` runs the library on concrete inputs.
