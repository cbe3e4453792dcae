//! Verified core of a GPU-accelerated UI toolkit: the VT100 screen of its
//! terminal widget, text editing, the keyboard and pointer decisions of its
//! widgets, the widget tree and keyboard focus of a window, the grouping of
//! quads into draw calls, and its reactive signals.
pub mod batch;
pub mod controls;
pub mod focus;
pub mod keys;
pub mod reactive;
pub mod signal;
pub mod terminal;
pub mod text_input;
pub mod tree;
pub mod tree_view;
