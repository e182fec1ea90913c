//! A terminal-UI runtime library: a weighted split layout engine, a
//! rope-backed text buffer with a wrapping viewport view, a mouse
//! click-pattern processor, a focus-aware render/event dispatcher, and
//! the pure parts of a screen run-loop (frame composition, resize).
//!
//! Terminal I/O itself (raw mode, the alternate screen, event polling)
//! stays outside this crate; the library computes layouts, edits text,
//! classifies clicks and composes escape-sequence frames from plain
//! values handed in by the caller.

pub mod ansi;
pub mod border;
pub mod buffer;
pub mod chars;
pub mod clipboard;
pub mod demo;
pub mod events;
pub mod geom;
pub mod input_pane;
pub mod layout;
pub mod lines;
pub mod render;
pub mod screen;
pub mod style;
pub mod text_buffer;
pub mod text_pane;
pub mod text_view;
