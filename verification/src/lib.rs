//! A terminal text editor core: a line buffer with edit commands, undo and
//! redo, caret movement and scrolling, search, syntax highlighting, status
//! and message bars, and a pane layout tree.

pub mod prelude;
pub mod text;
pub mod line;
pub mod fileinfo;
pub mod buffer;
pub mod edit;
pub mod commands;
pub mod layout;
pub mod annotation;
pub mod annotatedstring;
pub mod documentstatus;
pub mod message;
pub mod messagebar;
pub mod mdsyntaxhighlighter;
pub mod textsyntaxhighlighter;
pub mod screen;
pub mod view;
