//! The text-buffer-and-viewport engine of a small terminal text editor.
//!
//! The document is held as a sequence of lines; the flat character sequence
//! that a file holds is the lines joined by newline characters. An editor
//! state pairs the document with a cursor and a viewport, moves from state to
//! state by commands, and projects itself onto a frame of screen lines.
pub mod text;
pub mod buffer;
pub mod cursor;
pub mod viewport;
pub mod editor;
pub mod laws;
