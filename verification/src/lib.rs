//! Client-side logic of the Sakura REPL: reading server replies, rendering
//! them as text, classifying user input, and the editing, history and
//! scrolling state of the REPL session.

pub mod text;
pub mod sexpr;
pub mod language;
pub mod connection;
pub mod repl;
pub mod input;
pub mod ui;
