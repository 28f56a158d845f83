//! Spell checking for plain-text documents behind the Language Server Protocol.
//!
//! The crate holds the decisions of the server: how a `(line, character)`
//! position becomes a byte offset in a UTF-8 buffer, how an incremental edit
//! rewrites that buffer, how the answers of an interactive spell checker in
//! pipe mode are read, and which follow-up a message of the editor gets.
//! Launching the checker and moving messages is left to the program around it.

pub mod diagnosis;
pub mod encoding;
pub mod error;
pub mod file;
pub mod position;
pub mod scan;
pub mod server;
pub mod spell;
pub mod symbols;
pub mod text;
pub mod workspace;

pub use position::{Position, Range};
