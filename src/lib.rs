//! A personal to-do note manager: the note table's rules (id assignment,
//! existence checks, toggling and removal), the parsing of console input and
//! the rendering of notes, each with a verified contract.
pub mod note;
pub mod store;
pub mod laws;
pub mod input;
pub mod render;
pub mod session;
