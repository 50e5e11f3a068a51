//! Pastes the lines of a song, one at a time, into the clipboard: each
//! line goes to the clipboard, and the next one follows once the user has
//! pasted it with Ctrl+V.

pub mod clipboard;
pub mod files;
pub mod input;
pub mod keyboard;
pub mod session;
pub mod songs;
pub mod text;
