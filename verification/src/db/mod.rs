//! The database itself: opening it, reading from it, cleaning up behind it and destroying it.

pub mod append;
pub mod background;
pub mod cleanup;
pub mod contents;
pub mod destroy;
pub mod failure;
pub mod open;
pub mod range;
pub mod read;
pub mod walk;
