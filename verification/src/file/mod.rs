//! Writing documents back out as text.
pub mod loader;
pub mod saver;
