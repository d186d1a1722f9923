//! Keyboard input: backend-neutral events, the mapping of keys to editor
//! commands, and the handler that applies them to the editor state.
pub mod backend;
pub mod handler;
pub mod keys;

pub use handler::InputHandler;
