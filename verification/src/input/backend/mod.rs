//! Terminal input events, independent of the terminal library that reads
//! them.
pub mod event;

pub use event::{BackendEvent, BackendKey, BackendMouse};
