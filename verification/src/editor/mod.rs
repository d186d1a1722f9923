//! The editor: modes, the cursor, registers, undo history and the editor
//! state that ties them to the document.
pub mod cursor;
pub mod mode;
pub mod registers;
pub mod state;
pub mod undo;
