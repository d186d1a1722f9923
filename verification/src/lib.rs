//! A structural JSON document editor core: the document tree, its
//! serialization, the tree view, the editor state machine, key mapping,
//! JSONPath queries and the built-in themes.
pub mod document;
pub mod editor;
pub mod file;
pub mod input;
pub mod jsonpath;
pub mod text;
pub mod theme;
pub mod ui;
