//! What the screen shows, computed from the editor state: the tree view
//! lines and the status line text.
pub mod screen;
pub mod status_line;
pub mod tree_view;
