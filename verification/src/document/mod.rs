//! The JSON document model and path-based navigation.
pub mod node;
pub mod tree;
