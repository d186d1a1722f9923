//! Editor modes (vim-style modal editing).
use vstd::prelude::*;

verus! {

/// The editing mode.
#[derive(Debug, Clone, Copy, PartialEq, Eq, Structural)]
pub enum EditorMode {
    /// Navigation and structural commands.
    Normal,
    /// Typing into an edit buffer.
    Insert,
    /// Typing a `:` command.
    Command,
    /// Typing a `/` search query.
    Search,
}

impl Default for EditorMode {
    fn default() -> (res: Self)
        ensures
            res == EditorMode::Normal,
    {
        EditorMode::Normal
    }
}

/// The name of a mode as the status line shows it.
pub open spec fn mode_label(m: EditorMode) -> Seq<char> {
    match m {
        EditorMode::Normal => "NORMAL"@,
        EditorMode::Insert => "INSERT"@,
        EditorMode::Command => "COMMAND"@,
        EditorMode::Search => "SEARCH"@,
    }
}

impl EditorMode {
    /// The name of the mode as the status line shows it.
    pub fn label(&self) -> (res: String)
        ensures
            res@ == mode_label(*self),
    {
        match self {
            EditorMode::Normal => crate::text::string_of("NORMAL"),
            EditorMode::Insert => crate::text::string_of("INSERT"),
            EditorMode::Command => crate::text::string_of("COMMAND"),
            EditorMode::Search => crate::text::string_of("SEARCH"),
        }
    }
}

} // verus!
