//! Terminal input event types.
use vstd::prelude::*;

verus! {

/// An input event from the terminal.
#[derive(Debug, Clone, Copy, PartialEq, Eq, Structural)]
pub enum BackendEvent {
    /// A key press.
    Key(BackendKey),
    /// A mouse event.
    Mouse(BackendMouse),
    /// The terminal was resized to (width, height).
    Resize(u16, u16),
}

/// A key. Enter is `Char('\n')` and Tab is `Char('\t')`.
#[derive(Debug, Clone, Copy, PartialEq, Eq, Structural)]
pub enum BackendKey {
    /// A character (`'\n'` for Enter, `'\t'` for Tab).
    Char(char),
    /// A character typed with Ctrl held.
    Ctrl(char),
    /// Escape.
    Esc,
    /// Backspace.
    Backspace,
    /// Delete.
    Delete,
    /// Left arrow.
    Left,
    /// Right arrow.
    Right,
    /// Up arrow.
    Up,
    /// Down arrow.
    Down,
    /// Home.
    Home,
    /// End.
    End,
    /// Page Up.
    PageUp,
    /// Page Down.
    PageDown,
    /// A function key (F1, F2, ...).
    F(u8),
}

/// A mouse event.
#[derive(Debug, Clone, Copy, PartialEq, Eq, Structural)]
pub enum BackendMouse {
    /// The wheel turned up.
    WheelUp,
    /// The wheel turned down.
    WheelDown,
}

} // verus!
