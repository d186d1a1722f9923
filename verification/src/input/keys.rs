//! The mapping of keys to editor commands, per mode.
use vstd::prelude::*;
use super::backend::BackendKey;
use crate::editor::mode::EditorMode;

verus! {

/// What a key asks the editor to do.
#[derive(Debug, Clone, Copy, PartialEq, Eq, Structural)]
pub enum InputEvent {
    /// Quit the editor.
    Quit,
    /// Cursor down.
    MoveDown,
    /// Cursor up.
    MoveUp,
    /// Collapse (or expand) the node at the cursor.
    MoveLeft,
    /// Expand (or collapse) the node at the cursor.
    MoveRight,
    /// Start editing the value at the cursor.
    EnterInsertMode,
    /// Start typing a `:` command.
    EnterCommandMode,
    /// Start typing a `/` search.
    EnterSearchMode,
    /// Back to Normal mode.
    ExitMode,
    /// `d` (twice: delete the node).
    Delete,
    /// `y` (twice: yank the node).
    Yank,
    /// Paste after the cursor.
    Paste,
    /// Paste before the cursor.
    PasteBefore,
    /// `Z` (twice: save and quit).
    SaveAndQuit,
    /// Next search match.
    NextSearchResult,
    /// `g` (twice: first line; after a count: that line).
    JumpToTop,
    /// Last line (after a count: that line).
    JumpToBottom,
    /// Half a page down.
    PageDown,
    /// Half a page up.
    PageUp,
    /// Add a member next to or inside the node at the cursor.
    AddNode,
    /// Undo.
    Undo,
    /// Redo.
    Redo,
    /// A digit of a count.
    CountDigit(u32),
    /// A character typed in Insert mode.
    InsertCharacter(char),
    /// Backspace in Insert mode.
    InsertBackspace,
    /// Enter in Insert mode.
    InsertEnter,
    /// Anything else.
    Unknown,
}

/// What a character means in Normal mode.
pub open spec fn normal_char(c: char) -> InputEvent {
    if c == 'q' { InputEvent::Quit }
    else if c == 'j' { InputEvent::MoveDown }
    else if c == 'k' { InputEvent::MoveUp }
    else if c == 'h' { InputEvent::MoveLeft }
    else if c == 'l' { InputEvent::MoveRight }
    else if c == 'i' { InputEvent::EnterInsertMode }
    else if c == ':' { InputEvent::EnterCommandMode }
    else if c == '/' { InputEvent::EnterSearchMode }
    else if c == 'n' { InputEvent::NextSearchResult }
    else if c == 'd' { InputEvent::Delete }
    else if c == 'y' { InputEvent::Yank }
    else if c == 'p' { InputEvent::Paste }
    else if c == 'P' { InputEvent::PasteBefore }
    else if c == 'Z' { InputEvent::SaveAndQuit }
    else if c == 'g' { InputEvent::JumpToTop }
    else if c == 'G' { InputEvent::JumpToBottom }
    else if c == 'a' { InputEvent::AddNode }
    else if c == 'u' { InputEvent::Undo }
    else if '0' <= c && c <= '9' { InputEvent::CountDigit((c as u32 - '0' as u32) as u32) }
    else { InputEvent::Unknown }
}

/// What `key` means in `mode`. In Normal mode Ctrl-d, Ctrl-u and Ctrl-r
/// page down, page up and redo; any other Ctrl combination counts as its
/// plain character. Enter and Tab mean nothing there.
pub open spec fn key_event(key: BackendKey, mode: EditorMode) -> InputEvent {
    match mode {
        EditorMode::Normal => match key {
            BackendKey::Ctrl(c) => if c == 'd' {
                InputEvent::PageDown
            } else if c == 'u' {
                InputEvent::PageUp
            } else if c == 'r' {
                InputEvent::Redo
            } else {
                normal_char(c)
            },
            BackendKey::Char(c) => normal_char(c),
            BackendKey::Down => InputEvent::MoveDown,
            BackendKey::Up => InputEvent::MoveUp,
            BackendKey::Left => InputEvent::MoveLeft,
            BackendKey::Right => InputEvent::MoveRight,
            _ => InputEvent::Unknown,
        },
        EditorMode::Insert => match key {
            BackendKey::Esc => InputEvent::ExitMode,
            BackendKey::Char(c) => if c == '\n' {
                InputEvent::InsertEnter
            } else if c == '\t' {
                InputEvent::Unknown
            } else {
                InputEvent::InsertCharacter(c)
            },
            BackendKey::Ctrl(c) => InputEvent::InsertCharacter(c),
            BackendKey::Backspace => InputEvent::InsertBackspace,
            _ => InputEvent::Unknown,
        },
        _ => match key {
            BackendKey::Esc => InputEvent::ExitMode,
            _ => InputEvent::Unknown,
        },
    }
}

/// The command for `c` in Normal mode.
fn map_normal_char(c: char) -> (res: InputEvent)
    ensures
        res == normal_char(c),
{
    if c == 'q' { InputEvent::Quit }
    else if c == 'j' { InputEvent::MoveDown }
    else if c == 'k' { InputEvent::MoveUp }
    else if c == 'h' { InputEvent::MoveLeft }
    else if c == 'l' { InputEvent::MoveRight }
    else if c == 'i' { InputEvent::EnterInsertMode }
    else if c == ':' { InputEvent::EnterCommandMode }
    else if c == '/' { InputEvent::EnterSearchMode }
    else if c == 'n' { InputEvent::NextSearchResult }
    else if c == 'd' { InputEvent::Delete }
    else if c == 'y' { InputEvent::Yank }
    else if c == 'p' { InputEvent::Paste }
    else if c == 'P' { InputEvent::PasteBefore }
    else if c == 'Z' { InputEvent::SaveAndQuit }
    else if c == 'g' { InputEvent::JumpToTop }
    else if c == 'G' { InputEvent::JumpToBottom }
    else if c == 'a' { InputEvent::AddNode }
    else if c == 'u' { InputEvent::Undo }
    else if '0' <= c && c <= '9' { InputEvent::CountDigit(c as u32 - '0' as u32) }
    else { InputEvent::Unknown }
}

/// The command `key` gives in `mode` (see `key_event`).
pub fn map_key_event(key: &BackendKey, mode: &EditorMode) -> (res: InputEvent)
    ensures
        res == key_event(*key, *mode),
{
    match mode {
        EditorMode::Normal => match key {
            BackendKey::Ctrl(c) => {
                let c = *c;
                if c == 'd' {
                    InputEvent::PageDown
                } else if c == 'u' {
                    InputEvent::PageUp
                } else if c == 'r' {
                    InputEvent::Redo
                } else {
                    map_normal_char(c)
                }
            },
            BackendKey::Char(c) => map_normal_char(*c),
            BackendKey::Down => InputEvent::MoveDown,
            BackendKey::Up => InputEvent::MoveUp,
            BackendKey::Left => InputEvent::MoveLeft,
            BackendKey::Right => InputEvent::MoveRight,
            _ => InputEvent::Unknown,
        },
        EditorMode::Insert => match key {
            BackendKey::Esc => InputEvent::ExitMode,
            BackendKey::Char(c) => {
                let c = *c;
                if c == '\n' {
                    InputEvent::InsertEnter
                } else if c == '\t' {
                    InputEvent::Unknown
                } else {
                    InputEvent::InsertCharacter(c)
                }
            },
            BackendKey::Ctrl(c) => InputEvent::InsertCharacter(*c),
            BackendKey::Backspace => InputEvent::InsertBackspace,
            _ => InputEvent::Unknown,
        },
        _ => match key {
            BackendKey::Esc => InputEvent::ExitMode,
            _ => InputEvent::Unknown,
        },
    }
}

/// The Normal-mode key map: `j`/`k` and the Down/Up arrows move down and
/// up, `h`/`l` and the Left/Right arrows collapse and expand, `gg`/`G`
/// jump, Ctrl-d/Ctrl-u page, `i`, `:` and `/` enter their modes, `a` adds,
/// `d`, `y`, `p`, `P`, `u`, Ctrl-r and `Z` edit and save, `n` finds the
/// next match, `q` quits and each digit `d` counts `d`.
pub proof fn law_normal_key_map(digit: char)
    requires
        '0' <= digit <= '9',
    ensures
        key_event(BackendKey::Char('j'), EditorMode::Normal) == InputEvent::MoveDown,
        key_event(BackendKey::Down, EditorMode::Normal) == InputEvent::MoveDown,
        key_event(BackendKey::Char('k'), EditorMode::Normal) == InputEvent::MoveUp,
        key_event(BackendKey::Up, EditorMode::Normal) == InputEvent::MoveUp,
        key_event(BackendKey::Char('h'), EditorMode::Normal) == InputEvent::MoveLeft,
        key_event(BackendKey::Left, EditorMode::Normal) == InputEvent::MoveLeft,
        key_event(BackendKey::Char('l'), EditorMode::Normal) == InputEvent::MoveRight,
        key_event(BackendKey::Right, EditorMode::Normal) == InputEvent::MoveRight,
        key_event(BackendKey::Char('g'), EditorMode::Normal) == InputEvent::JumpToTop,
        key_event(BackendKey::Char('G'), EditorMode::Normal) == InputEvent::JumpToBottom,
        key_event(BackendKey::Ctrl('d'), EditorMode::Normal) == InputEvent::PageDown,
        key_event(BackendKey::Ctrl('u'), EditorMode::Normal) == InputEvent::PageUp,
        key_event(BackendKey::Ctrl('r'), EditorMode::Normal) == InputEvent::Redo,
        key_event(BackendKey::Char('i'), EditorMode::Normal) == InputEvent::EnterInsertMode,
        key_event(BackendKey::Char(':'), EditorMode::Normal) == InputEvent::EnterCommandMode,
        key_event(BackendKey::Char('/'), EditorMode::Normal) == InputEvent::EnterSearchMode,
        key_event(BackendKey::Char('a'), EditorMode::Normal) == InputEvent::AddNode,
        key_event(BackendKey::Char('d'), EditorMode::Normal) == InputEvent::Delete,
        key_event(BackendKey::Char('y'), EditorMode::Normal) == InputEvent::Yank,
        key_event(BackendKey::Char('p'), EditorMode::Normal) == InputEvent::Paste,
        key_event(BackendKey::Char('P'), EditorMode::Normal) == InputEvent::PasteBefore,
        key_event(BackendKey::Char('u'), EditorMode::Normal) == InputEvent::Undo,
        key_event(BackendKey::Char('Z'), EditorMode::Normal) == InputEvent::SaveAndQuit,
        key_event(BackendKey::Char('n'), EditorMode::Normal) == InputEvent::NextSearchResult,
        key_event(BackendKey::Char('q'), EditorMode::Normal) == InputEvent::Quit,
        key_event(BackendKey::Char(digit), EditorMode::Normal) == InputEvent::CountDigit((digit as u32 - '0' as u32) as u32),
        key_event(BackendKey::Esc, EditorMode::Insert) == InputEvent::ExitMode,
        key_event(BackendKey::Esc, EditorMode::Command) == InputEvent::ExitMode,
        key_event(BackendKey::Esc, EditorMode::Search) == InputEvent::ExitMode,
        key_event(BackendKey::Backspace, EditorMode::Insert) == InputEvent::InsertBackspace,
        key_event(BackendKey::Char('\n'), EditorMode::Insert) == InputEvent::InsertEnter,
{
}

/// In Insert mode every character typed but Enter and Tab is inserted as
/// it is.
pub proof fn law_insert_types_characters(c: char)
    requires
        c != '\n',
        c != '\t',
    ensures
        key_event(BackendKey::Char(c), EditorMode::Insert) == InputEvent::InsertCharacter(c),
{
}

} // verus!
