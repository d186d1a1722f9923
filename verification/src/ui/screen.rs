//! The text pieces of the screen that the terminal front end draws: each
//! tree view line, and the bottom line (a prompt or a message).
use vstd::prelude::*;
use crate::editor::mode::EditorMode;
use crate::editor::state::{AddModeStage, EditorState, MessageLevel, StateModel};
use crate::file::saver::{spaces, push_indent};
use crate::text::{decimal, decimal_string, push_str, string_of, substring_chars};
use crate::ui::tree_view::{LineModel, TreeViewLine};

verus! {

/// The number of characters in the decimal form of `count` (the width of
/// the line-number column for `count` lines).
pub fn number_width(count: usize) -> (res: usize)
    ensures
        res == decimal(count as nat).len(),
{
    decimal_string(count).as_str().unicode_len()
}

/// A line number right-aligned in `width` columns, and a space.
pub open spec fn padded_number(n: nat, width: nat) -> Seq<char> {
    let d = decimal(n);
    (if d.len() < width { spaces((width - d.len()) as nat) } else { Seq::empty() }) + d + seq![' ']
}

/// The marker before a line: an open or closed triangle on a container,
/// a pointer on the cursor's scalar, blanks otherwise.
pub open spec fn line_marker(l: LineModel, is_cursor: bool) -> Seq<char> {
    if l.expandable {
        if l.expanded { seq!['\u{25bc}', ' '] } else { seq!['\u{25b6}', ' '] }
    } else if is_cursor {
        seq!['\u{25b6}', ' ']
    } else {
        seq![' ', ' ']
    }
}

/// The text pieces of one tree view line, in the order they are drawn.
pub struct LineText {
    /// The line number column, when line numbers are shown.
    pub number: Option<String>,
    /// Two spaces per level of depth.
    pub indent: String,
    /// See `line_marker`.
    pub marker: String,
    /// `key: ` for an object member.
    pub key: Option<String>,
    /// The value's preview.
    pub value: String,
}

/// The pieces of `line`, shown as line `line_number` (from one) with a
/// number column `number_width` wide when `show_numbers`.
pub fn line_text(line: &TreeViewLine, line_number: usize, number_width: usize, show_numbers: bool, is_cursor: bool) -> (res: LineText)
    ensures
        match res.number {
            Some(t) => show_numbers && t@ == padded_number(line_number as nat, number_width as nat),
            None => !show_numbers,
        },
        res.indent@ == spaces(2 * line.depth as nat),
        res.marker@ == line_marker(line@, is_cursor),
        match (res.key, line@.key) {
            (Some(t), Some(k)) => t@ == k + seq![':', ' '],
            (None, None) => true,
            _ => false,
        },
        res.value@ == line@.preview,
{
    let number = if show_numbers {
        let digits = decimal_string(line_number);
        let n = digits.as_str().unicode_len();
        let mut t = String::new();
        if n < number_width {
            push_indent(&mut t, 1, number_width - n);
            assert(spaces(1nat * (number_width - n) as nat) =~= spaces((number_width - n) as nat));
        } else {
            assert(t@ =~= Seq::<char>::empty());
        }
        push_str(&mut t, digits.as_str());
        t.push(' ');
        Some(t)
    } else {
        None
    };
    let mut indent = String::new();
    push_indent(&mut indent, 2, line.depth);
    let mut marker = String::new();
    if line.expandable {
        if line.expanded {
            marker.push('\u{25bc}');
        } else {
            marker.push('\u{25b6}');
        }
    } else if is_cursor {
        marker.push('\u{25b6}');
    } else {
        marker.push(' ');
    }
    marker.push(' ');
    let key = match &line.key {
        Some(k) => {
            let mut t = string_of(k.as_str());
            t.push(':');
            t.push(' ');
            Some(t)
        },
        None => None,
    };
    LineText { number, indent, marker, key, value: string_of(line.value_preview.as_str()) }
}

/// What the bottom line of the screen shows.
pub enum BottomLine {
    /// A prompt with the text typed so far and the position of the cursor
    /// in it (in characters).
    Prompt { label: String, buffer: String, cursor: usize },
    /// The current message.
    Message { text: String, level: MessageLevel },
    /// Nothing.
    Empty,
}

/// The model of the bottom line.
pub enum BottomModel {
    Prompt(Seq<char>, Seq<char>, nat),
    Message(Seq<char>, MessageLevel),
    Empty,
}

impl View for BottomLine {
    type V = BottomModel;

    open spec fn view(&self) -> BottomModel {
        match self {
            BottomLine::Prompt { label, buffer, cursor } => BottomModel::Prompt(label@, buffer@, *cursor as nat),
            BottomLine::Message { text, level } => BottomModel::Message(text@, *level),
            BottomLine::Empty => BottomModel::Empty,
        }
    }
}

/// The message, or nothing.
pub open spec fn message_or_empty(m: StateModel) -> BottomModel {
    match m.message {
        Some((t, l)) => BottomModel::Message(t, l),
        None => BottomModel::Empty,
    }
}

/// The bottom line: the command or search being typed (cursor at the end),
/// the value being edited (at the edit cursor), the key of a new member
/// being typed, or else the message.
pub open spec fn bottom_model(m: StateModel) -> BottomModel {
    match m.mode {
        EditorMode::Command => BottomModel::Prompt(":"@, m.command, m.command.len()),
        EditorMode::Search => BottomModel::Prompt("/"@, m.search, m.search.len()),
        EditorMode::Insert => match m.edit {
            Some(b) => BottomModel::Prompt("Edit: "@, b, m.edit_cursor),
            None => message_or_empty(m),
        },
        EditorMode::Normal => if m.add_stage == AddModeStage::AwaitingKey {
            BottomModel::Prompt("Key: "@, m.add_key, m.add_key.len())
        } else {
            message_or_empty(m)
        },
    }
}

/// A prompt for `buffer` with the cursor at its end.
fn prompt_at_end(label: &str, buffer: &str) -> (res: BottomLine)
    ensures
        res@ == BottomModel::Prompt(label@, buffer@, buffer@.len()),
{
    BottomLine::Prompt { label: string_of(label), buffer: string_of(buffer), cursor: buffer.unicode_len() }
}

/// What the bottom line of the screen shows (see `bottom_model`).
pub fn bottom_line(state: &EditorState) -> (res: BottomLine)
    ensures
        res@ == bottom_model(state.model()),
{
    let stored = match state.message() {
        Some(m) => BottomLine::Message { text: string_of(m.text.as_str()), level: m.level },
        None => BottomLine::Empty,
    };
    match state.mode() {
        EditorMode::Command => prompt_at_end(":", state.command_buffer()),
        EditorMode::Search => prompt_at_end("/", state.search_buffer()),
        EditorMode::Insert => match state.edit_buffer() {
            Some(b) => BottomLine::Prompt {
                label: string_of("Edit: "),
                buffer: string_of(b),
                cursor: state.edit_cursor_position(),
            },
            None => stored,
        },
        EditorMode::Normal => if *state.add_mode_stage() == AddModeStage::AwaitingKey {
            prompt_at_end("Key: ", state.add_key_buffer())
        } else {
            stored
        },
    }
}

/// `buffer` split at character `cursor` (or at its end, if shorter).
pub fn split_at_cursor(buffer: &str, cursor: usize) -> (res: (String, String))
    ensures
        ({
            let k = if cursor < buffer@.len() { cursor as int } else { buffer@.len() as int };
            res.0@ == buffer@.subrange(0, k) && res.1@ == buffer@.subrange(k, buffer@.len() as int)
        }),
{
    let n = buffer.unicode_len();
    let k = if cursor < n { cursor } else { n };
    (substring_chars(buffer, 0, k), substring_chars(buffer, k, n))
}

} // verus!
