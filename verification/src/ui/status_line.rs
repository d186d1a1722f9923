//! The text of the status line: mode, file name and dirty marker on the
//! left, cursor position on the right.
use vstd::prelude::*;
use crate::editor::mode::mode_label;
use crate::editor::state::{EditorState, StateModel, line_index};
use crate::file::saver::{byte_len, spaces, byte_count_upto, push_indent, lemma_byte_len_concat};
use crate::text::{decimal, push_str, push_decimal, string_of};

verus! {

/// The left part: the mode, the file name (`[No Name]` without one) and
/// ` [+]` when there are unsaved changes.
pub open spec fn status_left(m: StateModel) -> Seq<char> {
    mode_label(m.mode) + " | "@ + match m.filename {
        Some(f) => f,
        None => "[No Name]"@,
    } + if m.dirty { " [+]"@ } else { Seq::empty() }
}

/// The cursor's line number, from one (zero when it is on no line).
pub open spec fn cursor_row(m: StateModel) -> nat {
    match line_index(m.lines, m.cursor) {
        Some(i) => i + 1,
        None => 0,
    }
}

/// The cursor's column: one on a line, zero otherwise.
pub open spec fn cursor_col(m: StateModel) -> nat {
    match line_index(m.lines, m.cursor) {
        Some(_) => 1,
        None => 0,
    }
}

/// The right part: `row,col row/total`.
pub open spec fn status_right(m: StateModel) -> Seq<char> {
    decimal(cursor_row(m)) + ","@ + decimal(cursor_col(m)) + " "@ + decimal(cursor_row(m)) + "/"@ + decimal(m.lines.len())
}

/// The whole line for a screen `width` bytes wide: the two parts with
/// spaces between them that push the right part to the edge, or a single
/// space when they do not fit.
pub open spec fn status_text(m: StateModel, width: nat) -> Seq<char> {
    let l = status_left(m);
    let r = status_right(m);
    let pad = if byte_len(l) + byte_len(r) + 1 < width { (width - byte_len(l) - byte_len(r)) as nat } else { 1 };
    l + spaces(pad) + r
}

/// The status line text for a screen `width` bytes wide (see `status_text`).
pub fn status_line_text(state: &EditorState, width: usize) -> (res: String)
    ensures
        res@ == status_text(state.model(), width as nat),
{
    proof {
        reveal_strlit(" | ");
    }
    let mut left = state.mode().label();
    push_str(&mut left, " | ");
    match state.filename() {
        Some(f) => push_str(&mut left, f),
        None => push_str(&mut left, "[No Name]"),
    }
    if state.is_dirty() {
        push_str(&mut left, " [+]");
    } else {
        assert(left@ + Seq::<char>::empty() =~= left@);
    }
    let (row, col) = state.cursor_position();
    let total = state.total_lines();
    let mut right = String::new();
    push_decimal(&mut right, row);
    push_str(&mut right, ",");
    push_decimal(&mut right, col);
    push_str(&mut right, " ");
    push_decimal(&mut right, row);
    push_str(&mut right, "/");
    push_decimal(&mut right, total);
    let ghost l = left@;
    let ghost r = right@;
    assert(l == status_left(state.model()));
    assert(r == status_right(state.model()));
    let mut both = string_of(left.as_str());
    push_str(&mut both, right.as_str());
    proof {
        lemma_byte_len_concat(l, r);
    }
    let pad: usize = if width >= 2 {
        match byte_count_upto(both.as_str(), width - 2) {
            Some(used) => width - used,
            None => 1,
        }
    } else {
        1
    };
    let mut out = left;
    push_indent(&mut out, 1, pad);
    assert(spaces(1nat * pad as nat) =~= spaces(pad as nat));
    push_str(&mut out, right.as_str());
    out
}

} // verus!
