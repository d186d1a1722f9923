//! Applying key events to the editor state.
//!
//! The handler decides; what needs the outside world (writing a file,
//! saving the settings) comes back as a `HandlerAction` for the caller to
//! perform, and its outcome is handed back through `finish_write` and
//! `finish_save_config`.
use vstd::prelude::*;
use super::backend::{BackendEvent, BackendKey};
use super::keys::{InputEvent, key_event, map_key_event};
use crate::document::node::opt_string_view;
use crate::editor::mode::EditorMode;
use crate::editor::state::{
    EditorState, StateModel, MessageLevel, AddModeStage, EditErrorModel, edit_error_text, outcome,
    start_edit_effect, commit_result, delete_result, yank_result, undo_result, redo_result,
    search_effect, next_match_result, cursor_down_effect, cursor_up_effect, top_effect,
    bottom_effect, line_effect, page_down_effect, page_up_effect, blink_reset, edit_insert_effect,
    edit_backspace_effect, edit_delete_effect, edit_left_effect, edit_right_effect, edit_end_effect,
    edit_kill_start_effect, add_to_value_effect, toggle_effect, add_started, add_result,
    paste_result, cursor_index_ok, paste_fits,
};
use crate::text::{decimal, trim, leading_ws, trailing_ws, starts_with, string_of, push_str, push_decimal, trim_str, str_starts_with, substring_chars};
use crate::theme::{is_builtin_theme, get_builtin_theme};

verus! {

/// What the caller has to do after a key was handled.
#[derive(Debug, Clone, PartialEq, Eq)]
pub enum HandlerAction {
    /// Nothing: keep running.
    Continue,
    /// Quit the editor.
    Quit,
    /// Write the document to `filename` (indent 2, no backup), then report
    /// through `finish_write`; quit afterwards if `quit_after`.
    Write { filename: String, quit_after: bool },
    /// Save the settings, then report through `finish_save_config`.
    SaveConfig,
}

/// The model of a `HandlerAction`.
pub enum ActionModel {
    Continue,
    Quit,
    Write(Seq<char>, bool),
    SaveConfig,
}

impl View for HandlerAction {
    type V = ActionModel;

    open spec fn view(&self) -> ActionModel {
        match self {
            HandlerAction::Continue => ActionModel::Continue,
            HandlerAction::Quit => ActionModel::Quit,
            HandlerAction::Write { filename, quit_after } => ActionModel::Write(filename@, *quit_after),
            HandlerAction::SaveConfig => ActionModel::SaveConfig,
        }
    }
}

/// `m` showing `text` at `level`.
pub open spec fn with_message(m: StateModel, text: Seq<char>, level: MessageLevel) -> StateModel {
    StateModel { message: Some((text, level)), ..m }
}

/// `m` in `mode`.
pub open spec fn in_mode(m: StateModel, mode: EditorMode) -> StateModel {
    StateModel { mode, ..m }
}

/// `m` with no pending command key and no count.
pub open spec fn no_pending(m: StateModel) -> StateModel {
    StateModel { pending_command: None, pending_count: None, ..m }
}

/// The count typed before a command (one when none was typed).
pub open spec fn count_of(m: StateModel) -> nat {
    match m.pending_count {
        Some(c) => c as nat,
        None => 1,
    }
}

/// The count after typing the digit `d` (it stops growing at `u32::MAX`).
pub open spec fn pushed_count(pc: Option<u32>, d: u32) -> u32 {
    match pc {
        Some(c) => if c * 10 + d <= u32::MAX { (c * 10 + d) as u32 } else { u32::MAX },
        None => d,
    }
}

/// The character a key types into a buffer: a plain character other than
/// Enter and Tab, or the character of a Ctrl combination.
pub open spec fn typed_char(k: BackendKey) -> Option<char> {
    match k {
        BackendKey::Char(c) => if c == '\n' || c == '\t' { None } else { Some(c) },
        BackendKey::Ctrl(c) => Some(c),
        _ => None,
    }
}

/// The edit buffer dropped.
pub open spec fn edit_cancelled(m: StateModel) -> StateModel {
    StateModel { edit: None, edit_cursor: 0, ..m }
}

/// The add operation dropped.
pub open spec fn add_cancelled(m: StateModel) -> StateModel {
    StateModel { add_stage: AddModeStage::Idle, add_key: Seq::empty(), add_point: None, ..m }
}

/// The help overlay shown or hidden (shown from the top).
pub open spec fn help_toggled(m: StateModel) -> StateModel {
    StateModel { show_help: !m.show_help, help_scroll: if !m.show_help { 0 } else { m.help_scroll }, ..m }
}

/// The help overlay scrolled a line down.
pub open spec fn help_down(m: StateModel) -> StateModel {
    StateModel { help_scroll: if m.help_scroll < usize::MAX { m.help_scroll + 1 } else { m.help_scroll }, ..m }
}

/// The help overlay scrolled a line up.
pub open spec fn help_up(m: StateModel) -> StateModel {
    StateModel { help_scroll: if m.help_scroll > 0 { (m.help_scroll - 1) as nat } else { 0 }, ..m }
}

/// The cursor moved down `n` times.
pub open spec fn moved_down(m: StateModel, n: nat) -> StateModel
    decreases n,
{
    if n == 0 {
        m
    } else {
        cursor_down_effect(moved_down(m, (n - 1) as nat))
    }
}

/// The cursor moved up `n` times.
pub open spec fn moved_up(m: StateModel, n: nat) -> StateModel
    decreases n,
{
    if n == 0 {
        m
    } else {
        cursor_up_effect(moved_up(m, (n - 1) as nat))
    }
}

/// The node under the cursor deleted `n` times over, stopping at the
/// first failure.
pub open spec fn deleted(m: StateModel, n: nat) -> (StateModel, Result<(), EditErrorModel>)
    decreases n,
{
    if n == 0 {
        (m, Ok(()))
    } else {
        let (m1, r) = deleted(m, (n - 1) as nat);
        match r {
            Err(e) => (m1, Err(e)),
            Ok(()) => delete_result(m1),
        }
    }
}

/// The message after yanking `n` nodes.
pub open spec fn yank_text(n: nat) -> Seq<char> {
    if n == 1 {
        "Node yanked"@
    } else {
        decimal(n) + " nodes yanked"@
    }
}

/// A paste, reported in a message.
pub open spec fn pasted(m: StateModel, after: bool) -> StateModel {
    let (m1, r) = paste_result(m, after);
    match r {
        Ok(()) => with_message(m1, "Node pasted"@, MessageLevel::Info),
        Err(e) => with_message(m1, "Paste failed: "@ + edit_error_text(e), MessageLevel::Error),
    }
}

/// An undo; a warning when there is nothing to undo.
pub open spec fn undone(m: StateModel) -> StateModel {
    let (m1, ok) = undo_result(m);
    if ok { m1 } else { with_message(m1, "Already at oldest change"@, MessageLevel::Warning) }
}

/// A redo; a warning when there is nothing to redo.
pub open spec fn redone(m: StateModel) -> StateModel {
    let (m1, ok) = redo_result(m);
    if ok { m1 } else { with_message(m1, "Already at newest change"@, MessageLevel::Warning) }
}

/// Enter in Insert mode: the value of a new member is added, or the edited
/// value is committed; on success the editor is back in Normal mode, on
/// failure the error is shown and editing goes on.
pub open spec fn insert_enter(m: StateModel, number: Option<Seq<char>>) -> StateModel {
    if m.add_stage == AddModeStage::AwaitingValue {
        let (m1, r) = add_result(m, number);
        match r {
            Ok(()) => in_mode(m1, EditorMode::Normal),
            Err(e) => with_message(m1, "Add failed: "@ + edit_error_text(e), MessageLevel::Error),
        }
    } else {
        let (m1, r) = commit_result(m, number);
        match r {
            Ok(()) => with_message(in_mode(m1, EditorMode::Normal), "Value updated"@, MessageLevel::Info),
            Err(e) => with_message(m1, "Invalid value: "@ + edit_error_text(e), MessageLevel::Error),
        }
    }
}

/// A key in Insert mode.
pub open spec fn insert_key(m: StateModel, k: BackendKey, number: Option<Seq<char>>) -> StateModel {
    match k {
        BackendKey::Esc => if m.add_stage != AddModeStage::Idle {
            with_message(in_mode(edit_cancelled(add_cancelled(m)), EditorMode::Normal), "Add cancelled"@, MessageLevel::Info)
        } else {
            with_message(in_mode(edit_cancelled(m), EditorMode::Normal), "Edit cancelled"@, MessageLevel::Info)
        },
        BackendKey::Char(c) => if c == '\n' {
            insert_enter(m, number)
        } else if c == '\t' {
            m
        } else {
            edit_insert_effect(m, c)
        },
        BackendKey::Ctrl(c) => if c == 'u' { edit_kill_start_effect(m) } else { edit_insert_effect(m, c) },
        BackendKey::Backspace => edit_backspace_effect(m),
        BackendKey::Delete => edit_delete_effect(m),
        BackendKey::Left => edit_left_effect(m),
        BackendKey::Right => edit_right_effect(m),
        BackendKey::Home => StateModel { edit_cursor: 0, ..blink_reset(m) },
        BackendKey::End => edit_end_effect(m),
        _ => m,
    }
}

/// A key while the key of a new object member is typed.
pub open spec fn add_key_typed(m: StateModel, k: BackendKey) -> StateModel {
    match k {
        BackendKey::Esc => with_message(add_cancelled(m), "Add cancelled"@, MessageLevel::Info),
        BackendKey::Char('\n') => add_to_value_effect(m),
        BackendKey::Backspace => StateModel {
            add_key: if m.add_key.len() > 0 { m.add_key.drop_last() } else { m.add_key },
            ..blink_reset(m)
        },
        _ => match typed_char(k) {
            Some(c) => StateModel { add_key: m.add_key.push(c), ..blink_reset(m) },
            None => m,
        },
    }
}

/// A key while the help overlay is shown: Esc closes it, j/k and the
/// arrows scroll it, anything else is ignored.
pub open spec fn help_key(m: StateModel, k: BackendKey) -> StateModel {
    match k {
        BackendKey::Esc => help_toggled(m),
        BackendKey::Char('j') => help_down(m),
        BackendKey::Down => help_down(m),
        BackendKey::Char('k') => help_up(m),
        BackendKey::Up => help_up(m),
        _ => m,
    }
}

/// The message after a search is finished.
pub open spec fn search_done(m: StateModel) -> StateModel {
    if m.search_results.len() > 0 {
        with_message(m, "Found "@ + decimal(m.search_results.len()) + " matches"@, MessageLevel::Info)
    } else {
        with_message(m, "No matches found"@, MessageLevel::Warning)
    }
}

/// A key in Search mode: typing refines the search as it goes.
pub open spec fn search_key(m: StateModel, k: BackendKey) -> StateModel {
    match k {
        BackendKey::Char('\n') => search_done(in_mode(m, EditorMode::Normal)),
        BackendKey::Esc => in_mode(StateModel { search: Seq::empty(), ..m }, EditorMode::Normal),
        BackendKey::Backspace => search_effect(StateModel {
            search: if m.search.len() > 0 { m.search.drop_last() } else { m.search },
            ..m
        }),
        _ => match typed_char(k) {
            Some(c) => search_effect(StateModel { search: m.search.push(c), ..m }),
            None => m,
        },
    }
}

/// The settings as `:set` lists them.
pub open spec fn settings_text(m: StateModel) -> Seq<char> {
    "Settings: "@ + if m.show_line_numbers { "number"@ } else { "nonumber"@ }
}

/// `:set <setting>`: turn a setting on or off, or ask for it with `?`.
pub open spec fn set_command(m: StateModel, setting: Seq<char>) -> StateModel {
    if setting.len() > 0 && setting.last() == '?' {
        let name = setting.drop_last();
        if name == "number"@ {
            with_message(m, "number is "@ + if m.show_line_numbers { "on"@ } else { "off"@ }, MessageLevel::Info)
        } else {
            with_message(m, "Unknown setting: "@ + name, MessageLevel::Error)
        }
    } else if setting == "number"@ || setting == "nu"@ {
        with_message(StateModel { show_line_numbers: true, ..m }, "Line numbers enabled"@, MessageLevel::Info)
    } else if setting == "nonumber"@ || setting == "nonu"@ {
        with_message(StateModel { show_line_numbers: false, ..m }, "Line numbers disabled"@, MessageLevel::Info)
    } else {
        with_message(m, "Unknown setting: "@ + setting, MessageLevel::Error)
    }
}

/// `:theme <name>`: switch to a built-in theme.
pub open spec fn theme_command(m: StateModel, name: Seq<char>) -> StateModel {
    if is_builtin_theme(name) {
        with_message(
            StateModel { current_theme: name, pending_theme: Some(name), ..m },
            "Switched to theme: "@ + name,
            MessageLevel::Info,
        )
    } else {
        with_message(m, "Unknown theme: "@ + name + " (use :theme to list)"@, MessageLevel::Error)
    }
}

/// Writing to the file the document came from, if it has one.
pub open spec fn write_named(m: StateModel, quit_after: bool, hint: Seq<char>) -> (StateModel, ActionModel) {
    match m.filename {
        Some(f) => (m, ActionModel::Write(f, quit_after)),
        None => (with_message(m, hint, MessageLevel::Error), ActionModel::Continue),
    }
}

/// A `:` command (leading and trailing white space ignored).
pub open spec fn run_command(m: StateModel, command: Seq<char>) -> (StateModel, ActionModel) {
    let c = trim(command);
    if c == "theme"@ {
        (with_message(m, "Available themes: "@ + "default-dark"@ + ", "@ + "default-light"@, MessageLevel::Info), ActionModel::Continue)
    } else if starts_with(c, "theme "@) {
        (theme_command(m, trim(c.subrange(6, c.len() as int))), ActionModel::Continue)
    } else if c == "set"@ {
        (with_message(m, settings_text(m), MessageLevel::Info), ActionModel::Continue)
    } else if c == "set save"@ {
        (m, ActionModel::SaveConfig)
    } else if starts_with(c, "set "@) {
        (set_command(m, trim(c.subrange(4, c.len() as int))), ActionModel::Continue)
    } else if c == "q"@ {
        if m.dirty {
            (with_message(m, "No write since last change (use :q! to force)"@, MessageLevel::Error), ActionModel::Continue)
        } else {
            (m, ActionModel::Quit)
        }
    } else if c == "q!"@ {
        (m, ActionModel::Quit)
    } else if c == "w"@ {
        write_named(m, false, "No file name (use :w <filename>)"@)
    } else if starts_with(c, "w "@) {
        (m, ActionModel::Write(trim(c.subrange(2, c.len() as int)), false))
    } else if c == "wq"@ || c == "x"@ {
        write_named(m, true, "No file name (use :wq <filename>)"@)
    } else if c == "undo"@ {
        (undone(m), ActionModel::Continue)
    } else if c == "redo"@ {
        (redone(m), ActionModel::Continue)
    } else if c.len() == 0 {
        (m, ActionModel::Continue)
    } else {
        (with_message(m, "Unknown command: "@ + c, MessageLevel::Error), ActionModel::Continue)
    }
}

/// A key in Command mode: Enter runs the command typed, back in Normal mode.
pub open spec fn command_key(m: StateModel, k: BackendKey) -> (StateModel, ActionModel) {
    match k {
        BackendKey::Char('\n') => run_command(in_mode(StateModel { command: Seq::empty(), ..m }, EditorMode::Normal), m.command),
        BackendKey::Esc => (in_mode(StateModel { command: Seq::empty(), ..m }, EditorMode::Normal), ActionModel::Continue),
        BackendKey::Backspace => (StateModel {
            command: if m.command.len() > 0 { m.command.drop_last() } else { m.command },
            ..m
        }, ActionModel::Continue),
        _ => match typed_char(k) {
            Some(c) => (StateModel { command: m.command.push(c), ..m }, ActionModel::Continue),
            None => (m, ActionModel::Continue),
        },
    }
}

/// A command in Normal mode. A count typed before `j`, `k` and `dd`
/// repeats them; before `g` or `G` it names the line to jump to. Two-key
/// commands (`dd`, `yy`, `gg`, `ZZ`) remember their first key.
pub open spec fn normal_event(m: StateModel, e: InputEvent) -> (StateModel, ActionModel) {
    let p = no_pending(m);
    match e {
        InputEvent::Quit => if m.dirty {
            (with_message(p, "No write since last change (use :q! to force)"@, MessageLevel::Error), ActionModel::Continue)
        } else {
            (p, ActionModel::Quit)
        },
        InputEvent::CountDigit(d) => if d == 0 && m.pending_count is None {
            (p, ActionModel::Continue)
        } else {
            (StateModel { pending_count: Some(pushed_count(m.pending_count, d)), ..m }, ActionModel::Continue)
        },
        InputEvent::MoveDown => (moved_down(p, count_of(m)), ActionModel::Continue),
        InputEvent::MoveUp => (moved_up(p, count_of(m)), ActionModel::Continue),
        InputEvent::MoveLeft => (toggle_effect(p), ActionModel::Continue),
        InputEvent::MoveRight => (toggle_effect(p), ActionModel::Continue),
        InputEvent::EnterInsertMode => {
            let m1 = start_edit_effect(p);
            if m1.edit is Some {
                (with_message(in_mode(m1, EditorMode::Insert), "-- INSERT --"@, MessageLevel::Info), ActionModel::Continue)
            } else {
                (with_message(m1, "Cannot edit this node type"@, MessageLevel::Error), ActionModel::Continue)
            }
        },
        InputEvent::EnterCommandMode => (in_mode(StateModel { command: Seq::empty(), ..p }, EditorMode::Command), ActionModel::Continue),
        InputEvent::EnterSearchMode => (in_mode(StateModel { search: Seq::empty(), ..p }, EditorMode::Search), ActionModel::Continue),
        InputEvent::NextSearchResult => {
            let (m1, found) = next_match_result(p);
            if found {
                (with_message(
                    m1,
                    "Match "@ + decimal(m1.search_index + 1) + "/"@ + decimal(m1.search_results.len()),
                    MessageLevel::Info,
                ), ActionModel::Continue)
            } else {
                (with_message(m1, "No search results (use / to search)"@, MessageLevel::Warning), ActionModel::Continue)
            }
        },
        InputEvent::ExitMode => (in_mode(p, EditorMode::Normal), ActionModel::Continue),
        InputEvent::Yank => if m.pending_command == Some('y') {
            let (m1, found) = yank_result(p, count_of(m));
            if found {
                (with_message(m1, yank_text(m1.clipboard.len()), MessageLevel::Info), ActionModel::Continue)
            } else {
                (with_message(m1, "Nothing to yank"@, MessageLevel::Error), ActionModel::Continue)
            }
        } else {
            (StateModel { pending_command: Some('y'), ..m }, ActionModel::Continue)
        },
        InputEvent::Delete => if m.pending_command == Some('d') {
            let (m1, r) = deleted(p, count_of(m));
            match r {
                Ok(()) => (with_message(m1, "Node deleted"@, MessageLevel::Info), ActionModel::Continue),
                Err(e) => (with_message(m1, "Delete failed: "@ + edit_error_text(e), MessageLevel::Error), ActionModel::Continue),
            }
        } else {
            (StateModel { pending_command: Some('d'), ..m }, ActionModel::Continue)
        },
        InputEvent::Paste => if paste_fits(p, true) {
            (pasted(p, true), ActionModel::Continue)
        } else {
            (p, ActionModel::Continue)
        },
        InputEvent::PasteBefore => if paste_fits(p, false) {
            (pasted(p, false), ActionModel::Continue)
        } else {
            (p, ActionModel::Continue)
        },
        InputEvent::SaveAndQuit => if m.pending_command == Some('Z') {
            if !m.dirty {
                (p, ActionModel::Quit)
            } else {
                write_named(p, true, "No file name (use :wq <filename>)"@)
            }
        } else {
            (StateModel { pending_command: Some('Z'), ..m }, ActionModel::Continue)
        },
        InputEvent::JumpToTop => match m.pending_count {
            Some(c) => (line_effect(p, c as int), ActionModel::Continue),
            None => if m.pending_command == Some('g') {
                (top_effect(p), ActionModel::Continue)
            } else {
                (StateModel { pending_command: Some('g'), ..m }, ActionModel::Continue)
            },
        },
        InputEvent::JumpToBottom => match m.pending_count {
            Some(c) => (line_effect(p, c as int), ActionModel::Continue),
            None => (bottom_effect(p), ActionModel::Continue),
        },
        InputEvent::PageDown => (page_down_effect(p), ActionModel::Continue),
        InputEvent::PageUp => (page_up_effect(p), ActionModel::Continue),
        InputEvent::AddNode => if cursor_index_ok(p) {
            (add_started(p), ActionModel::Continue)
        } else {
            (p, ActionModel::Continue)
        },
        InputEvent::Undo => (undone(p), ActionModel::Continue),
        InputEvent::Redo => (redone(p), ActionModel::Continue),
        _ => (p, ActionModel::Continue),
    }
}

/// A key, by mode: Insert, Command and Search mode take typed text; in
/// Normal mode the key of a new member is typed first if one is awaited,
/// `?` toggles the help, the open help takes the keys, and otherwise the
/// key's command (see `key_event`) runs.
pub open spec fn key_handled(m: StateModel, k: BackendKey, number: Option<Seq<char>>) -> (StateModel, ActionModel) {
    if m.mode == EditorMode::Insert {
        (insert_key(m, k, number), ActionModel::Continue)
    } else if m.mode == EditorMode::Command {
        command_key(m, k)
    } else if m.mode == EditorMode::Search {
        (search_key(m, k), ActionModel::Continue)
    } else if m.add_stage == AddModeStage::AwaitingKey {
        (add_key_typed(m, k), ActionModel::Continue)
    } else if k == BackendKey::Char('?') {
        (help_toggled(m), ActionModel::Continue)
    } else if m.show_help {
        (help_key(m, k), ActionModel::Continue)
    } else {
        normal_event(m, key_event(k, EditorMode::Normal))
    }
}

/// An event: keys are handled (see `key_handled`), other events change
/// nothing.
pub open spec fn handled(m: StateModel, ev: BackendEvent, number: Option<Seq<char>>) -> (StateModel, ActionModel) {
    match ev {
        BackendEvent::Key(k) => key_handled(m, k, number),
        _ => (m, ActionModel::Continue),
    }
}

/// What reporting the outcome of a write does: on success the document is
/// clean and named after the file, and the editor quits if asked to or
/// says the file was written; on failure the error is shown.
pub open spec fn write_finished(m: StateModel, filename: Seq<char>, result: Result<(), String>, quit_after: bool) -> (StateModel, ActionModel) {
    match result {
        Ok(()) => {
            let m1 = StateModel { dirty: false, filename: Some(filename), ..m };
            if quit_after {
                (m1, ActionModel::Quit)
            } else {
                (with_message(m1, seq!['"'] + filename + "\" written"@, MessageLevel::Info), ActionModel::Continue)
            }
        },
        Err(e) => (with_message(m, "Error saving file: "@ + e@, MessageLevel::Error), ActionModel::Continue),
    }
}

/// The message after saving the settings (to the file named, if known).
pub open spec fn config_saved(m: StateModel, result: Result<Option<String>, String>) -> StateModel {
    match result {
        Ok(Some(path)) => with_message(m, "Settings saved to "@ + path@, MessageLevel::Info),
        Ok(None) => with_message(m, "Settings saved"@, MessageLevel::Info),
        Err(e) => with_message(m, "Error saving config: "@ + e@, MessageLevel::Error),
    }
}

/// Esc always brings the editor back to Normal mode from Insert, Command
/// and Search mode.
pub proof fn law_escape_returns_to_normal(m: StateModel, number: Option<Seq<char>>)
    requires
        m.mode != EditorMode::Normal,
    ensures
        key_handled(m, BackendKey::Esc, number).0.mode == EditorMode::Normal,
        key_handled(m, BackendKey::Esc, number).1 == ActionModel::Continue,
{
}

/// `:q` quits only when there are no unsaved changes, and otherwise says
/// so as an error and changes nothing else; `:q!` always quits; `q` in
/// Normal mode behaves as `:q`, and so does Enter on a typed `q`.
pub proof fn law_quit_needs_clean_document(m: StateModel)
    requires
        m.mode == EditorMode::Normal,
        m.add_stage != AddModeStage::AwaitingKey,
        !m.show_help,
    ensures
        (run_command(m, "q"@).1 == ActionModel::Quit) <==> !m.dirty,
        !m.dirty ==> run_command(m, "q"@).0 == m,
        m.dirty ==> run_command(m, "q"@).0 == (StateModel {
            message: Some(("No write since last change (use :q! to force)"@, MessageLevel::Error)),
            ..m
        }),
        run_command(m, "q!"@) == (m, ActionModel::Quit),
        (key_handled(m, BackendKey::Char('q'), None).1 == ActionModel::Quit) <==> !m.dirty,
        (command_key(StateModel { mode: EditorMode::Command, command: "q"@, ..m }, BackendKey::Char('\n')).1
            == ActionModel::Quit) <==> !m.dirty,
{
    reveal_strlit("q");
    reveal_strlit("q!");
    reveal_strlit("theme");
    reveal_strlit("theme ");
    reveal_strlit("set");
    reveal_strlit("set save");
    reveal_strlit("set ");
    let q = "q"@;
    assert(leading_ws(q) == 0);
    assert(trailing_ws(q) == 0);
    assert(trim(q) =~= q);
    let qb = "q!"@;
    assert(leading_ws(qb) == 0);
    assert(trailing_ws(qb) == 0);
    assert(trim(qb) =~= qb);
    assert(!starts_with(q, "theme "@));
    assert(!starts_with(qb, "theme "@));
    assert(!starts_with(q, "set "@));
    assert(!starts_with(qb, "set "@));
}

/// Esc in Insert mode leaves the document as it is.
proof fn lemma_escape_in_insert(m: StateModel, number: Option<Seq<char>>)
    requires
        m.mode == EditorMode::Insert,
    ensures
        key_handled(m, BackendKey::Esc, number).0.doc == m.doc,
        key_handled(m, BackendKey::Esc, number).0.mode == EditorMode::Normal,
{
}

/// Esc in Normal mode (with no key being typed and no help shown) leaves
/// the document as it is.
proof fn lemma_escape_in_normal(m: StateModel, number: Option<Seq<char>>)
    requires
        m.mode == EditorMode::Normal,
        m.add_stage != AddModeStage::AwaitingKey,
        !m.show_help,
    ensures
        key_handled(m, BackendKey::Esc, number).0.doc == m.doc,
        key_handled(m, BackendKey::Esc, number).0.mode == EditorMode::Normal,
{
    assert(key_event(BackendKey::Esc, EditorMode::Normal) == InputEvent::Unknown);
}

/// A first `d` only remembers itself.
proof fn lemma_first_d(m: StateModel, number: Option<Seq<char>>)
    requires
        m.mode == EditorMode::Normal,
        m.add_stage != AddModeStage::AwaitingKey,
        !m.show_help,
        m.pending_command is None,
    ensures
        key_handled(m, BackendKey::Char('d'), number).0 == (StateModel { pending_command: Some('d'), ..m }),
{
    assert(key_event(BackendKey::Char('d'), EditorMode::Normal) == InputEvent::Delete);
}

/// Deleting once is one deletion.
proof fn lemma_deleted_once(m: StateModel)
    ensures
        deleted(m, 1) == delete_result(m),
{
    assert(deleted(m, 0) == (m, Ok::<(), EditErrorModel>(())));
}

/// A second `d` deletes as often as the count says.
proof fn lemma_second_d(m: StateModel, number: Option<Seq<char>>)
    requires
        m.mode == EditorMode::Normal,
        m.add_stage != AddModeStage::AwaitingKey,
        !m.show_help,
        m.pending_command == Some('d'),
    ensures
        key_handled(m, BackendKey::Char('d'), number).0.doc == deleted(no_pending(m), count_of(m)).0.doc,
{
    assert(key_event(BackendKey::Char('d'), EditorMode::Normal) == InputEvent::Delete);
}

/// Starting an edit with `i` and leaving it with Esc changes nothing in
/// the document and ends in Normal mode.
pub proof fn law_edit_then_escape_keeps_document(m: StateModel, number: Option<Seq<char>>)
    requires
        m.mode == EditorMode::Normal,
        m.add_stage != AddModeStage::AwaitingKey,
        !m.show_help,
    ensures
        ({
            let m1 = key_handled(m, BackendKey::Char('i'), number).0;
            let m2 = key_handled(m1, BackendKey::Esc, number).0;
            m2.doc == m.doc && m2.mode == EditorMode::Normal
        }),
{
    assert(key_event(BackendKey::Char('i'), EditorMode::Normal) == InputEvent::EnterInsertMode);
    let m1 = key_handled(m, BackendKey::Char('i'), number).0;
    assert(m1.doc == m.doc);
    if m1.mode == EditorMode::Insert {
        lemma_escape_in_insert(m1, number);
    } else {
        assert(m1.mode == EditorMode::Normal);
        assert(m1.add_stage == m.add_stage);
        assert(m1.show_help == m.show_help);
        lemma_escape_in_normal(m1, number);
    }
}

/// `dd` deletes the node under the cursor; the first `d` alone changes
/// nothing in the document.
pub proof fn law_dd_deletes(m: StateModel, number: Option<Seq<char>>)
    requires
        m.mode == EditorMode::Normal,
        m.add_stage != AddModeStage::AwaitingKey,
        !m.show_help,
        m.pending_command is None,
        m.pending_count is None,
    ensures
        ({
            let m1 = key_handled(m, BackendKey::Char('d'), number).0;
            let m2 = key_handled(m1, BackendKey::Char('d'), number).0;
            &&& m1.doc == m.doc
            &&& m2.doc == delete_result(m).0.doc
        }),
{
    lemma_first_d(m, number);
    let m1 = StateModel { pending_command: Some('d'), ..m };
    lemma_second_d(m1, number);
    assert(no_pending(m1) == m);
    assert(count_of(m1) == 1);
    lemma_deleted_once(m);
}

/// A digit typed in Normal mode starts (or extends) the count.
proof fn lemma_digit_key(m: StateModel, c: char, number: Option<Seq<char>>)
    requires
        m.mode == EditorMode::Normal,
        m.add_stage != AddModeStage::AwaitingKey,
        !m.show_help,
        m.pending_count is None,
        '1' <= c <= '9',
    ensures
        key_handled(m, BackendKey::Char(c), number).0 == (StateModel { pending_count: Some((c as u32 - '0' as u32) as u32), ..m }),
{
    assert(key_event(BackendKey::Char(c), EditorMode::Normal) == InputEvent::CountDigit((c as u32 - '0' as u32) as u32));
}

/// `j` in Normal mode moves down as often as the count says.
proof fn lemma_down_key(m: StateModel, number: Option<Seq<char>>)
    requires
        m.mode == EditorMode::Normal,
        m.add_stage != AddModeStage::AwaitingKey,
        !m.show_help,
    ensures
        key_handled(m, BackendKey::Char('j'), number).0 == moved_down(no_pending(m), count_of(m)),
{
    assert(key_event(BackendKey::Char('j'), EditorMode::Normal) == InputEvent::MoveDown);
}

/// A count typed before `j` moves the cursor down that many lines.
pub proof fn law_count_then_down(m: StateModel, c: char, number: Option<Seq<char>>)
    requires
        m.mode == EditorMode::Normal,
        m.add_stage != AddModeStage::AwaitingKey,
        !m.show_help,
        m.pending_count is None,
        '1' <= c <= '9',
    ensures
        key_handled(key_handled(m, BackendKey::Char(c), number).0, BackendKey::Char('j'), number).0
            == moved_down(no_pending(m), (c as u32 - '0' as u32) as nat),
{
    lemma_digit_key(m, c, number);
    let m1 = StateModel { pending_count: Some((c as u32 - '0' as u32) as u32), ..m };
    lemma_down_key(m1, number);
    assert(no_pending(m1) == no_pending(m));
}

/// A first `Z` only remembers itself.
proof fn lemma_first_z(m: StateModel, number: Option<Seq<char>>)
    requires
        m.mode == EditorMode::Normal,
        m.add_stage != AddModeStage::AwaitingKey,
        !m.show_help,
        m.pending_command is None,
    ensures
        key_handled(m, BackendKey::Char('Z'), number) == (StateModel { pending_command: Some('Z'), ..m }, ActionModel::Continue),
{
    assert(key_event(BackendKey::Char('Z'), EditorMode::Normal) == InputEvent::SaveAndQuit);
}

/// A second `Z` quits, writing first when there are unsaved changes.
proof fn lemma_second_z(m: StateModel, number: Option<Seq<char>>)
    requires
        m.mode == EditorMode::Normal,
        m.add_stage != AddModeStage::AwaitingKey,
        !m.show_help,
        m.pending_command == Some('Z'),
    ensures
        key_handled(m, BackendKey::Char('Z'), number).1 == if !m.dirty {
            ActionModel::Quit
        } else {
            write_named(no_pending(m), true, "No file name (use :wq <filename>)"@).1
        },
{
    assert(key_event(BackendKey::Char('Z'), EditorMode::Normal) == InputEvent::SaveAndQuit);
}

/// `ZZ` quits without writing when there are no unsaved changes; with
/// changes it asks to write the document's file and quit, and without a
/// file name it stays.
pub proof fn law_zz_saves_only_when_modified(m: StateModel, number: Option<Seq<char>>)
    requires
        m.mode == EditorMode::Normal,
        m.add_stage != AddModeStage::AwaitingKey,
        !m.show_help,
        m.pending_command is None,
    ensures
        ({
            let r = key_handled(key_handled(m, BackendKey::Char('Z'), number).0, BackendKey::Char('Z'), number).1;
            &&& !m.dirty ==> r == ActionModel::Quit
            &&& (m.dirty && m.filename is Some) ==> r == ActionModel::Write(m.filename->0, true)
            &&& (m.dirty && m.filename is None) ==> r == ActionModel::Continue
        }),
{
    lemma_first_z(m, number);
    let m1 = StateModel { pending_command: Some('Z'), ..m };
    lemma_second_z(m1, number);
}

/// Once a repeated deletion has failed, repeating it more often changes
/// nothing.
proof fn lemma_deleted_stays(m: StateModel, k: nat, n: nat)
    requires
        k <= n,
        deleted(m, k).1 is Err,
    ensures
        deleted(m, n) == deleted(m, k),
    decreases n - k,
{
    if n > k {
        lemma_deleted_stays(m, k, (n - 1) as nat);
    }
}

/// `prefix` followed by `rest`.
fn joined(prefix: &str, rest: &str) -> (res: String)
    ensures
        res@ == prefix@ + rest@,
{
    let mut s = string_of(prefix);
    push_str(&mut s, rest);
    s
}

/// The character `k` types into a buffer (see `typed_char`).
fn typed_char_of(k: BackendKey) -> (res: Option<char>)
    ensures
        res == typed_char(k),
{
    match k {
        BackendKey::Char(c) => if c == '\n' || c == '\t' {
            None
        } else {
            Some(c)
        },
        BackendKey::Ctrl(c) => Some(c),
        _ => None,
    }
}

/// Whether `c` is the pending command key.
fn is_pending(p: Option<char>, c: char) -> (res: bool)
    ensures
        res == (p == Some(c)),
{
    match p {
        Some(x) => x == c,
        None => false,
    }
}

/// Turns key events into changes of the editor state.
pub struct InputHandler;

impl InputHandler {
    /// A handler.
    pub fn new() -> (res: Self) {
        InputHandler
    }

    /// Handles one event (see `handled`) and says what the caller has to
    /// do next. `number` is the decimal text of the number the trimmed edit
    /// buffer reads as, if it reads as one; it is used when Enter commits a
    /// value.
    pub fn handle_event(&self, event: &BackendEvent, state: &mut EditorState, number: Option<String>) -> (res: HandlerAction)
        requires
            old(state).wf(),
        ensures
            final(state).wf(),
            (final(state).model(), res@) == handled(old(state).model(), *event, opt_string_view(number)),
    {
        match event {
            BackendEvent::Key(k) => self.handle_key(*k, state, number),
            _ => HandlerAction::Continue,
        }
    }

    /// Handles a key (see `key_handled`).
    fn handle_key(&self, k: BackendKey, state: &mut EditorState, number: Option<String>) -> (res: HandlerAction)
        requires
            old(state).wf(),
        ensures
            final(state).wf(),
            (final(state).model(), res@) == key_handled(old(state).model(), k, opt_string_view(number)),
    {
        let mode = *state.mode();
        if mode == EditorMode::Insert {
            self.handle_insert_key(k, state, number);
            HandlerAction::Continue
        } else if mode == EditorMode::Command {
            self.handle_command_key(k, state)
        } else if mode == EditorMode::Search {
            self.handle_search_key(k, state);
            HandlerAction::Continue
        } else if *state.add_mode_stage() == AddModeStage::AwaitingKey {
            self.handle_add_key(k, state);
            HandlerAction::Continue
        } else if k == BackendKey::Char('?') {
            state.toggle_help();
            HandlerAction::Continue
        } else if state.show_help() {
            self.handle_help_key(k, state);
            HandlerAction::Continue
        } else {
            let e = map_key_event(&k, &EditorMode::Normal);
            self.handle_normal(e, state)
        }
    }

    /// Handles a key in Insert mode (see `insert_key`).
    fn handle_insert_key(&self, k: BackendKey, state: &mut EditorState, number: Option<String>)
        requires
            old(state).wf(),
        ensures
            final(state).wf(),
            final(state).model() == insert_key(old(state).model(), k, opt_string_view(number)),
    {
        match k {
            BackendKey::Esc => {
                if *state.add_mode_stage() != AddModeStage::Idle {
                    state.cancel_add_operation();
                    state.cancel_editing();
                    state.set_mode(EditorMode::Normal);
                    state.set_message(string_of("Add cancelled"), MessageLevel::Info);
                } else {
                    state.cancel_editing();
                    state.set_mode(EditorMode::Normal);
                    state.set_message(string_of("Edit cancelled"), MessageLevel::Info);
                }
            },
            BackendKey::Char(c) => {
                if c == '\n' {
                    self.commit_typed(state, number);
                } else if c != '\t' {
                    state.push_to_edit_buffer(c);
                }
            },
            BackendKey::Ctrl(c) => {
                if c == 'u' {
                    state.edit_kill_to_start();
                } else {
                    state.push_to_edit_buffer(c);
                }
            },
            BackendKey::Backspace => state.pop_from_edit_buffer(),
            BackendKey::Delete => state.edit_delete_at_cursor(),
            BackendKey::Left => state.edit_cursor_left(),
            BackendKey::Right => state.edit_cursor_right(),
            BackendKey::Home => state.edit_cursor_home(),
            BackendKey::End => state.edit_cursor_end(),
            _ => {},
        }
    }

    /// Enter in Insert mode (see `insert_enter`).
    fn commit_typed(&self, state: &mut EditorState, number: Option<String>)
        requires
            old(state).wf(),
        ensures
            final(state).wf(),
            final(state).model() == insert_enter(old(state).model(), opt_string_view(number)),
    {
        if *state.add_mode_stage() == AddModeStage::AwaitingValue {
            match state.commit_add_operation(number) {
                Ok(()) => state.set_mode(EditorMode::Normal),
                Err(e) => {
                    let text = joined("Add failed: ", e.message().as_str());
                    state.set_message(text, MessageLevel::Error);
                },
            }
        } else {
            match state.commit_editing(number) {
                Ok(()) => {
                    state.set_mode(EditorMode::Normal);
                    state.set_message(string_of("Value updated"), MessageLevel::Info);
                },
                Err(e) => {
                    let text = joined("Invalid value: ", e.message().as_str());
                    state.set_message(text, MessageLevel::Error);
                },
            }
        }
    }

    /// Handles a key while a new member's key is typed (see `add_key_typed`).
    fn handle_add_key(&self, k: BackendKey, state: &mut EditorState)
        requires
            old(state).wf(),
        ensures
            final(state).wf(),
            final(state).model() == add_key_typed(old(state).model(), k),
    {
        match k {
            BackendKey::Esc => {
                state.cancel_add_operation();
                state.set_message(string_of("Add cancelled"), MessageLevel::Info);
            },
            BackendKey::Char('\n') => state.transition_add_to_value(),
            BackendKey::Backspace => state.pop_from_add_key_buffer(),
            _ => match typed_char_of(k) {
                Some(c) => state.push_to_add_key_buffer(c),
                None => {},
            },
        }
    }

    /// Handles a key while the help overlay is shown (see `help_key`).
    fn handle_help_key(&self, k: BackendKey, state: &mut EditorState)
        ensures
            final(state).wf() == old(state).wf(),
            final(state).model() == help_key(old(state).model(), k),
    {
        match k {
            BackendKey::Esc => state.toggle_help(),
            BackendKey::Char('j') => state.scroll_help_down(),
            BackendKey::Down => state.scroll_help_down(),
            BackendKey::Char('k') => state.scroll_help_up(),
            BackendKey::Up => state.scroll_help_up(),
            _ => {},
        }
    }

    /// Handles a key in Search mode (see `search_key`).
    fn handle_search_key(&self, k: BackendKey, state: &mut EditorState)
        requires
            old(state).wf(),
        ensures
            final(state).wf(),
            final(state).model() == search_key(old(state).model(), k),
    {
        match k {
            BackendKey::Char('\n') => {
                state.set_mode(EditorMode::Normal);
                match state.search_results_info() {
                    Some((_current, total)) => {
                        let mut text = string_of("Found ");
                        push_decimal(&mut text, total);
                        push_str(&mut text, " matches");
                        state.set_message(text, MessageLevel::Info);
                    },
                    None => state.set_message(string_of("No matches found"), MessageLevel::Warning),
                }
            },
            BackendKey::Esc => {
                state.clear_search_buffer();
                state.set_mode(EditorMode::Normal);
            },
            BackendKey::Backspace => {
                state.pop_from_search_buffer();
                state.execute_search();
            },
            _ => match typed_char_of(k) {
                Some(c) => {
                    state.push_to_search_buffer(c);
                    state.execute_search();
                },
                None => {},
            },
        }
    }

    /// Handles a key in Command mode (see `command_key`).
    fn handle_command_key(&self, k: BackendKey, state: &mut EditorState) -> (res: HandlerAction)
        requires
            old(state).wf(),
        ensures
            final(state).wf(),
            (final(state).model(), res@) == command_key(old(state).model(), k),
    {
        match k {
            BackendKey::Char('\n') => {
                let command = string_of(state.command_buffer());
                state.clear_command_buffer();
                state.set_mode(EditorMode::Normal);
                self.execute_command(command.as_str(), state)
            },
            BackendKey::Esc => {
                state.clear_command_buffer();
                state.set_mode(EditorMode::Normal);
                HandlerAction::Continue
            },
            BackendKey::Backspace => {
                state.pop_from_command_buffer();
                HandlerAction::Continue
            },
            _ => {
                match typed_char_of(k) {
                    Some(c) => state.push_to_command_buffer(c),
                    None => {},
                }
                HandlerAction::Continue
            },
        }
    }

    /// Asks to write to the document's file, or shows `hint` when it has none.
    fn write_named(&self, state: &mut EditorState, quit_after: bool, hint: &str) -> (res: HandlerAction)
        ensures
            final(state).wf() == old(state).wf(),
            (final(state).model(), res@) == write_named(old(state).model(), quit_after, hint@),
    {
        match state.filename() {
            Some(f) => HandlerAction::Write { filename: string_of(f), quit_after },
            None => {
                state.set_message(string_of(hint), MessageLevel::Error);
                HandlerAction::Continue
            },
        }
    }

    /// One step back in the history (see `undone`).
    fn undo_step(&self, state: &mut EditorState)
        requires
            old(state).wf(),
        ensures
            final(state).wf(),
            final(state).model() == undone(old(state).model()),
    {
        if !state.undo() {
            state.set_message(string_of("Already at oldest change"), MessageLevel::Warning);
        }
    }

    /// One step forward in the history (see `redone`).
    fn redo_step(&self, state: &mut EditorState)
        requires
            old(state).wf(),
        ensures
            final(state).wf(),
            final(state).model() == redone(old(state).model()),
    {
        if !state.redo() {
            state.set_message(string_of("Already at newest change"), MessageLevel::Warning);
        }
    }

    /// Switches to the built-in theme `name` (see `theme_command`).
    fn switch_theme(&self, name: String, state: &mut EditorState)
        ensures
            final(state).wf() == old(state).wf(),
            final(state).model() == theme_command(old(state).model(), name@),
    {
        match get_builtin_theme(name.as_str()) {
            Some(_) => {
                let text = joined("Switched to theme: ", name.as_str());
                state.request_theme_change(name);
                state.set_message(text, MessageLevel::Info);
            },
            None => {
                let mut text = joined("Unknown theme: ", name.as_str());
                push_str(&mut text, " (use :theme to list)");
                state.set_message(text, MessageLevel::Error);
            },
        }
    }

    /// `:set <setting>` (see `set_command`).
    fn change_setting(&self, setting: &str, state: &mut EditorState)
        ensures
            final(state).wf() == old(state).wf(),
            final(state).model() == set_command(old(state).model(), setting@),
    {
        let n = setting.unicode_len();
        let given = string_of(setting);
        if n > 0 && setting.get_char(n - 1) == '?' {
            let name = substring_chars(setting, 0, n - 1);
            assert(name@ =~= setting@.drop_last());
            if name == string_of("number") {
                let mut text = string_of("number is ");
                if state.show_line_numbers() {
                    push_str(&mut text, "on");
                } else {
                    push_str(&mut text, "off");
                }
                state.set_message(text, MessageLevel::Info);
            } else {
                state.set_message(joined("Unknown setting: ", name.as_str()), MessageLevel::Error);
            }
        } else if given == string_of("number") || given == string_of("nu") {
            state.set_show_line_numbers(true);
            state.set_message(string_of("Line numbers enabled"), MessageLevel::Info);
        } else if given == string_of("nonumber") || given == string_of("nonu") {
            state.set_show_line_numbers(false);
            state.set_message(string_of("Line numbers disabled"), MessageLevel::Info);
        } else {
            state.set_message(joined("Unknown setting: ", setting), MessageLevel::Error);
        }
    }

    /// Runs a `:` command (see `run_command`).
    fn execute_command(&self, command: &str, state: &mut EditorState) -> (res: HandlerAction)
        requires
            old(state).wf(),
        ensures
            final(state).wf(),
            (final(state).model(), res@) == run_command(old(state).model(), command@),
    {
        proof {
            reveal_strlit("theme ");
            reveal_strlit("set ");
            reveal_strlit("w ");
        }
        let c = trim_str(command);
        let n = c.as_str().unicode_len();
        if c == string_of("theme") {
            let themes = crate::theme::list_builtin_themes();
            let mut text = string_of("Available themes: ");
            push_str(&mut text, themes[0].as_str());
            push_str(&mut text, ", ");
            push_str(&mut text, themes[1].as_str());
            state.set_message(text, MessageLevel::Info);
            return HandlerAction::Continue;
        }
        if str_starts_with(c.as_str(), "theme ") {
            let rest = substring_chars(c.as_str(), 6, n);
            self.switch_theme(trim_str(rest.as_str()), state);
            return HandlerAction::Continue;
        }
        if c == string_of("set") {
            let mut text = string_of("Settings: ");
            if state.show_line_numbers() {
                push_str(&mut text, "number");
            } else {
                push_str(&mut text, "nonumber");
            }
            state.set_message(text, MessageLevel::Info);
            return HandlerAction::Continue;
        }
        if c == string_of("set save") {
            return HandlerAction::SaveConfig;
        }
        if str_starts_with(c.as_str(), "set ") {
            let rest = substring_chars(c.as_str(), 4, n);
            let setting = trim_str(rest.as_str());
            self.change_setting(setting.as_str(), state);
            return HandlerAction::Continue;
        }
        if c == string_of("q") {
            if state.is_dirty() {
                state.set_message(string_of("No write since last change (use :q! to force)"), MessageLevel::Error);
                return HandlerAction::Continue;
            }
            return HandlerAction::Quit;
        }
        if c == string_of("q!") {
            return HandlerAction::Quit;
        }
        if c == string_of("w") {
            return self.write_named(state, false, "No file name (use :w <filename>)");
        }
        if str_starts_with(c.as_str(), "w ") {
            let rest = substring_chars(c.as_str(), 2, n);
            return HandlerAction::Write { filename: trim_str(rest.as_str()), quit_after: false };
        }
        if c == string_of("wq") || c == string_of("x") {
            return self.write_named(state, true, "No file name (use :wq <filename>)");
        }
        if c == string_of("undo") {
            self.undo_step(state);
            return HandlerAction::Continue;
        }
        if c == string_of("redo") {
            self.redo_step(state);
            return HandlerAction::Continue;
        }
        if n == 0 {
            return HandlerAction::Continue;
        }
        state.set_message(joined("Unknown command: ", c.as_str()), MessageLevel::Error);
        HandlerAction::Continue
    }

    /// Moves the cursor down `n` times.
    fn repeat_down(&self, state: &mut EditorState, n: u32)
        ensures
            final(state).wf() == old(state).wf(),
            final(state).model() == moved_down(old(state).model(), n as nat),
    {
        let ghost m0 = state.model();
        let ghost w0 = state.wf();
        let mut i: u32 = 0;
        while i < n
            invariant
                i <= n,
                state.model() == moved_down(m0, i as nat),
                state.wf() == w0,
            decreases n - i,
        {
            state.move_cursor_down();
            i = i + 1;
        }
    }

    /// Moves the cursor up `n` times.
    fn repeat_up(&self, state: &mut EditorState, n: u32)
        ensures
            final(state).wf() == old(state).wf(),
            final(state).model() == moved_up(old(state).model(), n as nat),
    {
        let ghost m0 = state.model();
        let ghost w0 = state.wf();
        let mut i: u32 = 0;
        while i < n
            invariant
                i <= n,
                state.model() == moved_up(m0, i as nat),
                state.wf() == w0,
            decreases n - i,
        {
            state.move_cursor_up();
            i = i + 1;
        }
    }

    /// Deletes the node under the cursor `n` times, stopping at the first
    /// failure (see `deleted`).
    fn repeat_delete(&self, state: &mut EditorState, n: u32) -> (res: Result<(), crate::editor::state::EditError>)
        requires
            old(state).wf(),
        ensures
            final(state).wf(),
            (final(state).model(), outcome(res)) == deleted(old(state).model(), n as nat),
    {
        let ghost m0 = state.model();
        let mut i: u32 = 0;
        while i < n
            invariant
                i <= n,
                m0 == old(state).model(),
                state.wf(),
                deleted(m0, i as nat).0 == state.model(),
                deleted(m0, i as nat).1 is Ok,
            decreases n - i,
        {
            match state.delete_node_at_cursor() {
                Ok(()) => {},
                Err(e) => {
                    proof {
                        let k = (i + 1) as nat;
                        assert((k - 1) as nat == i as nat);
                        assert(deleted(m0, k) == delete_result(deleted(m0, i as nat).0));
                        lemma_deleted_stays(m0, k, n as nat);
                        assert(deleted(m0, n as nat) == (state.model(), outcome(Err(e))));
                    }
                    return Err(e);
                },
            }
            i = i + 1;
        }
        Ok(())
    }

    /// Reports the outcome of a paste (see `pasted`).
    fn report_paste(&self, state: &mut EditorState, r: Result<(), crate::editor::state::EditError>)
        ensures
            final(state).wf() == old(state).wf(),
            final(state).model() == match outcome(r) {
                Ok(()) => with_message(old(state).model(), "Node pasted"@, MessageLevel::Info),
                Err(e) => with_message(old(state).model(), "Paste failed: "@ + edit_error_text(e), MessageLevel::Error),
            },
    {
        match r {
            Ok(()) => state.set_message(string_of("Node pasted"), MessageLevel::Info),
            Err(e) => state.set_message(joined("Paste failed: ", e.message().as_str()), MessageLevel::Error),
        }
    }

    /// `i`: start editing the value at the cursor.
    fn start_edit_typed(&self, state: &mut EditorState, pending: Option<char>, pending_count: Option<u32>, count: u32) -> (res: HandlerAction)
        requires
            old(state).wf(),
            pending == old(state).model().pending_command,
            pending_count == old(state).model().pending_count,
            count == count_of(old(state).model()),
        ensures
            final(state).wf(),
            (final(state).model(), res@) == normal_event(old(state).model(), InputEvent::EnterInsertMode),
    {
        state.clear_pending();
        state.start_editing();
        if state.edit_buffer().is_some() {
            state.set_mode(EditorMode::Insert);
            state.set_message(string_of("-- INSERT --"), MessageLevel::Info);
        } else {
            state.set_message(string_of("Cannot edit this node type"), MessageLevel::Error);
        }
        HandlerAction::Continue
    }

    /// `n`: the next search match.
    fn next_match(&self, state: &mut EditorState, pending: Option<char>, pending_count: Option<u32>, count: u32) -> (res: HandlerAction)
        requires
            old(state).wf(),
            pending == old(state).model().pending_command,
            pending_count == old(state).model().pending_count,
            count == count_of(old(state).model()),
        ensures
            final(state).wf(),
            (final(state).model(), res@) == normal_event(old(state).model(), InputEvent::NextSearchResult),
    {
        state.clear_pending();
        if state.next_search_result() {
            match state.search_results_info() {
                Some((current, total)) => {
                    let mut text = string_of("Match ");
                    push_decimal(&mut text, current);
                    push_str(&mut text, "/");
                    push_decimal(&mut text, total);
                    state.set_message(text, MessageLevel::Info);
                },
                None => {},
            }
        } else {
            state.set_message(string_of("No search results (use / to search)"), MessageLevel::Warning);
        }
        HandlerAction::Continue
    }

    /// `y`: on the second press, yank as many nodes as the count says.
    fn yank_key(&self, state: &mut EditorState, pending: Option<char>, pending_count: Option<u32>, count: u32) -> (res: HandlerAction)
        requires
            old(state).wf(),
            pending == old(state).model().pending_command,
            pending_count == old(state).model().pending_count,
            count == count_of(old(state).model()),
        ensures
            final(state).wf(),
            (final(state).model(), res@) == normal_event(old(state).model(), InputEvent::Yank),
    {
        if is_pending(pending, 'y') {
            state.clear_pending();
            if state.yank_nodes(count) {
                let n = state.clipboard().len();
                proof {
                    reveal_strlit("Node yanked");
                    reveal_strlit(" nodes yanked");
                }
                if n == 1 {
                    state.set_message(string_of("Node yanked"), MessageLevel::Info);
                } else {
                    let mut text = String::new();
                    push_decimal(&mut text, n);
                    push_str(&mut text, " nodes yanked");
                    state.set_message(text, MessageLevel::Info);
                }
            } else {
                state.set_message(string_of("Nothing to yank"), MessageLevel::Error);
            }
        } else {
            state.set_pending_command('y');
        }
        HandlerAction::Continue
    }

    /// `d`: delete on the second press, as often as the count says.
    fn delete_key(&self, state: &mut EditorState, pending: Option<char>, pending_count: Option<u32>, count: u32) -> (res: HandlerAction)
        requires
            old(state).wf(),
            pending == old(state).model().pending_command,
            pending_count == old(state).model().pending_count,
            count == count_of(old(state).model()),
        ensures
            final(state).wf(),
            (final(state).model(), res@) == normal_event(old(state).model(), InputEvent::Delete),
    {
        if is_pending(pending, 'd') {
            state.clear_pending();
            match self.repeat_delete(state, count) {
                Ok(()) => state.set_message(string_of("Node deleted"), MessageLevel::Info),
                Err(err) => state.set_message(joined("Delete failed: ", err.message().as_str()), MessageLevel::Error),
            }
        } else {
            state.set_pending_command('d');
        }
        HandlerAction::Continue
    }

    /// `p`: paste after the cursor.
    fn paste_after(&self, state: &mut EditorState, pending: Option<char>, pending_count: Option<u32>, count: u32) -> (res: HandlerAction)
        requires
            old(state).wf(),
            pending == old(state).model().pending_command,
            pending_count == old(state).model().pending_count,
            count == count_of(old(state).model()),
        ensures
            final(state).wf(),
            (final(state).model(), res@) == normal_event(old(state).model(), InputEvent::Paste),
    {
        state.clear_pending();
        if state.paste_fits(true) {
            let r = state.paste_node_at_cursor();
            self.report_paste(state, r);
        }
        HandlerAction::Continue
    }

    /// `Z`: save and quit on the second press.
    fn save_and_quit(&self, state: &mut EditorState, pending: Option<char>, pending_count: Option<u32>, count: u32) -> (res: HandlerAction)
        requires
            old(state).wf(),
            pending == old(state).model().pending_command,
            pending_count == old(state).model().pending_count,
            count == count_of(old(state).model()),
        ensures
            final(state).wf(),
            (final(state).model(), res@) == normal_event(old(state).model(), InputEvent::SaveAndQuit),
    {
        if is_pending(pending, 'Z') {
            state.clear_pending();
            if !state.is_dirty() {
                HandlerAction::Quit
            } else {
                self.write_named(state, true, "No file name (use :wq <filename>)")
            }
        } else {
            state.set_pending_command('Z');
            HandlerAction::Continue
        }
    }

    /// `g`: to a counted line, or to the top on the second press.
    fn jump_top_key(&self, state: &mut EditorState, pending: Option<char>, pending_count: Option<u32>, count: u32) -> (res: HandlerAction)
        requires
            old(state).wf(),
            pending == old(state).model().pending_command,
            pending_count == old(state).model().pending_count,
            count == count_of(old(state).model()),
        ensures
            final(state).wf(),
            (final(state).model(), res@) == normal_event(old(state).model(), InputEvent::JumpToTop),
    {
        match pending_count {
            Some(c) => {
                state.clear_pending();
                state.jump_to_line(c as usize);
            },
            None => {
                if is_pending(pending, 'g') {
                    state.clear_pending();
                    state.jump_to_top();
                } else {
                    state.set_pending_command('g');
                }
            },
        }
        HandlerAction::Continue
    }

    /// Handles a command in Normal mode (see `normal_event`).
    #[verifier::rlimit(60)]
    fn handle_normal(&self, e: InputEvent, state: &mut EditorState) -> (res: HandlerAction)
        requires
            old(state).wf(),
        ensures
            final(state).wf(),
            (final(state).model(), res@) == normal_event(old(state).model(), e),
    {
        let pending = state.pending_command();
        let pending_count = state.pending_count();
        let count = state.get_count();
        match e {
            InputEvent::Quit => {
                state.clear_pending();
                if state.is_dirty() {
                    state.set_message(string_of("No write since last change (use :q! to force)"), MessageLevel::Error);
                    HandlerAction::Continue
                } else {
                    HandlerAction::Quit
                }
            },
            InputEvent::CountDigit(d) => {
                if d == 0 && pending_count.is_none() {
                    state.clear_pending();
                } else {
                    state.push_count_digit(d);
                }
                HandlerAction::Continue
            },
            InputEvent::MoveDown => {
                state.clear_pending();
                self.repeat_down(state, count);
                HandlerAction::Continue
            },
            InputEvent::MoveUp => {
                state.clear_pending();
                self.repeat_up(state, count);
                HandlerAction::Continue
            },
            InputEvent::MoveLeft => {
                state.clear_pending();
                state.toggle_expand_at_cursor();
                HandlerAction::Continue
            },
            InputEvent::MoveRight => {
                state.clear_pending();
                state.toggle_expand_at_cursor();
                HandlerAction::Continue
            },
            InputEvent::EnterInsertMode => self.start_edit_typed(state, pending, pending_count, count),
            InputEvent::EnterCommandMode => {
                state.clear_pending();
                state.clear_command_buffer();
                state.set_mode(EditorMode::Command);
                HandlerAction::Continue
            },
            InputEvent::EnterSearchMode => {
                state.clear_pending();
                state.clear_search_buffer();
                state.set_mode(EditorMode::Search);
                HandlerAction::Continue
            },
            InputEvent::NextSearchResult => self.next_match(state, pending, pending_count, count),
            InputEvent::ExitMode => {
                state.clear_pending();
                state.set_mode(EditorMode::Normal);
                HandlerAction::Continue
            },
            InputEvent::Yank => self.yank_key(state, pending, pending_count, count),
            InputEvent::Delete => self.delete_key(state, pending, pending_count, count),
            InputEvent::Paste => self.paste_after(state, pending, pending_count, count),
            InputEvent::PasteBefore => {
                state.clear_pending();
                if state.paste_fits(false) {
                    let r = state.paste_node_before_cursor();
                    self.report_paste(state, r);
                }
                HandlerAction::Continue
            },
            InputEvent::SaveAndQuit => self.save_and_quit(state, pending, pending_count, count),
            InputEvent::JumpToTop => self.jump_top_key(state, pending, pending_count, count),
            InputEvent::JumpToBottom => {
                state.clear_pending();
                match pending_count {
                    Some(c) => state.jump_to_line(c as usize),
                    None => state.jump_to_bottom(),
                }
                HandlerAction::Continue
            },
            InputEvent::PageDown => {
                state.clear_pending();
                state.page_down();
                HandlerAction::Continue
            },
            InputEvent::PageUp => {
                state.clear_pending();
                state.page_up();
                HandlerAction::Continue
            },
            InputEvent::AddNode => {
                state.clear_pending();
                if state.cursor_index_ok() {
                    state.start_add_operation();
                }
                HandlerAction::Continue
            },
            InputEvent::Undo => {
                state.clear_pending();
                self.undo_step(state);
                HandlerAction::Continue
            },
            InputEvent::Redo => {
                state.clear_pending();
                self.redo_step(state);
                HandlerAction::Continue
            },
            _ => {
                state.clear_pending();
                HandlerAction::Continue
            },
        }
    }

    /// Reports the outcome of a write the caller performed for a `Write`
    /// action (see `write_finished`); says whether to quit now.
    pub fn finish_write(&self, state: &mut EditorState, filename: String, result: Result<(), String>, quit_after: bool) -> (res: HandlerAction)
        ensures
            final(state).wf() == old(state).wf(),
            (final(state).model(), res@) == write_finished(old(state).model(), filename@, result, quit_after),
    {
        match result {
            Ok(()) => {
                let mut text = String::new();
                text.push('"');
                push_str(&mut text, filename.as_str());
                push_str(&mut text, "\" written");
                state.clear_dirty();
                state.set_filename(filename);
                if quit_after {
                    HandlerAction::Quit
                } else {
                    state.set_message(text, MessageLevel::Info);
                    HandlerAction::Continue
                }
            },
            Err(e) => {
                state.set_message(joined("Error saving file: ", e.as_str()), MessageLevel::Error);
                HandlerAction::Continue
            },
        }
    }

    /// Reports the outcome of saving the settings for a `SaveConfig`
    /// action (see `config_saved`): the path written to, if known, or the
    /// error.
    pub fn finish_save_config(&self, state: &mut EditorState, result: Result<Option<String>, String>)
        ensures
            final(state).wf() == old(state).wf(),
            final(state).model() == config_saved(old(state).model(), result),
    {
        match result {
            Ok(Some(path)) => state.set_message(joined("Settings saved to ", path.as_str()), MessageLevel::Info),
            Ok(None) => state.set_message(string_of("Settings saved"), MessageLevel::Info),
            Err(e) => state.set_message(joined("Error saving config: ", e.as_str()), MessageLevel::Error),
        }
    }
}

impl Default for InputHandler {
    fn default() -> (res: Self) {
        InputHandler
    }
}

/// In Normal mode the arrow keys are the moves in their direction, and
/// each does exactly what its letter does: Down as `j`, Up as `k`, Left as
/// `h` and Right as `l`.
pub proof fn law_arrow_keys_move(m: StateModel, number: Option<Seq<char>>)
    requires
        m.mode == EditorMode::Normal,
        m.add_stage != AddModeStage::AwaitingKey,
        !m.show_help,
    ensures
        key_event(BackendKey::Down, EditorMode::Normal) == InputEvent::MoveDown,
        key_event(BackendKey::Up, EditorMode::Normal) == InputEvent::MoveUp,
        key_event(BackendKey::Left, EditorMode::Normal) == InputEvent::MoveLeft,
        key_event(BackendKey::Right, EditorMode::Normal) == InputEvent::MoveRight,
        key_handled(m, BackendKey::Down, number) == key_handled(m, BackendKey::Char('j'), number),
        key_handled(m, BackendKey::Up, number) == key_handled(m, BackendKey::Char('k'), number),
        key_handled(m, BackendKey::Left, number) == key_handled(m, BackendKey::Char('h'), number),
        key_handled(m, BackendKey::Right, number) == key_handled(m, BackendKey::Char('l'), number),
{
}

/// A count of moves down takes the cursor that many lines down, stopping
/// at the last line; a count of moves up that many lines up, stopping at
/// the first; nothing else changes.
pub proof fn law_count_moves(m: StateModel, n: nat)
    requires
        crate::editor::state::distinct_paths(m.lines),
        crate::editor::state::line_index(m.lines, m.cursor) is Some,
    ensures
        ({
            let i = crate::editor::state::line_index(m.lines, m.cursor)->0 as int;
            let down: int = if i + n < m.lines.len() { i + n } else { m.lines.len() - 1 };
            let up: int = if i >= n { i - n } else { 0 };
            &&& moved_down(m, n) == (StateModel { cursor: m.lines[down].path, ..m })
            &&& moved_up(m, n) == (StateModel { cursor: m.lines[up].path, ..m })
        }),
    decreases n,
{
    let i = crate::editor::state::line_index(m.lines, m.cursor)->0 as int;
    crate::editor::state::lemma_line_index_bounds(m.lines, m.cursor, 0);
    if n == 0 {
        assert((StateModel { cursor: m.lines[i].path, ..m }) == m);
    } else {
        law_count_moves(m, (n - 1) as nat);
        let d1: int = if i + n - 1 < m.lines.len() { i + n - 1 } else { m.lines.len() - 1 };
        let m1 = StateModel { cursor: m.lines[d1].path, ..m };
        crate::editor::state::lemma_line_index_of(m.lines, d1, 0);
        crate::editor::state::law_down_then_up(m1);
        let u1: int = if i >= n - 1 { i - (n - 1) } else { 0 };
        let m2 = StateModel { cursor: m.lines[u1].path, ..m };
        crate::editor::state::lemma_line_index_of(m.lines, u1, 0);
        crate::editor::state::law_down_then_up(m2);
    }
}

} // verus!
