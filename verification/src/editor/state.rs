//! The editor state: the document, the mode, the cursor, the tree view,
//! the edit buffers and the undo history, and the editing operations on
//! them.
use vstd::prelude::*;
use super::cursor::Cursor;
use super::mode::EditorMode;
use super::undo::{EditorSnapshot, SnapshotModel, UndoTree};
use crate::document::node::{JsonNode, JsonValue, NodeModel, ValueModel, opt_string_view};
use crate::document::tree::{JsonTree, TreeError, node_at, apply_at, tree_error_text, deletion, array_insertion, object_insertion};
use crate::text::{trim, trim_str, string_of, insert_char_at, remove_char_at, substring_chars, push_str, decimal, push_decimal_wide, contains_sub, lowercase, to_lowercase, str_contains};
use crate::ui::tree_view::{TreeViewState, LineModel, ValueType, view_lines, container_paths, paths_model, copy_path, paths_equal, lines_model, toggled, ancestors};

verus! {

/// What typed text stands for as a scalar: `true`, `false` and `null`
/// (after trimming white space) are the boolean and null values; text
/// that reads as a number is that number, whose decimal text `number` is;
/// anything else is a string holding the text as typed.
pub open spec fn scalar_from_text(input: Seq<char>, number: Option<Seq<char>>) -> ValueModel {
    let t = trim(input);
    if t == "true"@ {
        ValueModel::Boolean(true)
    } else if t == "false"@ {
        ValueModel::Boolean(false)
    } else if t == "null"@ {
        ValueModel::Null
    } else {
        match number {
            Some(n) => ValueModel::Number(n),
            None => ValueModel::Str(input),
        }
    }
}

/// Turns typed text into a scalar value (see `scalar_from_text`).
/// `number` is the decimal text of the number the trimmed input reads as,
/// if it reads as one.
fn parse_scalar_value(input: &str, number: Option<String>) -> (res: JsonValue)
    ensures
        res@ == scalar_from_text(input@, opt_string_view(number)),
{
    let trimmed = trim_str(input);
    proof {
        reveal_strlit("true");
        reveal_strlit("false");
        reveal_strlit("null");
    }
    if trimmed == string_of("true") {
        return JsonValue::Boolean(true);
    }
    if trimmed == string_of("false") {
        return JsonValue::Boolean(false);
    }
    if trimmed == string_of("null") {
        return JsonValue::Null;
    }
    match number {
        Some(n) => JsonValue::Number(n),
        None => JsonValue::String(string_of(input)),
    }
}

/// Turns typed text into a scalar value (see `scalar_from_text`).
pub fn parse_scalar_value_for_test(input: &str, number: Option<String>) -> (res: JsonValue)
    ensures
        res@ == scalar_from_text(input@, opt_string_view(number)),
{
    parse_scalar_value(input, number)
}

/// A message shown to the user.
#[derive(Debug, Clone)]
pub struct Message {
    pub text: String,
    pub level: MessageLevel,
}

/// Message severity.
#[derive(Debug, Clone, Copy, PartialEq, Eq, Structural)]
pub enum MessageLevel {
    Info,
    Warning,
    Error,
}

/// Stage of adding a new member.
#[derive(Debug, Clone, Copy, PartialEq, Eq, Structural)]
pub enum AddModeStage {
    /// Not adding.
    Idle,
    /// Adding to an object: the key is being typed.
    AwaitingKey,
    /// The value is being typed.
    AwaitingValue,
}

/// Why an editing operation was refused.
#[derive(Debug)]
pub enum EditError {
    NothingToPaste,
    PasteAtRoot,
    ParentNotFound,
    NotAContainer,
    AddTargetNotContainer,
    Tree(TreeError),
    NoEditBuffer,
    NodeNotFound,
    InvalidNumber,
    InvalidBoolean,
    CannotEditContainer,
    NotAwaitingValue,
    NoInsertionPoint,
    EmptyKey,
    NoOriginalKey,
    CannotRenameRoot,
    DuplicateKey(String),
    InvalidObjectIndex,
    NotAnObject,
    NoContainer,
}

/// The model of an editing error.
pub enum EditErrorModel {
    NothingToPaste,
    PasteAtRoot,
    ParentNotFound,
    NotAContainer,
    AddTargetNotContainer,
    Tree(TreeError),
    NoEditBuffer,
    NodeNotFound,
    InvalidNumber,
    InvalidBoolean,
    CannotEditContainer,
    NotAwaitingValue,
    NoInsertionPoint,
    EmptyKey,
    NoOriginalKey,
    CannotRenameRoot,
    DuplicateKey(Seq<char>),
    InvalidObjectIndex,
    NotAnObject,
    NoContainer,
}

impl View for EditError {
    type V = EditErrorModel;

    open spec fn view(&self) -> EditErrorModel {
        match self {
            EditError::NothingToPaste => EditErrorModel::NothingToPaste,
            EditError::PasteAtRoot => EditErrorModel::PasteAtRoot,
            EditError::ParentNotFound => EditErrorModel::ParentNotFound,
            EditError::NotAContainer => EditErrorModel::NotAContainer,
            EditError::AddTargetNotContainer => EditErrorModel::AddTargetNotContainer,
            EditError::Tree(e) => EditErrorModel::Tree(*e),
            EditError::NoEditBuffer => EditErrorModel::NoEditBuffer,
            EditError::NodeNotFound => EditErrorModel::NodeNotFound,
            EditError::InvalidNumber => EditErrorModel::InvalidNumber,
            EditError::InvalidBoolean => EditErrorModel::InvalidBoolean,
            EditError::CannotEditContainer => EditErrorModel::CannotEditContainer,
            EditError::NotAwaitingValue => EditErrorModel::NotAwaitingValue,
            EditError::NoInsertionPoint => EditErrorModel::NoInsertionPoint,
            EditError::EmptyKey => EditErrorModel::EmptyKey,
            EditError::NoOriginalKey => EditErrorModel::NoOriginalKey,
            EditError::CannotRenameRoot => EditErrorModel::CannotRenameRoot,
            EditError::DuplicateKey(k) => EditErrorModel::DuplicateKey(k@),
            EditError::InvalidObjectIndex => EditErrorModel::InvalidObjectIndex,
            EditError::NotAnObject => EditErrorModel::NotAnObject,
            EditError::NoContainer => EditErrorModel::NoContainer,
        }
    }
}

/// The text of an editing error's message.
pub open spec fn edit_error_text(e: EditErrorModel) -> Seq<char> {
    match e {
        EditErrorModel::NothingToPaste => "Nothing to paste"@,
        EditErrorModel::PasteAtRoot => "Cannot paste at root level"@,
        EditErrorModel::ParentNotFound => "Parent node not found"@,
        EditErrorModel::NotAContainer => "Parent is not a container type"@,
        EditErrorModel::AddTargetNotContainer => "Parent is not a container"@,
        EditErrorModel::Tree(t) => tree_error_text(t),
        EditErrorModel::NoEditBuffer => "No active edit buffer"@,
        EditErrorModel::NodeNotFound => "Node not found at cursor"@,
        EditErrorModel::InvalidNumber => "Invalid number format"@,
        EditErrorModel::InvalidBoolean => "Boolean value must be true or false"@,
        EditErrorModel::CannotEditContainer => "Cannot edit container types"@,
        EditErrorModel::NotAwaitingValue => "Not in AwaitingValue stage"@,
        EditErrorModel::NoInsertionPoint => "No insertion point set"@,
        EditErrorModel::EmptyKey => "Key cannot be empty"@,
        EditErrorModel::NoOriginalKey => "No original key stored"@,
        EditErrorModel::CannotRenameRoot => "Cannot rename root"@,
        EditErrorModel::DuplicateKey(k) => "Key '"@ + k + "' already exists"@,
        EditErrorModel::InvalidObjectIndex => "Invalid object index"@,
        EditErrorModel::NotAnObject => "Parent is not an object"@,
        EditErrorModel::NoContainer => "No container to add"@,
    }
}

impl EditError {
    /// A human-readable description of the error.
    pub fn message(&self) -> (res: String)
        ensures
            res@ == edit_error_text(self@),
    {
        match self {
            EditError::NothingToPaste => string_of("Nothing to paste"),
            EditError::PasteAtRoot => string_of("Cannot paste at root level"),
            EditError::ParentNotFound => string_of("Parent node not found"),
            EditError::NotAContainer => string_of("Parent is not a container type"),
            EditError::AddTargetNotContainer => string_of("Parent is not a container"),
            EditError::Tree(e) => e.message(),
            EditError::NoEditBuffer => string_of("No active edit buffer"),
            EditError::NodeNotFound => string_of("Node not found at cursor"),
            EditError::InvalidNumber => string_of("Invalid number format"),
            EditError::InvalidBoolean => string_of("Boolean value must be true or false"),
            EditError::CannotEditContainer => string_of("Cannot edit container types"),
            EditError::NotAwaitingValue => string_of("Not in AwaitingValue stage"),
            EditError::NoInsertionPoint => string_of("No insertion point set"),
            EditError::EmptyKey => string_of("Key cannot be empty"),
            EditError::NoOriginalKey => string_of("No original key stored"),
            EditError::CannotRenameRoot => string_of("Cannot rename root"),
            EditError::DuplicateKey(k) => {
                let mut s = string_of("Key '");
                push_str(&mut s, k.as_str());
                push_str(&mut s, "' already exists");
                s
            },
            EditError::InvalidObjectIndex => string_of("Invalid object index"),
            EditError::NotAnObject => string_of("Parent is not an object"),
            EditError::NoContainer => string_of("No container to add"),
        }
    }
}

/// The `n`th key tried when pasting into an object: the key itself, then
/// the key followed by 2, 3, ...
pub open spec fn key_candidate(base: Seq<char>, n: nat) -> Seq<char> {
    if n <= 1 {
        base
    } else {
        base + decimal(n)
    }
}

/// The first candidate number from `n` on whose key is not among `keys`.
pub open spec fn first_free_key(base: Seq<char>, keys: Seq<Seq<char>>, n: nat) -> nat
    decreases keys.len() + 1 - n,
{
    if n > keys.len() || !keys.contains(key_candidate(base, n)) {
        n
    } else {
        first_free_key(base, keys, n + 1)
    }
}

/// The key a pasted node gets in an object whose keys are `keys`: the
/// first of `base`, `base2`, `base3`, ... that is not taken.
pub open spec fn unique_key(base: Seq<char>, keys: Seq<Seq<char>>) -> Seq<char> {
    key_candidate(base, first_free_key(base, keys, 1))
}

/// The keys of object entries.
pub open spec fn keys_of(es: Seq<(Seq<char>, NodeModel)>) -> Seq<Seq<char>> {
    es.map_values(|e: (Seq<char>, NodeModel)| e.0)
}

/// Different candidate numbers give different keys.
proof fn lemma_candidate_injective(base: Seq<char>, a: nat, b: nat)
    requires
        a >= 1,
        b >= 1,
        key_candidate(base, a) == key_candidate(base, b),
    ensures
        a == b,
{
    crate::text::lemma_decimal_len(a);
    crate::text::lemma_decimal_len(b);
    if a >= 2 && b >= 2 {
        assert(key_candidate(base, a).subrange(base.len() as int, key_candidate(base, a).len() as int) =~= decimal(a));
        assert(key_candidate(base, b).subrange(base.len() as int, key_candidate(base, b).len() as int) =~= decimal(b));
        crate::text::lemma_decimal_injective(a, b);
    } else if a >= 2 {
        assert(key_candidate(base, a).len() > base.len());
    } else if b >= 2 {
        assert(key_candidate(base, b).len() > base.len());
    }
}

/// If the first `k` candidate keys are all taken, there are at least `k` keys.
proof fn lemma_candidates_bounded(base: Seq<char>, keys: Seq<Seq<char>>, k: nat)
    requires
        forall|n: nat| 1 <= n <= k ==> keys.contains(#[trigger] key_candidate(base, n)),
    ensures
        k <= keys.len(),
{
    let r = vstd::set_lib::set_int_range(1, (k + 1) as int);
    vstd::set_lib::lemma_int_range(1, (k + 1) as int);
    let f = |n: int| key_candidate(base, n as nat);
    assert(vstd::relations::injective_on(f, r)) by {
        assert forall|x: int, y: int| r.contains(x) && r.contains(y) && #[trigger] f(x) == #[trigger] f(y) implies x == y by {
            lemma_candidate_injective(base, x as nat, y as nat);
        }
    }
    let y = r.map(f);
    vstd::set_lib::lemma_map_size(r, y, f);
    assert(y.subset_of(keys.to_set())) by {
        assert forall|t: Seq<char>| y.contains(t) implies keys.to_set().contains(t) by {
            let x = choose|x: int| r.contains(x) && f(x) == t;
            assert(keys.contains(key_candidate(base, x as nat)));
        }
    }
    keys.lemma_cardinality_of_set();
    vstd::set_lib::lemma_len_subset(y, keys.to_set());
}

/// The model of an undo history after recording `s` (see `add_checkpoint_effect`).
pub open spec fn history_after_checkpoint(h: HistoryModel, s: SnapshotModel) -> HistoryModel {
    if h.snapshots.len() >= usize::MAX {
        h
    } else {
        HistoryModel {
            snapshots: h.snapshots.push(s),
            parents: crate::editor::undo::trimmed(h.parents.push(Some(h.current as usize)), h.snapshots.len() as int, h.limit),
            children: h.children.update(h.current as int, h.children[h.current as int].push(h.snapshots.len() as usize)).push(Seq::empty()),
            current: h.snapshots.len(),
            limit: h.limit,
        }
    }
}

/// The state after a successful edit that leaves the document `doc` and
/// the cursor at `cursor`: the document is dirty, the tree view is rebuilt,
/// and the new state is recorded in the undo history.
pub open spec fn after_edit(m: StateModel, doc: NodeModel, cursor: Seq<usize>) -> StateModel {
    StateModel {
        doc,
        dirty: true,
        lines: view_lines(doc.value, Seq::empty(), 0, m.expanded),
        cursor,
        history: history_after_checkpoint(m.history, SnapshotModel { tree: doc, cursor }),
        ..m
    }
}

/// Where the cursor goes after a deletion: to the line now at the
/// position of its old line (or the last line), to the first line when it
/// was on no visible line, and to the root when no line is left.
pub open spec fn cursor_after_delete(old_lines: Seq<LineModel>, new_lines: Seq<LineModel>, cursor: Seq<usize>) -> Seq<usize> {
    if new_lines.len() == 0 {
        Seq::empty()
    } else {
        match line_index(old_lines, cursor) {
            Some(i) => if i < new_lines.len() {
                new_lines[i as int].path
            } else {
                new_lines.last().path
            },
            None => new_lines[0].path,
        }
    }
}

/// The key of the object member at `path`, when its parent is an object.
pub open spec fn member_key(doc: NodeModel, path: Seq<usize>) -> Option<Seq<char>> {
    if path.len() == 0 {
        None
    } else {
        match node_at(doc, path.drop_last()) {
            Some(p) => match p.value {
                ValueModel::Object(es) => if (path.last() as int) < es.len() {
                    Some(es[path.last() as int].0)
                } else {
                    None
                },
                _ => None,
            },
            None => None,
        }
    }
}

/// The key a pasted node gets before it is made unique: the key it was
/// yanked with, or `pasted`.
pub open spec fn paste_base(key: Option<Seq<char>>) -> Seq<char> {
    match key {
        Some(k) => k,
        None => "pasted"@,
    }
}

/// What pasting (after the cursor's node when `after`, else before it)
/// does to the state `m`, giving the state `m2` and the answer `res`.
/// The model of an edit's outcome.
pub open spec fn outcome(r: Result<(), EditError>) -> Result<(), EditErrorModel> {
    match r {
        Ok(()) => Ok(()),
        Err(e) => Err(e@),
    }
}

/// The model of the yanked nodes and their keys.
pub open spec fn clip_model(v: Seq<(Option<String>, JsonNode)>) -> Seq<(Option<Seq<char>>, NodeModel)> {
    v.map_values(|e: (Option<String>, JsonNode)| (opt_string_view(e.0), e.1@))
}

/// An outcome of the tree as an outcome of an edit.
pub open spec fn tree_outcome(r: Result<(), TreeError>) -> Result<(), EditErrorModel> {
    match r {
        Ok(()) => Ok(()),
        Err(t) => Err(EditErrorModel::Tree(t)),
    }
}

/// The document and the answer after pasting one yanked node `item` into
/// the container at `pp`, at index `idx`: into an object under its key made
/// unique (see `unique_key`), into an array as it is.
pub open spec fn paste_one(doc: NodeModel, pp: Seq<usize>, idx: usize, item: (Option<Seq<char>>, NodeModel)) -> (NodeModel, Result<(), EditErrorModel>) {
    let path = pp.push(idx);
    match node_at(doc, pp) {
        None => (doc, Err(EditErrorModel::ParentNotFound)),
        Some(p) => match p.value {
            ValueModel::Object(es) => {
                let (d, r) = object_insertion(doc, path, unique_key(paste_base(item.0), keys_of(es)), item.1);
                (d, tree_outcome(r))
            },
            ValueModel::Array(_) => {
                let (d, r) = array_insertion(doc, path, item.1);
                (d, tree_outcome(r))
            },
            _ => (doc, Err(EditErrorModel::NotAContainer)),
        },
    }
}

/// The document and the answer after pasting `items` into the container
/// at `pp`, the first at index `idx` and each of the others right after the
/// one before; the first refusal stops the paste.
pub open spec fn paste_items(doc: NodeModel, pp: Seq<usize>, idx: nat, items: Seq<(Option<Seq<char>>, NodeModel)>) -> (NodeModel, Result<(), EditErrorModel>)
    decreases items.len(),
{
    if items.len() == 0 {
        (doc, Ok(()))
    } else {
        let (d1, r) = paste_one(doc, pp, idx as usize, items[0]);
        match r {
            Err(e) => (d1, Err(e)),
            Ok(()) => paste_items(d1, pp, idx + 1, items.drop_first()),
        }
    }
}

/// Whether the indices that pasting from `m` uses fit in a `usize` (true of
/// every document held in memory).
pub open spec fn paste_fits(m: StateModel, after: bool) -> bool {
    m.cursor.len() > 0 ==> m.cursor.last() + (if after { 1int } else { 0int }) + m.clipboard.len() <= usize::MAX
}

/// What pasting the clipboard after (or before) the cursor's node leaves,
/// and how it ends: the yanked nodes go in, in order, from the position
/// after (or of) the cursor's node, and the cursor moves to the first.
pub open spec fn paste_result(m: StateModel, after: bool) -> (StateModel, Result<(), EditErrorModel>) {
    if m.clipboard.len() == 0 {
        (m, Err(EditErrorModel::NothingToPaste))
    } else if m.cursor.len() == 0 {
        (m, Err(EditErrorModel::PasteAtRoot))
    } else {
        let pp = m.cursor.drop_last();
        let idx: nat = if after { (m.cursor.last() + 1) as nat } else { m.cursor.last() as nat };
        let (doc, r) = paste_items(m.doc, pp, idx, m.clipboard);
        match r {
            Err(e) => (StateModel { doc, ..m }, Err(e)),
            Ok(()) => (after_edit(m, doc, pp.push(idx as usize)), Ok(())),
        }
    }
}

/// Pasting from `m` leaves `m2` and ends with `res` (see `paste_result`).
pub open spec fn paste_effect(m: StateModel, after: bool, m2: StateModel, res: Result<(), EditError>) -> bool {
    (m2, outcome(res)) == paste_result(m, after)
}

/// The text an edit of a scalar starts from.
pub open spec fn edit_text(v: ValueModel) -> Seq<char> {
    match v {
        ValueModel::Str(s) => s,
        ValueModel::Number(t) => t,
        ValueModel::Boolean(b) => if b {
            "true"@
        } else {
            "false"@
        },
        _ => "null"@,
    }
}

/// The value an edit of a node holding `old` commits, or why it cannot:
/// `null` always gives null; otherwise the value keeps its type: a string
/// takes the text; a number needs text that reads as a number (given by
/// `number`, the decimal text of the number the trimmed text reads as),
/// with no surrounding white space; a boolean needs `true` or `false`.
pub open spec fn committed_value(old: ValueModel, text: Seq<char>, number: Option<Seq<char>>) -> Result<ValueModel, EditErrorModel> {
    if text == "null"@ {
        Ok(ValueModel::Null)
    } else {
        match old {
            ValueModel::Str(_) => Ok(ValueModel::Str(text)),
            ValueModel::Number(_) => match number {
                Some(n) => if trim(text) == text {
                    Ok(ValueModel::Number(n))
                } else {
                    Err(EditErrorModel::InvalidNumber)
                },
                None => Err(EditErrorModel::InvalidNumber),
            },
            ValueModel::Boolean(_) => if text == "true"@ {
                Ok(ValueModel::Boolean(true))
            } else if text == "false"@ {
                Ok(ValueModel::Boolean(false))
            } else {
                Err(EditErrorModel::InvalidBoolean)
            },
            ValueModel::Null => Ok(ValueModel::Null),
            _ => Err(EditErrorModel::CannotEditContainer),
        }
    }
}

/// `n` holding `v`, marked as modified.
pub open spec fn with_value(n: NodeModel, v: ValueModel) -> NodeModel {
    NodeModel { value: v, modified: true, original_text: n.original_text }
}

/// Whether the cursor's last index leaves room for the position after it.
pub open spec fn cursor_index_ok(m: StateModel) -> bool {
    m.cursor.len() > 0 ==> m.cursor.last() < usize::MAX
}

/// `m` showing an error message.
pub open spec fn with_error(m: StateModel, text: Seq<char>) -> StateModel {
    StateModel { message: Some((text, MessageLevel::Error)), ..m }
}

/// `m` waiting for the value of a new member to be typed at `point`: an
/// empty edit buffer in Insert mode.
pub open spec fn awaiting_value(m: StateModel, point: Seq<usize>) -> StateModel {
    StateModel {
        add_stage: AddModeStage::AwaitingValue,
        add_point: Some(point),
        edit: Some(Seq::empty()),
        edit_cursor: 0,
        mode: EditorMode::Insert,
        cursor_visible: true,
        blink_ticks: 0,
        message: Some(("-- INSERT --"@, MessageLevel::Info)),
        ..m
    }
}

/// `m` waiting for the key of a new object member to be typed, for
/// insertion at `point`.
pub open spec fn awaiting_key(m: StateModel, point: Seq<usize>) -> StateModel {
    StateModel { add_stage: AddModeStage::AwaitingKey, add_point: Some(point), ..m }
}

/// What starting to add a member does: inside the array or object under
/// the cursor (at its start); otherwise after the cursor's node in its
/// parent; at the root, inside the root container.
pub open spec fn add_started(m0: StateModel) -> StateModel {
    let m = StateModel { message: None, ..m0 };
    if m.cursor.len() == 0 {
        match m.doc.value {
            ValueModel::Array(_) => awaiting_value(m, seq![0usize]),
            ValueModel::Object(_) => awaiting_key(m, seq![0usize]),
            _ => with_error(m, "Cannot add sibling to root node"@),
        }
    } else {
        let inside = m.cursor.push(0usize);
        match node_at(m.doc, m.cursor) {
            Some(n) if n.value is Array => awaiting_value(m, inside),
            Some(n) if n.value is Object => awaiting_key(m, inside),
            _ => {
                let pp = m.cursor.drop_last();
                let after = pp.push((m.cursor.last() + 1) as usize);
                match node_at(m.doc, pp) {
                    None => with_error(m, "Invalid cursor position"@),
                    Some(p) => match p.value {
                        ValueModel::Array(_) => awaiting_value(m, after),
                        ValueModel::Object(_) => awaiting_key(m, after),
                        _ => with_error(m, "Parent is not a container"@),
                    },
                }
            },
        }
    }
}

/// The state after a member was added at `point` of the document `doc`,
/// with the message `text`: the expanded paths follow the shift, the view
/// is rebuilt, the cursor goes to the new member, and the add operation
/// ends.
pub open spec fn after_add(m: StateModel, doc: NodeModel, point: Seq<usize>, text: Seq<char>) -> StateModel {
    let expanded = m.expanded.map(|p: Seq<usize>| crate::ui::tree_view::shifted(p, point));
    let m1 = StateModel { expanded, message: Some((text, MessageLevel::Info)), ..m };
    StateModel {
        add_stage: AddModeStage::Idle,
        add_key: Seq::empty(),
        add_point: None,
        edit: None,
        edit_cursor: 0,
        ..after_edit(m1, doc, point)
    }
}

/// The path of the container an insertion at `point` goes into.
pub open spec fn parent_of_point(point: Seq<usize>) -> Seq<usize> {
    if point.len() == 0 {
        Seq::empty()
    } else {
        point.drop_last()
    }
}

/// What committing the value typed for a new member leaves, and how it
/// ends (`number` as for `scalar_from_text`).
pub open spec fn add_result(m: StateModel, number: Option<Seq<char>>) -> (StateModel, Result<(), EditErrorModel>) {
    if m.add_stage != AddModeStage::AwaitingValue {
        (m, Err(EditErrorModel::NotAwaitingValue))
    } else {
        match m.edit {
            None => (m, Err(EditErrorModel::NoEditBuffer)),
            Some(text) => {
                let c = NodeModel { value: scalar_from_text(text, number), modified: true, original_text: None };
                match m.add_point {
                    None => (m, Err(EditErrorModel::NoInsertionPoint)),
                    Some(point) => match node_at(m.doc, parent_of_point(point)) {
                        None => (m, Err(EditErrorModel::ParentNotFound)),
                        Some(p) => match p.value {
                            ValueModel::Array(_) => {
                                let (doc, r) = array_insertion(m.doc, point, c);
                                match r {
                                    Err(t) => (StateModel { doc, ..m }, Err(EditErrorModel::Tree(t))),
                                    Ok(()) => (after_add(m, doc, point, "Added element"@), Ok(())),
                                }
                            },
                            ValueModel::Object(_) => {
                                let (doc, r) = object_insertion(m.doc, point, m.add_key, c);
                                match r {
                                    Err(t) => (StateModel { doc, ..m }, Err(EditErrorModel::Tree(t))),
                                    Ok(()) => (after_add(m, doc, point, "Added field '"@ + m.add_key + "'"@), Ok(())),
                                }
                            },
                            _ => (m, Err(EditErrorModel::AddTargetNotContainer)),
                        },
                    },
                }
            },
        }
    }
}

/// Committing an add from `m` leaves `m2` and ends with `res` (see `add_result`).
pub open spec fn add_committed(m: StateModel, number: Option<Seq<char>>, m2: StateModel, res: Result<(), EditError>) -> bool {
    (m2, outcome(res)) == add_result(m, number)
}

/// An empty object (or array) node, marked as modified.
pub open spec fn empty_container(is_object: bool) -> NodeModel {
    NodeModel {
        value: if is_object {
            ValueModel::Object(Seq::empty())
        } else {
            ValueModel::Array(Seq::empty())
        },
        modified: true,
        original_text: None,
    }
}

/// Where a new member goes when added next to the cursor's node: an
/// object position needs a key first, an array position does not.
pub enum AddTarget {
    Key(Seq<usize>),
    Value(Seq<usize>),
    Refused(Seq<char>),
}

/// Where a member added after the cursor's node (at the root: at the start
/// of the root container) goes.
pub open spec fn sibling_target(m: StateModel) -> AddTarget {
    if m.cursor.len() == 0 {
        match m.doc.value {
            ValueModel::Object(_) => AddTarget::Key(seq![0usize]),
            ValueModel::Array(_) => AddTarget::Value(seq![0usize]),
            _ => AddTarget::Refused("Cannot add sibling to root node"@),
        }
    } else {
        let pp = m.cursor.drop_last();
        let after = pp.push((m.cursor.last() + 1) as usize);
        match node_at(m.doc, pp) {
            None => AddTarget::Refused("Invalid cursor position"@),
            Some(p) => match p.value {
                ValueModel::Object(_) => AddTarget::Key(after),
                ValueModel::Array(_) => AddTarget::Value(after),
                _ => AddTarget::Refused("Parent is not a container"@),
            },
        }
    }
}

/// The state after inserting the container `c` into an array at `point`
/// of `m`: on success as after any edit, with the expanded paths moved and
/// the message `text`; otherwise the error shown.
pub open spec fn array_container_added(m: StateModel, point: Seq<usize>, c: NodeModel, text: Seq<char>) -> StateModel {
    let (doc, r) = array_insertion(m.doc, point, c);
    match r {
        Ok(()) => after_edit(
            StateModel { expanded: m.expanded.map(|p: Seq<usize>| crate::ui::tree_view::shifted(p, point)), ..m },
            doc,
            point,
        ).with_message(text),
        Err(t) => with_error(StateModel { doc, ..m }, "Add failed: "@ + tree_error_text(t)),
    }
}

/// What starting to add an empty container does to `m0`. In an object
/// (after the cursor's node, or at the start of an object root) the
/// container waits for its key (the clipboard keeps what was yanked); in
/// an array it is inserted at once, after the cursor's node (or at the
/// start of an array root).
pub open spec fn container_add_started(m0: StateModel, is_object: bool) -> StateModel {
    let m = StateModel { message: None, ..m0 };
    let c = empty_container(is_object);
    match sibling_target(m) {
        AddTarget::Key(p) => StateModel { container: Some(c), ..awaiting_key(m, p) },
        AddTarget::Value(p) => array_container_added(
            m,
            p,
            c,
            if is_object { "Added empty object"@ } else { "Added empty array"@ },
        ),
        AddTarget::Refused(t) => with_error(m, t),
    }
}

impl StateModel {
    /// This state showing the information message `text`.
    pub open spec fn with_message(self, text: Seq<char>) -> StateModel {
        StateModel { message: Some((text, MessageLevel::Info)), ..self }
    }
}

/// `m` with the rename operation ended.
pub open spec fn rename_cancelled(m: StateModel) -> StateModel {
    StateModel { renaming: false, rename_key: None, edit: None, edit_cursor: 0, ..m }
}

/// What starting to rename the key of the object member under the cursor
/// does to `m0`.
pub open spec fn rename_started(m0: StateModel) -> StateModel {
    let m = StateModel { message: None, ..m0 };
    if m.cursor.len() == 0 {
        with_error(m, "Cannot rename root node"@)
    } else {
        match node_at(m.doc, m.cursor.drop_last()) {
            None => with_error(m, "Invalid cursor position"@),
            Some(p) => match p.value {
                ValueModel::Object(es) => if (m.cursor.last() as int) < es.len() {
                    let k = es[m.cursor.last() as int].0;
                    StateModel {
                        renaming: true,
                        rename_key: Some(k),
                        edit: Some(k),
                        edit_cursor: k.len(),
                        mode: EditorMode::Insert,
                        cursor_visible: true,
                        blink_ticks: 0,
                        message: Some(("-- RENAME --"@, MessageLevel::Info)),
                        ..m
                    }
                } else {
                    with_error(m, "Invalid object index"@)
                },
                _ => with_error(m, "Can only rename object keys, not array elements"@),
            },
        }
    }
}

/// The object node `x` with the key of its `i`th entry replaced by `k`,
/// marked as modified.
pub open spec fn renamed_entry(x: NodeModel, i: int, k: Seq<char>) -> NodeModel {
    NodeModel {
        value: ValueModel::Object(x.value->Object_0.update(i, (k, x.value->Object_0[i].1))),
        modified: true,
        original_text: x.original_text,
    }
}

/// What committing a rename does to `m`, with the answer `res` and the
/// state `m2`. Looking the parent up for change marks the nodes on the
/// way to it, whatever happens next.
pub open spec fn rename_committed(m: StateModel, m2: StateModel, res: Result<(), EditError>) -> bool {
    match m.edit {
        None => (res matches Err(e) && e@ == EditErrorModel::NoEditBuffer) && m2 == m,
        Some(new_key) => if new_key.len() == 0 {
            (res matches Err(e) && e@ == EditErrorModel::EmptyKey) && m2 == m
        } else {
            match m.rename_key {
                None => (res matches Err(e) && e@ == EditErrorModel::NoOriginalKey) && m2 == m,
                Some(original) => if new_key == original {
                    res is Ok && m2 == rename_cancelled(m)
                } else if m.cursor.len() == 0 {
                    (res matches Err(e) && e@ == EditErrorModel::CannotRenameRoot) && m2 == m
                } else {
                    let pp = m.cursor.drop_last();
                    let i = m.cursor.last() as int;
                    let marked_doc = apply_at(m.doc, pp, |x: NodeModel| crate::document::node::marked(x));
                    match node_at(m.doc, pp) {
                        None => (res matches Err(e) && e@ == EditErrorModel::ParentNotFound)
                            && m2 == StateModel { doc: crate::document::tree::touch(m.doc, pp), ..m },
                        Some(p) => match p.value {
                            ValueModel::Object(es) => if keys_of(es).contains(new_key) {
                                (res matches Err(e) && e@ == EditErrorModel::DuplicateKey(new_key))
                                    && m2 == StateModel { doc: marked_doc, ..m }
                            } else if i < es.len() {
                                res is Ok && m2 == rename_cancelled(
                                    after_edit(
                                        m,
                                        apply_at(m.doc, pp, |x: NodeModel| renamed_entry(x, i, new_key)),
                                        m.cursor,
                                    ).with_message("Renamed '"@ + original + "' to '"@ + new_key + "'"@),
                                )
                            } else {
                                (res matches Err(e) && e@ == EditErrorModel::InvalidObjectIndex)
                                    && m2 == StateModel { doc: marked_doc, ..m }
                            },
                            _ => (res matches Err(e) && e@ == EditErrorModel::NotAnObject)
                                && m2 == StateModel { doc: marked_doc, ..m },
                        },
                    }
                }
            }
        },
    }
}

/// The word naming the kind of an added container.
pub open spec fn container_word(v: ValueModel) -> Seq<char> {
    match v {
        ValueModel::Object(_) => "object"@,
        ValueModel::Array(_) => "array"@,
        _ => "container"@,
    }
}

/// What committing the key of a container waiting for it does to `m`, with
/// the answer `res` and the state `m2`. The waiting container is dropped
/// whatever happens; the clipboard is not touched.
pub open spec fn container_committed(m: StateModel, m2: StateModel, res: Result<(), EditError>) -> bool {
    let m0 = StateModel { container: None, ..m };
    match m.container {
        None => (res matches Err(e) && e@ == EditErrorModel::NoContainer) && m2 == m0,
        Some(c) => if m.add_key.len() == 0 {
            (res matches Err(e) && e@ == EditErrorModel::EmptyKey) && m2 == m0
        } else {
            match m.add_point {
                None => (res matches Err(e) && e@ == EditErrorModel::NoInsertionPoint) && m2 == m0,
                Some(point) => {
                    let (doc, r) = object_insertion(m.doc, point, m.add_key, c);
                    match r {
                        Err(t) => (res matches Err(e) && e@ == EditErrorModel::Tree(t)) && m2 == StateModel { doc, ..m0 },
                        Ok(()) => res is Ok && m2 == StateModel {
                            add_stage: AddModeStage::Idle,
                            add_key: Seq::empty(),
                            add_point: None,
                            ..after_edit(
                                StateModel {
                                    expanded: m0.expanded.map(|p: Seq<usize>| crate::ui::tree_view::shifted(p, point)),
                                    ..m0
                                },
                                doc,
                                point,
                            ).with_message("Added empty "@ + container_word(c.value) + " '"@ + m.add_key + "'"@)
                        },
                    }
                },
            }
        },
    }
}

/// Whether a line matches the lower-cased query `q`: its key, or the
/// preview of its string value, holds `q` once lower-cased.
pub open spec fn line_matches(l: LineModel, q: Seq<char>) -> bool {
    (l.key is Some && contains_sub(lowercase(l.key->0), q)) || (l.value_type == ValueType::String
        && contains_sub(lowercase(l.preview), q))
}

/// The paths of the matching lines among the first `k`, in order.
pub open spec fn search_hits(lines: Seq<LineModel>, q: Seq<char>, k: nat) -> Seq<Seq<usize>>
    decreases k,
{
    if k == 0 || k > lines.len() {
        Seq::empty()
    } else if line_matches(lines[k - 1], q) {
        search_hits(lines, q, (k - 1) as nat).push(lines[k - 1].path)
    } else {
        search_hits(lines, q, (k - 1) as nat)
    }
}

/// The model of the undo history.
pub struct HistoryModel {
    pub snapshots: Seq<SnapshotModel>,
    pub parents: Seq<Option<usize>>,
    pub children: Seq<Seq<usize>>,
    pub current: nat,
    pub limit: nat,
}

/// The model of the whole editor state.
pub struct StateModel {
    pub doc: NodeModel,
    pub mode: EditorMode,
    pub cursor: Seq<usize>,
    pub dirty: bool,
    pub filename: Option<Seq<char>>,
    pub lines: Seq<LineModel>,
    pub expanded: Set<Seq<usize>>,
    pub message: Option<(Seq<char>, MessageLevel)>,
    pub command: Seq<char>,
    pub show_help: bool,
    pub help_scroll: nat,
    pub pending_theme: Option<Seq<char>>,
    pub current_theme: Seq<char>,
    pub clipboard: Seq<(Option<Seq<char>>, NodeModel)>,
    pub container: Option<NodeModel>,
    pub search: Seq<char>,
    pub search_results: Seq<Seq<usize>>,
    pub search_index: nat,
    pub show_line_numbers: bool,
    pub edit: Option<Seq<char>>,
    pub edit_cursor: nat,
    pub cursor_visible: bool,
    pub blink_ticks: nat,
    pub pending_command: Option<char>,
    pub pending_count: Option<u32>,
    pub scroll: nat,
    pub viewport: nat,
    pub history: HistoryModel,
    pub add_stage: AddModeStage,
    pub add_key: Seq<char>,
    pub add_point: Option<Seq<usize>>,
    pub renaming: bool,
    pub rename_key: Option<Seq<char>>,
}

/// Sets a node's value (see `with_value`).
pub open spec fn set_value(v: ValueModel) -> spec_fn(NodeModel) -> NodeModel {
    |x: NodeModel| with_value(x, v)
}

/// What starting an edit leaves: the buffer holds the text of the scalar
/// under the cursor and the edit cursor stands at its end; nothing changes
/// on a container or when the cursor is on no node.
pub open spec fn start_edit_effect(m: StateModel) -> StateModel {
    match node_at(m.doc, m.cursor) {
        Some(n) => if n.value.is_container() {
            m
        } else {
            StateModel { edit: Some(edit_text(n.value)), edit_cursor: edit_text(n.value).len(), ..m }
        },
        None => m,
    }
}

/// What committing the edit buffer leaves, and how it ends.
pub open spec fn commit_result(m: StateModel, number: Option<Seq<char>>) -> (StateModel, Result<(), EditErrorModel>) {
    match m.edit {
        None => (m, Err(EditErrorModel::NoEditBuffer)),
        Some(text) => match node_at(m.doc, m.cursor) {
            None => (m, Err(EditErrorModel::NodeNotFound)),
            Some(n) => match committed_value(n.value, text, number) {
                Err(err) => (m, Err(err)),
                Ok(v) => (StateModel { edit: None, ..after_edit(m, apply_at(m.doc, m.cursor, set_value(v)), m.cursor) }, Ok(())),
            },
        },
    }
}

/// What deleting the node under the cursor leaves, and how it ends.
pub open spec fn delete_result(m: StateModel) -> (StateModel, Result<(), EditErrorModel>) {
    let (doc, r) = deletion(m.doc, m.cursor);
    match r {
        Err(e) => (StateModel { doc, ..m }, Err(EditErrorModel::Tree(e))),
        Ok(()) => (after_edit(m, doc, cursor_after_delete(m.lines, view_lines(doc.value, Seq::empty(), 0, m.expanded), m.cursor)), Ok(())),
    }
}

/// What a yank of `count` nodes copies from `doc` with the cursor at
/// `cursor`: the node there and the siblings after it, `count` nodes in all
/// (one when `count` is zero) or as many as there are, each with its key
/// when their parent is an object. On the root, the root alone.
pub open spec fn yanked(doc: NodeModel, cursor: Seq<usize>, count: nat) -> Seq<(Option<Seq<char>>, NodeModel)> {
    if cursor.len() == 0 {
        seq![(None::<Seq<char>>, doc)]
    } else {
        let pp = cursor.drop_last();
        let i = cursor.last() as int;
        let cs = node_at(doc, pp)->0.value.children();
        let want: int = if count == 0 { 1 } else { count as int };
        let end: int = if i + want < cs.len() { i + want } else { cs.len() as int };
        Seq::new((end - i) as nat, |j: int| (member_key(doc, pp.push((i + j) as usize)), cs[i + j]))
    }
}

/// What yanking `count` nodes from the cursor leaves (see `yanked`), and
/// whether the cursor is on a node.
pub open spec fn yank_result(m: StateModel, count: nat) -> (StateModel, bool) {
    match node_at(m.doc, m.cursor) {
        Some(n) => (StateModel { clipboard: yanked(m.doc, m.cursor, count), ..m }, true),
        None => (m, false),
    }
}

/// `m` scrolled so that the cursor's line is inside a viewport of `h`
/// lines (see `cursor_line`), moving as little as it can; a zero height
/// changes nothing.
pub open spec fn scrolled(m: StateModel, h: nat) -> StateModel {
    let c = cursor_line(m);
    if h == 0 {
        m
    } else if m.lines.len() == 0 {
        StateModel { viewport: h, scroll: 0, ..m }
    } else if c < m.scroll {
        StateModel { viewport: h, scroll: c, ..m }
    } else if c >= m.scroll + h {
        StateModel { viewport: h, scroll: (c - h + 1) as nat, ..m }
    } else {
        StateModel { viewport: h, ..m }
    }
}

/// A fresh editor on the document `doc` (see `EditorState::new`).
pub open spec fn fresh_state(doc: NodeModel) -> StateModel {
    let exp = Set::<Seq<usize>>::empty();
    let lines = view_lines(doc.value, Seq::empty(), 0, exp);
    let cursor = first_line_path(lines);
    StateModel {
        doc,
        mode: EditorMode::Normal,
        cursor,
        dirty: false,
        filename: None,
        lines,
        expanded: exp,
        message: None,
        command: Seq::empty(),
        show_help: false,
        help_scroll: 0,
        pending_theme: None,
        current_theme: default_theme(),
        clipboard: Seq::empty(),
        container: None,
        search: Seq::empty(),
        search_results: Seq::empty(),
        search_index: 0,
        show_line_numbers: true,
        edit: None,
        edit_cursor: 0,
        cursor_visible: true,
        blink_ticks: 0,
        pending_command: None,
        pending_count: None,
        scroll: 0,
        viewport: DEFAULT_VIEWPORT_HEIGHT as nat,
        history: HistoryModel {
            snapshots: seq![SnapshotModel { tree: doc, cursor }],
            parents: seq![None],
            children: seq![Seq::empty()],
            current: 0,
            limit: UNDO_LIMIT as nat,
        },
        add_stage: AddModeStage::Idle,
        add_key: Seq::empty(),
        add_point: None,
        renaming: false,
        rename_key: None,
    }
}

/// What an undo leaves, and whether there was a step to undo.
pub open spec fn undo_result(m: StateModel) -> (StateModel, bool) {
    let h = m.history;
    match h.parents[h.current as int] {
        Some(p) => (StateModel {
            doc: h.snapshots[p as int].tree,
            cursor: h.snapshots[p as int].cursor,
            lines: view_lines(h.snapshots[p as int].tree.value, Seq::empty(), 0, m.expanded),
            history: HistoryModel { current: p as nat, ..h },
            ..m
        }, true),
        None => (m, false),
    }
}

/// What a redo leaves (the newest branch is followed), and whether there
/// was a step to redo.
pub open spec fn redo_result(m: StateModel) -> (StateModel, bool) {
    let h = m.history;
    let cs = h.children[h.current as int];
    if cs.len() > 0 {
        (StateModel {
            doc: h.snapshots[cs.last() as int].tree,
            cursor: h.snapshots[cs.last() as int].cursor,
            lines: view_lines(h.snapshots[cs.last() as int].tree.value, Seq::empty(), 0, m.expanded),
            history: HistoryModel { current: cs.last() as nat, ..h },
            ..m
        }, true)
    } else {
        (m, false)
    }
}

/// Every node of the document as a line, in document order (as the
/// lines show with every container expanded).
pub open spec fn all_lines_of(doc: NodeModel) -> Seq<LineModel> {
    view_lines(doc.value, Seq::empty(), 0, Set::full())
}

/// `m` with the cursor on `p`, every node on the way down to `p`
/// expanded, and the lines rebuilt.
pub open spec fn revealed(m: StateModel, p: Seq<usize>) -> StateModel {
    let e = m.expanded.union(ancestors(p));
    StateModel { cursor: p, expanded: e, lines: view_lines(m.doc.value, Seq::empty(), 0, e), ..m }
}

/// What running the search leaves: the matching nodes of the whole
/// document, collapsed ones included, in document order, with the first
/// of them shown and under the cursor; an empty query changes nothing.
pub open spec fn search_effect(m: StateModel) -> StateModel {
    let all = all_lines_of(m.doc);
    let hits = search_hits(all, lowercase(m.search), all.len());
    let found = StateModel { search_results: hits, search_index: 0, ..m };
    if m.search.len() == 0 {
        m
    } else if hits.len() > 0 {
        revealed(found, hits[0])
    } else {
        found
    }
}

/// What moving to the next search match leaves (wrapping around), and
/// whether there are matches.
pub open spec fn next_match_result(m: StateModel) -> (StateModel, bool) {
    let n = m.search_results.len();
    if n == 0 {
        (m, false)
    } else {
        let i = ((m.search_index + 1) % n) as nat;
        (revealed(StateModel { search_index: i, ..m }, m.search_results[i as int]), true)
    }
}

/// The cursor on the next visible line.
pub open spec fn cursor_down_effect(m: StateModel) -> StateModel {
    if m.lines.len() == 0 {
        m
    } else {
        match line_index(m.lines, m.cursor) {
            Some(i) => if i + 1 < m.lines.len() {
                StateModel { cursor: m.lines[(i + 1) as int].path, ..m }
            } else {
                m
            },
            None => StateModel { cursor: m.lines[0].path, ..m },
        }
    }
}

/// The cursor on the previous visible line.
pub open spec fn cursor_up_effect(m: StateModel) -> StateModel {
    if m.lines.len() == 0 {
        m
    } else {
        match line_index(m.lines, m.cursor) {
            Some(i) => if i > 0 {
                StateModel { cursor: m.lines[i - 1].path, ..m }
            } else {
                m
            },
            None => StateModel { cursor: m.lines[0].path, ..m },
        }
    }
}

/// The cursor on the first line, scrolled to the top.
pub open spec fn top_effect(m: StateModel) -> StateModel {
    if m.lines.len() > 0 {
        StateModel { cursor: m.lines[0].path, scroll: 0, ..m }
    } else {
        m
    }
}

/// The cursor on the last line.
pub open spec fn bottom_effect(m: StateModel) -> StateModel {
    if m.lines.len() > 0 {
        StateModel { cursor: m.lines.last().path, ..m }
    } else {
        m
    }
}

/// The cursor on line `line_num` (from one), when there is such a line.
pub open spec fn line_effect(m: StateModel, line_num: int) -> StateModel {
    if 1 <= line_num <= m.lines.len() {
        StateModel { cursor: m.lines[line_num - 1].path, ..m }
    } else {
        m
    }
}

/// Half a page down: the cursor and the scroll offset move together.
pub open spec fn page_down_effect(m: StateModel) -> StateModel {
    let amount = m.viewport / 2;
    let bottom = if m.lines.len() >= m.viewport { (m.lines.len() - m.viewport) as nat } else { 0 };
    let target = if cursor_line(m) + amount < m.lines.len() { cursor_line(m) + amount } else { (m.lines.len() - 1) as nat };
    if m.viewport == 0 || m.lines.len() == 0 {
        m
    } else {
        StateModel {
            scroll: if m.scroll + amount < bottom { m.scroll + amount } else { bottom },
            cursor: m.lines[target as int].path,
            ..m
        }
    }
}

/// Half a page up: the cursor and the scroll offset move together.
pub open spec fn page_up_effect(m: StateModel) -> StateModel {
    let amount = m.viewport / 2;
    let target = if cursor_line(m) >= amount { (cursor_line(m) - amount) as nat } else { 0 };
    if m.viewport == 0 || m.lines.len() == 0 {
        m
    } else {
        StateModel {
            scroll: if m.scroll >= amount { (m.scroll - amount) as nat } else { 0 },
            cursor: m.lines[target as int].path,
            ..m
        }
    }
}

/// `m` with the edit cursor shown and its blinking restarted.
pub open spec fn blink_reset(m: StateModel) -> StateModel {
    StateModel { cursor_visible: true, blink_ticks: 0, ..m }
}

/// A character typed into the edit buffer at the edit cursor.
pub open spec fn edit_insert_effect(m: StateModel, ch: char) -> StateModel {
    match m.edit {
        Some(b) => StateModel { edit: Some(b.insert(m.edit_cursor as int, ch)), edit_cursor: m.edit_cursor + 1, ..blink_reset(m) },
        None => m,
    }
}

/// The character before the edit cursor removed.
pub open spec fn edit_backspace_effect(m: StateModel) -> StateModel {
    match m.edit {
        Some(b) => if m.edit_cursor > 0 {
            StateModel { edit: Some(b.remove(m.edit_cursor - 1)), edit_cursor: (m.edit_cursor - 1) as nat, ..blink_reset(m) }
        } else {
            m
        },
        None => m,
    }
}

/// The character at the edit cursor removed.
pub open spec fn edit_delete_effect(m: StateModel) -> StateModel {
    match m.edit {
        Some(b) => if m.edit_cursor < b.len() {
            StateModel { edit: Some(b.remove(m.edit_cursor as int)), ..blink_reset(m) }
        } else {
            m
        },
        None => m,
    }
}

/// The edit cursor one character to the left.
pub open spec fn edit_left_effect(m: StateModel) -> StateModel {
    if m.edit_cursor > 0 {
        StateModel { edit_cursor: (m.edit_cursor - 1) as nat, ..blink_reset(m) }
    } else {
        m
    }
}

/// The edit cursor one character to the right.
pub open spec fn edit_right_effect(m: StateModel) -> StateModel {
    match m.edit {
        Some(b) => if m.edit_cursor < b.len() {
            StateModel { edit_cursor: m.edit_cursor + 1, ..blink_reset(m) }
        } else {
            m
        },
        None => m,
    }
}

/// The edit cursor at the end of the buffer.
pub open spec fn edit_end_effect(m: StateModel) -> StateModel {
    match m.edit {
        Some(b) => StateModel { edit_cursor: b.len(), ..blink_reset(m) },
        None => m,
    }
}

/// Everything before the edit cursor removed.
pub open spec fn edit_kill_start_effect(m: StateModel) -> StateModel {
    match m.edit {
        Some(b) => StateModel { edit: Some(b.subrange(m.edit_cursor as int, b.len() as int)), edit_cursor: 0, ..blink_reset(m) },
        None => m,
    }
}

/// From typing a new member's key to typing its value: refused with a
/// message when the key is empty; nothing happens outside that stage.
pub open spec fn add_to_value_effect(m: StateModel) -> StateModel {
    if m.add_stage == AddModeStage::AwaitingKey {
        if m.add_key.len() == 0 {
            with_error(m, "Key cannot be empty"@)
        } else {
            StateModel {
                add_stage: AddModeStage::AwaitingValue,
                edit: Some(Seq::empty()),
                edit_cursor: 0,
                mode: EditorMode::Insert,
                cursor_visible: true,
                blink_ticks: 0,
                message: Some(("-- INSERT --"@, MessageLevel::Info)),
                ..m
            }
        }
    } else {
        m
    }
}

/// The node at the cursor expanded or collapsed (see
/// `expanded_after_toggle`) and the lines rebuilt.
pub open spec fn toggle_effect(m: StateModel) -> StateModel {
    StateModel {
        expanded: expanded_after_toggle(m),
        lines: view_lines(m.doc.value, Seq::empty(), 0, expanded_after_toggle(m)),
        ..m
    }
}

/// The most undo steps the editor keeps.
pub const UNDO_LIMIT: usize = 50;

/// The number of lines a page is taken to have before the screen size is known.
pub const DEFAULT_VIEWPORT_HEIGHT: usize = 20;

/// The theme the editor starts with.
pub open spec fn default_theme() -> Seq<char> {
    "default-dark"@
}

/// The expanded paths after toggling the node at the cursor: opening a
/// collapsed line of a JSON Lines document opens it and every container
/// below it; anything else flips the one node.
pub open spec fn expanded_after_toggle(m: StateModel) -> Set<Seq<usize>> {
    let p = m.cursor;
    if p.len() == 1 && m.doc.value is JsonlRoot && !m.expanded.contains(p) {
        match node_at(m.doc, p) {
            Some(n) => if n.value.is_container() {
                m.expanded.insert(p).union(container_paths(n.value, p).to_set())
            } else {
                m.expanded
            },
            None => m.expanded,
        }
    } else {
        toggled(m.expanded, p)
    }
}

/// The cursor a new editor starts with: the first visible line, or the root.
pub open spec fn first_line_path(lines: Seq<LineModel>) -> Seq<usize> {
    if lines.len() > 0 {
        lines[0].path
    } else {
        Seq::empty()
    }
}

/// The first position at or after `i` of a line with path `p`.
pub open spec fn line_index_from(lines: Seq<LineModel>, p: Seq<usize>, i: nat) -> Option<nat>
    decreases lines.len() - i,
{
    if i >= lines.len() {
        None
    } else if lines[i as int].path == p {
        Some(i)
    } else {
        line_index_from(lines, p, i + 1)
    }
}

/// The position of the first line with path `p`, if any.
pub open spec fn line_index(lines: Seq<LineModel>, p: Seq<usize>) -> Option<nat> {
    line_index_from(lines, p, 0)
}

/// The position of the cursor's line (the first line when the cursor is
/// on no visible line).
pub open spec fn cursor_line(m: StateModel) -> nat {
    match line_index(m.lines, m.cursor) {
        Some(i) => i,
        None => 0,
    }
}

/// The editor state.
pub struct EditorState {
    tree: JsonTree,
    mode: EditorMode,
    cursor: Cursor,
    dirty: bool,
    filename: Option<String>,
    tree_view: TreeViewState,
    message: Option<Message>,
    command_buffer: String,
    show_help: bool,
    help_scroll: usize,
    pending_theme: Option<String>,
    current_theme: String,
    clipboard: Vec<(Option<String>, JsonNode)>,
    pending_container: Option<JsonNode>,
    search_buffer: String,
    search_results: Vec<Vec<usize>>,
    search_index: usize,
    show_line_numbers: bool,
    edit_buffer: Option<String>,
    edit_cursor: usize,
    cursor_visible: bool,
    cursor_blink_ticks: u8,
    pending_command: Option<char>,
    pending_count: Option<u32>,
    scroll_offset: usize,
    viewport_height: usize,
    undo_tree: UndoTree,
    add_mode_stage: AddModeStage,
    add_key_buffer: String,
    add_insertion_point: Option<Vec<usize>>,
    is_renaming_key: bool,
    rename_original_key: Option<String>,
}

/// The model of an optional message.
pub open spec fn message_model(m: Option<Message>) -> Option<(Seq<char>, MessageLevel)> {
    match m {
        Some(msg) => Some((msg.text@, msg.level)),
        None => None,
    }
}

impl EditorState {
    /// The model of the state.
    pub closed spec fn model(&self) -> StateModel {
        StateModel {
            doc: self.tree@,
            mode: self.mode,
            cursor: self.cursor@,
            dirty: self.dirty,
            filename: opt_string_view(self.filename),
            lines: self.tree_view.lines_view(),
            expanded: self.tree_view.expanded(),
            message: message_model(self.message),
            command: self.command_buffer@,
            show_help: self.show_help,
            help_scroll: self.help_scroll as nat,
            pending_theme: opt_string_view(self.pending_theme),
            current_theme: self.current_theme@,
            clipboard: clip_model(self.clipboard@),
            container: match self.pending_container {
                Some(n) => Some(n@),
                None => None,
            },
            search: self.search_buffer@,
            search_results: paths_model(self.search_results@),
            search_index: self.search_index as nat,
            show_line_numbers: self.show_line_numbers,
            edit: opt_string_view(self.edit_buffer),
            edit_cursor: self.edit_cursor as nat,
            cursor_visible: self.cursor_visible,
            blink_ticks: self.cursor_blink_ticks as nat,
            pending_command: self.pending_command,
            pending_count: self.pending_count,
            scroll: self.scroll_offset as nat,
            viewport: self.viewport_height as nat,
            history: HistoryModel {
                snapshots: self.undo_tree.snapshots(),
                parents: self.undo_tree.parents(),
                children: self.undo_tree.all_children(),
                current: self.undo_tree.current(),
                limit: self.undo_tree.limit(),
            },
            add_stage: self.add_mode_stage,
            add_key: self.add_key_buffer@,
            add_point: match self.add_insertion_point {
                Some(p) => Some(p@),
                None => None,
            },
            renaming: self.is_renaming_key,
            rename_key: opt_string_view(self.rename_original_key),
        }
    }

    /// The state is consistent: the history is, and the edit cursor lies
    /// within the edit buffer while there is one.
    pub closed spec fn wf(&self) -> bool {
        &&& self.undo_tree.wf()
        &&& (self.search_results@.len() == 0 || self.search_index < self.search_results@.len())
        &&& match self.edit_buffer {
            Some(b) => self.edit_cursor <= b@.len(),
            None => true,
        }
    }

    /// A fresh editor on `tree`: Normal mode, not dirty, no file name;
    /// every container collapsed (the top-level members show), the cursor
    /// on the first line, and the history holding the initial state.
    pub fn new(tree: JsonTree) -> (res: Self)
        ensures
            res.wf(),
            res.model() == fresh_state(tree@),
    {
        let mut tree_view = TreeViewState::new();
        tree_view.rebuild(&tree);
        let mut cursor = Cursor::new();
        if tree_view.lines().len() > 0 {
            let first = copy_path(tree_view.lines()[0].path.as_slice());
            cursor.set_path(first);
        }
        let initial_snapshot = EditorSnapshot { tree: tree.clone(), cursor_path: copy_path(cursor.path()) };
        let undo_tree = UndoTree::new(initial_snapshot, UNDO_LIMIT);
        let res = Self {
            tree,
            mode: EditorMode::Normal,
            cursor,
            dirty: false,
            filename: None,
            tree_view,
            message: None,
            command_buffer: String::new(),
            show_help: false,
            help_scroll: 0,
            pending_theme: None,
            current_theme: string_of("default-dark"),
            clipboard: Vec::new(),
            pending_container: None,
            search_buffer: String::new(),
            search_results: Vec::new(),
            search_index: 0,
            show_line_numbers: true,
            edit_buffer: None,
            edit_cursor: 0,
            cursor_visible: true,
            cursor_blink_ticks: 0,
            pending_command: None,
            pending_count: None,
            scroll_offset: 0,
            viewport_height: DEFAULT_VIEWPORT_HEIGHT,
            undo_tree,
            add_mode_stage: AddModeStage::Idle,
            add_key_buffer: String::new(),
            add_insertion_point: None,
            is_renaming_key: false,
            rename_original_key: None,
        };
        assert(res.model().search_results =~= Seq::<Seq<usize>>::empty());
        assert(res.model().clipboard =~= Seq::<(Option<Seq<char>>, NodeModel)>::empty());
        assert(res.model().history.children =~= seq![Seq::<usize>::empty()]);
        res
    }

    /// The document.
    pub fn tree(&self) -> (res: &JsonTree)
        ensures
            res@ == self.model().doc,
    {
        &self.tree
    }

    /// Mutable access to the document. The tree view is not rebuilt (see
    /// `rebuild_tree_view`).
    pub fn tree_mut(&mut self) -> (res: &mut JsonTree)
        ensures
            (*res)@ == old(self).model().doc,
            final(self).model() == (StateModel { doc: (*final(res))@, ..old(self).model() }),
            final(self).wf() == old(self).wf(),
    {
        &mut self.tree
    }

    /// The editing mode.
    pub fn mode(&self) -> (res: &EditorMode)
        ensures
            *res == self.model().mode,
    {
        &self.mode
    }

    /// Sets the editing mode.
    pub fn set_mode(&mut self, mode: EditorMode)
        ensures
            final(self).model() == (StateModel { mode, ..old(self).model() }),
            final(self).wf() == old(self).wf(),
    {
        self.mode = mode;
    }

    /// The cursor.
    pub fn cursor(&self) -> (res: &Cursor)
        ensures
            res@ == self.model().cursor,
    {
        &self.cursor
    }

    /// Mutable access to the cursor.
    pub fn cursor_mut(&mut self) -> (res: &mut Cursor)
        ensures
            (*res)@ == old(self).model().cursor,
            final(self).model() == (StateModel { cursor: (*final(res))@, ..old(self).model() }),
            final(self).wf() == old(self).wf(),
    {
        &mut self.cursor
    }

    /// Whether there are unsaved changes.
    pub fn is_dirty(&self) -> (res: bool)
        ensures
            res == self.model().dirty,
    {
        self.dirty
    }

    /// Records that there are unsaved changes.
    pub fn mark_dirty(&mut self)
        ensures
            final(self).model() == (StateModel { dirty: true, ..old(self).model() }),
            final(self).wf() == old(self).wf(),
    {
        self.dirty = true;
    }

    /// Records that all changes are saved.
    pub fn clear_dirty(&mut self)
        ensures
            final(self).model() == (StateModel { dirty: false, ..old(self).model() }),
            final(self).wf() == old(self).wf(),
    {
        self.dirty = false;
    }

    /// The name of the file being edited, if any.
    pub fn filename(&self) -> (res: Option<&str>)
        ensures
            match (res, self.model().filename) {
                (Some(a), Some(b)) => a@ == b,
                (None, None) => true,
                _ => false,
            },
    {
        match &self.filename {
            Some(f) => Some(f.as_str()),
            None => None,
        }
    }

    /// Sets the name of the file being edited.
    pub fn set_filename(&mut self, filename: String)
        ensures
            final(self).model() == (StateModel { filename: Some(filename@), ..old(self).model() }),
            final(self).wf() == old(self).wf(),
    {
        self.filename = Some(filename);
    }

    /// The tree view.
    pub fn tree_view(&self) -> (res: &TreeViewState)
        ensures
            res.lines_view() == self.model().lines,
            res.expanded() == self.model().expanded,
    {
        &self.tree_view
    }

    /// Mutable access to the tree view.
    pub fn tree_view_mut(&mut self) -> (res: &mut TreeViewState)
        ensures
            res.lines_view() == old(self).model().lines,
            res.expanded() == old(self).model().expanded,
            final(self).model() == (StateModel {
                lines: final(res).lines_view(),
                expanded: final(res).expanded(),
                ..old(self).model()
            }),
            final(self).wf() == old(self).wf(),
    {
        &mut self.tree_view
    }

    /// Rebuilds the tree view lines from the document.
    pub fn rebuild_tree_view(&mut self)
        ensures
            final(self).model() == (StateModel {
                lines: view_lines(old(self).model().doc.value, Seq::empty(), 0, old(self).model().expanded),
                ..old(self).model()
            }),
            final(self).wf() == old(self).wf(),
    {
        self.tree_view.rebuild(&self.tree);
    }

    /// Expands or collapses the node at the cursor and rebuilds the lines.
    /// Opening a line of a JSON Lines document opens everything inside it.
    pub fn toggle_expand_at_cursor(&mut self)
        ensures
            final(self).model() == toggle_effect(old(self).model()),
            final(self).wf() == old(self).wf(),
    {
        let current_path = copy_path(self.cursor.path());
        let is_jsonl_line = current_path.len() == 1 && matches!(self.tree.root().value(), JsonValue::JsonlRoot(_));
        let was_expanded = self.tree_view.is_expanded(current_path.as_slice());
        if is_jsonl_line && !was_expanded {
            self.tree_view.expand_node_and_descendants(&self.tree, current_path.as_slice());
        } else {
            self.tree_view.toggle_expand(current_path.as_slice());
        }
        self.tree_view.rebuild(&self.tree);
    }

    /// The message shown, if any.
    pub fn message(&self) -> (res: Option<&Message>)
        ensures
            match (res, self.model().message) {
                (Some(m), Some((t, l))) => m.text@ == t && m.level == l,
                (None, None) => true,
                _ => false,
            },
    {
        self.message.as_ref()
    }

    /// Shows a message.
    pub fn set_message(&mut self, text: String, level: MessageLevel)
        ensures
            final(self).model() == (StateModel { message: Some((text@, level)), ..old(self).model() }),
            final(self).wf() == old(self).wf(),
    {
        self.message = Some(Message { text, level });
    }

    /// Removes the message.
    pub fn clear_message(&mut self)
        ensures
            final(self).model() == (StateModel { message: None, ..old(self).model() }),
            final(self).wf() == old(self).wf(),
    {
        self.message = None;
    }

    /// The command being typed.
    pub fn command_buffer(&self) -> (res: &str)
        ensures
            res@ == self.model().command,
    {
        self.command_buffer.as_str()
    }

    /// Replaces the command being typed.
    pub fn set_command_buffer(&mut self, buffer: String)
        ensures
            final(self).model() == (StateModel { command: buffer@, ..old(self).model() }),
            final(self).wf() == old(self).wf(),
    {
        self.command_buffer = buffer;
    }

    /// Appends a character to the command being typed.
    pub fn push_to_command_buffer(&mut self, ch: char)
        ensures
            final(self).model() == (StateModel { command: old(self).model().command.push(ch), ..old(self).model() }),
            final(self).wf() == old(self).wf(),
    {
        self.command_buffer.push(ch);
    }

    /// Removes the last character of the command being typed, if any.
    pub fn pop_from_command_buffer(&mut self)
        ensures
            final(self).model() == (StateModel {
                command: if old(self).model().command.len() > 0 {
                    old(self).model().command.drop_last()
                } else {
                    old(self).model().command
                },
                ..old(self).model()
            }),
            final(self).wf() == old(self).wf(),
    {
        self.command_buffer.pop();
    }

    /// Empties the command being typed.
    pub fn clear_command_buffer(&mut self)
        ensures
            final(self).model() == (StateModel { command: Seq::empty(), ..old(self).model() }),
            final(self).wf() == old(self).wf(),
    {
        self.command_buffer = String::new();
    }

    /// Whether the help overlay is shown.
    pub fn show_help(&self) -> (res: bool)
        ensures
            res == self.model().show_help,
    {
        self.show_help
    }

    /// Shows or hides the help overlay; showing it scrolls it to the top.
    pub fn toggle_help(&mut self)
        ensures
            final(self).model() == (StateModel {
                show_help: !old(self).model().show_help,
                help_scroll: if !old(self).model().show_help { 0 } else { old(self).model().help_scroll },
                ..old(self).model()
            }),
            final(self).wf() == old(self).wf(),
    {
        self.show_help = !self.show_help;
        if self.show_help {
            self.help_scroll = 0;
        }
    }

    /// How far the help overlay is scrolled.
    pub fn help_scroll(&self) -> (res: usize)
        ensures
            res == self.model().help_scroll,
    {
        self.help_scroll
    }

    /// Scrolls the help overlay down a line.
    pub fn scroll_help_down(&mut self)
        ensures
            final(self).model() == (StateModel {
                help_scroll: if old(self).model().help_scroll < usize::MAX {
                    old(self).model().help_scroll + 1
                } else {
                    old(self).model().help_scroll
                },
                ..old(self).model()
            }),
            final(self).wf() == old(self).wf(),
    {
        self.help_scroll = self.help_scroll.saturating_add(1);
    }

    /// Scrolls the help overlay up a line (not past the top).
    pub fn scroll_help_up(&mut self)
        ensures
            final(self).model() == (StateModel {
                help_scroll: if old(self).model().help_scroll > 0 {
                    (old(self).model().help_scroll - 1) as nat
                } else {
                    0
                },
                ..old(self).model()
            }),
            final(self).wf() == old(self).wf(),
    {
        self.help_scroll = self.help_scroll.saturating_sub(1);
    }

    /// Takes the theme change requested since the last call, if any.
    pub fn take_pending_theme(&mut self) -> (res: Option<String>)
        ensures
            opt_string_view(res) == old(self).model().pending_theme,
            final(self).model() == (StateModel { pending_theme: None, ..old(self).model() }),
            final(self).wf() == old(self).wf(),
    {
        self.pending_theme.take()
    }

    /// Switches to the theme `theme_name` and records the request for the
    /// screen to pick up.
    pub fn request_theme_change(&mut self, theme_name: String)
        ensures
            final(self).model() == (StateModel {
                current_theme: theme_name@,
                pending_theme: Some(theme_name@),
                ..old(self).model()
            }),
            final(self).wf() == old(self).wf(),
    {
        self.current_theme = theme_name.clone();
        self.pending_theme = Some(theme_name);
    }

    /// Records the theme in use.
    pub fn set_current_theme(&mut self, theme_name: String)
        ensures
            final(self).model() == (StateModel { current_theme: theme_name@, ..old(self).model() }),
            final(self).wf() == old(self).wf(),
    {
        self.current_theme = theme_name;
    }

    /// The theme in use.
    pub fn current_theme(&self) -> (res: &str)
        ensures
            res@ == self.model().current_theme,
    {
        self.current_theme.as_str()
    }

    /// Whether a node has been yanked.
    pub fn has_clipboard(&self) -> (res: bool)
        ensures
            res == (self.model().clipboard.len() > 0),
    {
        self.clipboard.len() > 0
    }

    /// The yanked nodes, in order, each with its key when it was yanked
    /// from an object.
    pub fn clipboard(&self) -> (res: &[(Option<String>, JsonNode)])
        ensures
            clip_model(res@) == self.model().clipboard,
    {
        self.clipboard.as_slice()
    }

    /// The search query being typed.
    pub fn search_buffer(&self) -> (res: &str)
        ensures
            res@ == self.model().search,
    {
        self.search_buffer.as_str()
    }

    /// Appends a character to the search query.
    pub fn push_to_search_buffer(&mut self, ch: char)
        ensures
            final(self).model() == (StateModel { search: old(self).model().search.push(ch), ..old(self).model() }),
            final(self).wf() == old(self).wf(),
    {
        self.search_buffer.push(ch);
    }

    /// Removes the last character of the search query, if any.
    pub fn pop_from_search_buffer(&mut self)
        ensures
            final(self).model() == (StateModel {
                search: if old(self).model().search.len() > 0 {
                    old(self).model().search.drop_last()
                } else {
                    old(self).model().search
                },
                ..old(self).model()
            }),
            final(self).wf() == old(self).wf(),
    {
        self.search_buffer.pop();
    }

    /// Empties the search query.
    pub fn clear_search_buffer(&mut self)
        ensures
            final(self).model() == (StateModel { search: Seq::empty(), ..old(self).model() }),
            final(self).wf() == old(self).wf(),
    {
        self.search_buffer = String::new();
    }

    /// Whether line numbers are shown.
    pub fn show_line_numbers(&self) -> (res: bool)
        ensures
            res == self.model().show_line_numbers,
    {
        self.show_line_numbers
    }

    /// Shows or hides line numbers.
    pub fn set_show_line_numbers(&mut self, show: bool)
        ensures
            final(self).model() == (StateModel { show_line_numbers: show, ..old(self).model() }),
            final(self).wf() == old(self).wf(),
    {
        self.show_line_numbers = show;
    }

    /// The edit buffer, while a value or key is being edited.
    pub fn edit_buffer(&self) -> (res: Option<&str>)
        ensures
            match (res, self.model().edit) {
                (Some(a), Some(b)) => a@ == b,
                (None, None) => true,
                _ => false,
            },
    {
        match &self.edit_buffer {
            Some(b) => Some(b.as_str()),
            None => None,
        }
    }

    /// The position of the edit cursor, in characters.
    pub fn edit_cursor_position(&self) -> (res: usize)
        ensures
            res == self.model().edit_cursor,
    {
        self.edit_cursor
    }

    /// Whether the blinking edit cursor is drawn at the moment.
    pub fn cursor_visible(&self) -> (res: bool)
        ensures
            res == self.model().cursor_visible,
    {
        self.cursor_visible
    }

    /// Advances the cursor blink by one tick; every fifth tick the cursor
    /// is shown or hidden.
    pub fn update_cursor_blink(&mut self)
        ensures
            ({
                let t = (old(self).model().blink_ticks + 1) % 256;
                final(self).model() == if t >= 5 {
                    StateModel { blink_ticks: 0, cursor_visible: !old(self).model().cursor_visible, ..old(self).model() }
                } else {
                    StateModel { blink_ticks: t, ..old(self).model() }
                }
            }),
            final(self).wf() == old(self).wf(),
    {
        self.cursor_blink_ticks = self.cursor_blink_ticks.wrapping_add(1);
        if self.cursor_blink_ticks >= 5 {
            self.cursor_visible = !self.cursor_visible;
            self.cursor_blink_ticks = 0;
        }
    }

    /// Shows the edit cursor and restarts its blinking.
    pub fn reset_cursor_blink(&mut self)
        ensures
            final(self).model() == (StateModel { cursor_visible: true, blink_ticks: 0, ..old(self).model() }),
            final(self).wf() == old(self).wf(),
    {
        self.cursor_visible = true;
        self.cursor_blink_ticks = 0;
    }

    /// The first key of a two-key command typed so far, if any.
    pub fn pending_command(&self) -> (res: Option<char>)
        ensures
            res == self.model().pending_command,
    {
        self.pending_command
    }

    /// Records the first key of a two-key command.
    pub fn set_pending_command(&mut self, ch: char)
        ensures
            final(self).model() == (StateModel { pending_command: Some(ch), ..old(self).model() }),
            final(self).wf() == old(self).wf(),
    {
        self.pending_command = Some(ch);
    }

    /// Forgets the first key of a two-key command.
    pub fn clear_pending_command(&mut self)
        ensures
            final(self).model() == (StateModel { pending_command: None, ..old(self).model() }),
            final(self).wf() == old(self).wf(),
    {
        self.pending_command = None;
    }

    /// The count typed before a command (1 when none was).
    pub fn get_count(&self) -> (res: u32)
        ensures
            res == match self.model().pending_count {
                Some(c) => c,
                None => 1,
            },
    {
        match self.pending_count {
            Some(c) => c,
            None => 1,
        }
    }

    /// The count typed so far, if any.
    pub fn pending_count(&self) -> (res: Option<u32>)
        ensures
            res == self.model().pending_count,
    {
        self.pending_count
    }

    /// Appends a digit to the count (saturating at the largest `u32`).
    pub fn push_count_digit(&mut self, digit: u32)
        ensures
            final(self).model() == (StateModel {
                pending_count: Some(match old(self).model().pending_count {
                    Some(c) => if c * 10 + digit <= u32::MAX { (c * 10 + digit) as u32 } else { u32::MAX },
                    None => digit,
                }),
                ..old(self).model()
            }),
            final(self).wf() == old(self).wf(),
    {
        match self.pending_count {
            Some(count) => {
                let next = match count.checked_mul(10) {
                    Some(m) => m.saturating_add(digit),
                    None => u32::MAX,
                };
                self.pending_count = Some(next);
            },
            None => {
                self.pending_count = Some(digit);
            },
        }
    }

    /// Forgets the count typed so far.
    pub fn clear_pending_count(&mut self)
        ensures
            final(self).model() == (StateModel { pending_count: None, ..old(self).model() }),
            final(self).wf() == old(self).wf(),
    {
        self.pending_count = None;
    }

    /// Forgets both a pending command key and a pending count.
    pub fn clear_pending(&mut self)
        ensures
            final(self).model() == (StateModel { pending_command: None, pending_count: None, ..old(self).model() }),
            final(self).wf() == old(self).wf(),
    {
        self.pending_command = None;
        self.pending_count = None;
    }

    /// The first visible line shown on screen.
    pub fn scroll_offset(&self) -> (res: usize)
        ensures
            res == self.model().scroll,
    {
        self.scroll_offset
    }

    /// The number of visible lines.
    pub fn total_lines(&self) -> (res: usize)
        ensures
            res == self.model().lines.len(),
    {
        self.tree_view.lines().len()
    }

    /// The stage of adding a member.
    pub fn add_mode_stage(&self) -> (res: &AddModeStage)
        ensures
            *res == self.model().add_stage,
    {
        &self.add_mode_stage
    }

    /// The key being typed for a new object member.
    pub fn add_key_buffer(&self) -> (res: &str)
        ensures
            res@ == self.model().add_key,
    {
        self.add_key_buffer.as_str()
    }

    /// Appends a character to the key being typed, showing the edit cursor.
    pub fn push_to_add_key_buffer(&mut self, ch: char)
        ensures
            final(self).model() == (StateModel {
                add_key: old(self).model().add_key.push(ch),
                cursor_visible: true,
                blink_ticks: 0,
                ..old(self).model()
            }),
            final(self).wf() == old(self).wf(),
    {
        self.add_key_buffer.push(ch);
        self.reset_cursor_blink();
    }

    /// Removes the last character of the key being typed, showing the edit cursor.
    pub fn pop_from_add_key_buffer(&mut self)
        ensures
            final(self).model() == (StateModel {
                add_key: if old(self).model().add_key.len() > 0 {
                    old(self).model().add_key.drop_last()
                } else {
                    old(self).model().add_key
                },
                cursor_visible: true,
                blink_ticks: 0,
                ..old(self).model()
            }),
            final(self).wf() == old(self).wf(),
    {
        self.add_key_buffer.pop();
        self.reset_cursor_blink();
    }

    /// Empties the key being typed.
    pub fn clear_add_key_buffer(&mut self)
        ensures
            final(self).model() == (StateModel { add_key: Seq::empty(), ..old(self).model() }),
            final(self).wf() == old(self).wf(),
    {
        self.add_key_buffer = String::new();
    }

    /// Whether an object key is being renamed.
    pub fn is_renaming_key(&self) -> (res: bool)
        ensures
            res == self.model().renaming,
    {
        self.is_renaming_key
    }

    /// The position of the current search match and the number of
    /// matches (both counted from one), when there are matches.
    pub fn search_results_info(&self) -> (res: Option<(usize, usize)>)
        requires
            self.wf(),
        ensures
            self.model().search_results.len() == 0 ==> res is None,
            self.model().search_results.len() > 0 ==> (res matches Some((a, b)) && a == self.model().search_index + 1 && b == self.model().search_results.len()),
    {
        if self.search_results.len() == 0 {
            None
        } else {
            Some((self.search_index + 1, self.search_results.len()))
        }
    }

    /// Moves the cursor to the next visible line; a cursor on no visible
    /// line goes to the first one.
    pub fn move_cursor_down(&mut self)
        ensures
            final(self).wf() == old(self).wf(),
            final(self).model() == cursor_down_effect(old(self).model()),
    {
        let n = self.tree_view.lines().len();
        if n == 0 {
            return;
        }
        match find_line(self.tree_view.lines(), self.cursor.path()) {
            Some(i) => {
                if i + 1 < n {
                    let p = copy_path(self.tree_view.lines()[i + 1].path.as_slice());
                    self.cursor.set_path(p);
                }
            },
            None => {
                let p = copy_path(self.tree_view.lines()[0].path.as_slice());
                self.cursor.set_path(p);
            },
        }
    }

    /// Moves the cursor to the previous visible line; a cursor on no
    /// visible line goes to the first one.
    pub fn move_cursor_up(&mut self)
        ensures
            final(self).wf() == old(self).wf(),
            final(self).model() == cursor_up_effect(old(self).model()),
    {
        let n = self.tree_view.lines().len();
        if n == 0 {
            return;
        }
        match find_line(self.tree_view.lines(), self.cursor.path()) {
            Some(i) => {
                if i > 0 {
                    let p = copy_path(self.tree_view.lines()[i - 1].path.as_slice());
                    self.cursor.set_path(p);
                }
            },
            None => {
                let p = copy_path(self.tree_view.lines()[0].path.as_slice());
                self.cursor.set_path(p);
            },
        }
    }

    /// The cursor's line number (from one) and column (always one), or
    /// `(0, 0)` when the cursor is on no visible line.
    pub fn cursor_position(&self) -> (res: (usize, usize))
        ensures
            match line_index(self.model().lines, self.model().cursor) {
                Some(i) => res.0 == i + 1 && res.1 == 1,
                None => res.0 == 0 && res.1 == 0,
            },
    {
        let lines = self.tree_view.lines();
        let n = lines.len();
        match find_line(lines, self.cursor.path()) {
            Some(i) => (i + 1, 1),
            None => (0, 0),
        }
    }

    /// Moves the cursor to the first line and scrolls to the top.
    pub fn jump_to_top(&mut self)
        ensures
            final(self).wf() == old(self).wf(),
            final(self).model() == top_effect(old(self).model()),
    {
        let lines = self.tree_view.lines();
        if lines.len() > 0 {
            let p = copy_path(lines[0].path.as_slice());
            self.cursor.set_path(p);
            self.scroll_offset = 0;
        }
    }

    /// Moves the cursor to the last line.
    pub fn jump_to_bottom(&mut self)
        ensures
            final(self).wf() == old(self).wf(),
            final(self).model() == bottom_effect(old(self).model()),
    {
        let n = self.tree_view.lines().len();
        if n > 0 {
            let p = copy_path(self.tree_view.lines()[n - 1].path.as_slice());
            self.cursor.set_path(p);
        }
    }

    /// Moves the cursor to line `line_num` (counted from one); out of
    /// range numbers do nothing.
    pub fn jump_to_line(&mut self, line_num: usize)
        ensures
            final(self).wf() == old(self).wf(),
            final(self).model() == line_effect(old(self).model(), line_num as int),
    {
        let lines = self.tree_view.lines();
        let n = lines.len();
        if line_num == 0 || line_num > n {
            return;
        }
        let p = copy_path(lines[line_num - 1].path.as_slice());
        self.cursor.set_path(p);
    }

    /// Scrolls so that the cursor's line is inside a viewport of
    /// `viewport_height` lines, remembering the height for paging.
    pub fn adjust_scroll_to_cursor(&mut self, viewport_height: usize)
        ensures
            final(self).wf() == old(self).wf(),
            final(self).model() == scrolled(old(self).model(), viewport_height as nat),
    {
        if viewport_height == 0 {
            return;
        }
        self.viewport_height = viewport_height;
        if self.tree_view.lines().len() == 0 {
            self.scroll_offset = 0;
            return;
        }
        let cursor_idx = match find_line(self.tree_view.lines(), self.cursor.path()) {
            Some(i) => i,
            None => 0,
        };
        if cursor_idx < self.scroll_offset {
            self.scroll_offset = cursor_idx;
        } else if cursor_idx - self.scroll_offset >= viewport_height {
            self.scroll_offset = cursor_idx - viewport_height + 1;
        }
    }

    /// Scrolls down half a viewport and moves the cursor down as far.
    pub fn page_down(&mut self)
        ensures
            final(self).wf() == old(self).wf(),
            final(self).model() == page_down_effect(old(self).model()),
    {
        if self.viewport_height == 0 {
            return;
        }
        let n = self.tree_view.lines().len();
        if n == 0 {
            return;
        }
        let current_idx = match find_line(self.tree_view.lines(), self.cursor.path()) {
            Some(i) => i,
            None => 0,
        };
        let scroll_amount = self.viewport_height / 2;
        let bottom = n.saturating_sub(self.viewport_height);
        let wanted = self.scroll_offset.saturating_add(scroll_amount);
        self.scroll_offset = if wanted < bottom { wanted } else { bottom };
        let target = if scroll_amount <= n - 1 - current_idx {
            current_idx + scroll_amount
        } else {
            n - 1
        };
        let p = copy_path(self.tree_view.lines()[target].path.as_slice());
        self.cursor.set_path(p);
    }

    /// Scrolls up half a viewport and moves the cursor up as far (not past
    /// the top).
    pub fn page_up(&mut self)
        ensures
            final(self).wf() == old(self).wf(),
            final(self).model() == page_up_effect(old(self).model()),
    {
        if self.viewport_height == 0 {
            return;
        }
        let n = self.tree_view.lines().len();
        if n == 0 {
            return;
        }
        let current_idx = match find_line(self.tree_view.lines(), self.cursor.path()) {
            Some(i) => i,
            None => 0,
        };
        let scroll_amount = self.viewport_height / 2;
        self.scroll_offset = self.scroll_offset.saturating_sub(scroll_amount);
        let target = current_idx.saturating_sub(scroll_amount);
        let p = copy_path(self.tree_view.lines()[target].path.as_slice());
        self.cursor.set_path(p);
    }

    /// Stops editing, dropping the edit buffer.
    pub fn cancel_editing(&mut self)
        requires
            old(self).wf(),
        ensures
            final(self).wf(),
            final(self).model() == (StateModel { edit: None, edit_cursor: 0, ..old(self).model() }),
    {
        self.edit_buffer = None;
        self.edit_cursor = 0;
    }

    /// Inserts a character at the edit cursor and moves the cursor past it.
    pub fn push_to_edit_buffer(&mut self, ch: char)
        requires
            old(self).wf(),
        ensures
            final(self).wf(),
            final(self).model() == edit_insert_effect(old(self).model(), ch),
    {
        if let Some(buffer) = &self.edit_buffer {
            let updated = insert_char_at(buffer.as_str(), self.edit_cursor, ch);
            let new_len = updated.unicode_len();
            self.edit_buffer = Some(updated);
            self.edit_cursor = self.edit_cursor + 1;
            self.reset_cursor_blink();
        }
    }

    /// Deletes the character before the edit cursor (Backspace).
    pub fn pop_from_edit_buffer(&mut self)
        requires
            old(self).wf(),
        ensures
            final(self).wf(),
            final(self).model() == edit_backspace_effect(old(self).model()),
    {
        if let Some(buffer) = &self.edit_buffer {
            if self.edit_cursor > 0 {
                let updated = remove_char_at(buffer.as_str(), self.edit_cursor - 1);
                self.edit_buffer = Some(updated);
                self.edit_cursor = self.edit_cursor - 1;
                self.reset_cursor_blink();
            }
        }
    }

    /// Empties the edit buffer.
    pub fn clear_edit_buffer(&mut self)
        requires
            old(self).wf(),
        ensures
            final(self).wf(),
            final(self).model() == match old(self).model().edit {
                Some(b) => StateModel {
                    edit: Some(Seq::empty()),
                    edit_cursor: 0,
                    cursor_visible: true,
                    blink_ticks: 0,
                    ..old(self).model()
                },
                None => old(self).model(),
            },
    {
        if self.edit_buffer.is_some() {
            self.edit_buffer = Some(String::new());
            self.edit_cursor = 0;
            self.reset_cursor_blink();
        }
    }

    /// Moves the edit cursor one character left.
    pub fn edit_cursor_left(&mut self)
        requires
            old(self).wf(),
        ensures
            final(self).wf(),
            final(self).model() == edit_left_effect(old(self).model()),
    {
        if self.edit_cursor > 0 {
            self.edit_cursor = self.edit_cursor - 1;
            self.reset_cursor_blink();
        }
    }

    /// Moves the edit cursor one character right (not past the end).
    pub fn edit_cursor_right(&mut self)
        requires
            old(self).wf(),
        ensures
            final(self).wf(),
            final(self).model() == edit_right_effect(old(self).model()),
    {
        if let Some(buffer) = &self.edit_buffer {
            if self.edit_cursor < buffer.unicode_len() {
                self.edit_cursor = self.edit_cursor + 1;
                self.reset_cursor_blink();
            }
        }
    }

    /// Moves the edit cursor to the start.
    pub fn edit_cursor_home(&mut self)
        requires
            old(self).wf(),
        ensures
            final(self).wf(),
            final(self).model() == (StateModel { edit_cursor: 0, cursor_visible: true, blink_ticks: 0, ..old(self).model() }),
    {
        self.edit_cursor = 0;
        self.reset_cursor_blink();
    }

    /// Moves the edit cursor to the end.
    pub fn edit_cursor_end(&mut self)
        requires
            old(self).wf(),
        ensures
            final(self).wf(),
            final(self).model() == edit_end_effect(old(self).model()),
    {
        if let Some(buffer) = &self.edit_buffer {
            self.edit_cursor = buffer.unicode_len();
            self.reset_cursor_blink();
        }
    }

    /// Deletes the character under the edit cursor (Delete).
    pub fn edit_delete_at_cursor(&mut self)
        requires
            old(self).wf(),
        ensures
            final(self).wf(),
            final(self).model() == edit_delete_effect(old(self).model()),
    {
        if let Some(buffer) = &self.edit_buffer {
            if self.edit_cursor < buffer.unicode_len() {
                let updated = remove_char_at(buffer.as_str(), self.edit_cursor);
                self.edit_buffer = Some(updated);
                self.reset_cursor_blink();
            }
        }
    }

    /// Deletes from the edit cursor to the end.
    pub fn edit_kill_to_end(&mut self)
        requires
            old(self).wf(),
        ensures
            final(self).wf(),
            final(self).model() == match old(self).model().edit {
                Some(b) => StateModel {
                    edit: Some(b.subrange(0, old(self).model().edit_cursor as int)),
                    cursor_visible: true,
                    blink_ticks: 0,
                    ..old(self).model()
                },
                None => old(self).model(),
            },
    {
        if let Some(buffer) = &self.edit_buffer {
            let updated = substring_chars(buffer.as_str(), 0, self.edit_cursor);
            self.edit_buffer = Some(updated);
            self.reset_cursor_blink();
        }
    }

    /// Deletes from the start to the edit cursor (Ctrl-u).
    pub fn edit_kill_to_start(&mut self)
        requires
            old(self).wf(),
        ensures
            final(self).wf(),
            final(self).model() == edit_kill_start_effect(old(self).model()),
    {
        if let Some(buffer) = &self.edit_buffer {
            let n = buffer.unicode_len();
            let updated = substring_chars(buffer.as_str(), self.edit_cursor, n);
            self.edit_buffer = Some(updated);
            self.edit_cursor = 0;
            self.reset_cursor_blink();
        }
    }

    /// Records the current document and cursor in the undo history.
    fn checkpoint(&mut self)
        requires
            old(self).wf(),
        ensures
            final(self).wf(),
            final(self).model() == (StateModel {
                history: history_after_checkpoint(
                    old(self).model().history,
                    SnapshotModel { tree: old(self).model().doc, cursor: old(self).model().cursor },
                ),
                ..old(self).model()
            }),
    {
        let t = self.tree.clone();
        assert(t@ == self.tree@);
        let snapshot = EditorSnapshot { tree: t, cursor_path: copy_path(self.cursor.path()) };
        let ghost before = self.undo_tree;
        let ghost snap = snapshot@;
        self.undo_tree.add_checkpoint(snapshot);
        proof {
            before.lemma_shapes();
            let h = old(self).model().history;
            let snap = SnapshotModel { tree: old(self).model().doc, cursor: old(self).model().cursor };
            let h2 = history_after_checkpoint(h, snap);
            assert(snap == SnapshotModel { tree: old(self).model().doc, cursor: old(self).model().cursor });
        }
    }

    /// Goes back one step in the undo history, restoring that state's
    /// document and cursor; false when there is no earlier state.
    pub fn undo(&mut self) -> (res: bool)
        requires
            old(self).wf(),
        ensures
            final(self).wf(),
            (final(self).model(), res) == undo_result(old(self).model()),
    {
        proof {
            self.undo_tree.lemma_shapes();
        }
        match self.undo_tree.undo() {
            Some(snapshot) => {
                self.tree = snapshot.tree;
                self.cursor.set_path(snapshot.cursor_path);
                self.rebuild_tree_view();
                true
            },
            None => false,
        }
    }

    /// Goes forward one step in the undo history, to the newest state
    /// reached from the current one; false when there is none.
    pub fn redo(&mut self) -> (res: bool)
        requires
            old(self).wf(),
        ensures
            final(self).wf(),
            (final(self).model(), res) == redo_result(old(self).model()),
    {
        proof {
            self.undo_tree.lemma_shapes();
        }
        match self.undo_tree.redo() {
            Some(snapshot) => {
                self.tree = snapshot.tree;
                self.cursor.set_path(snapshot.cursor_path);
                self.rebuild_tree_view();
                true
            },
            None => false,
        }
    }

    /// Deletes the node under the cursor and keeps the cursor at the same
    /// line position (see `cursor_after_delete`).
    pub fn delete_node_at_cursor(&mut self) -> (res: Result<(), EditError>)
        requires
            old(self).wf(),
        ensures
            final(self).wf(),
            (final(self).model(), outcome(res)) == delete_result(old(self).model()),
    {
        let path = copy_path(self.cursor.path());
        let current_idx = find_line(self.tree_view.lines(), path.as_slice());
        match self.tree.delete_node(path.as_slice()) {
            Err(e) => {
                return Err(EditError::Tree(e));
            },
            Ok(()) => {},
        }
        self.mark_dirty();
        self.rebuild_tree_view();
        let lines = self.tree_view.lines();
        let n = lines.len();
        if n == 0 {
            self.cursor.set_path(Vec::new());
        } else {
            let target = match current_idx {
                Some(i) => if i < n {
                    i
                } else {
                    n - 1
                },
                None => 0,
            };
            let p = copy_path(lines[target].path.as_slice());
            self.cursor.set_path(p);
        }
        self.checkpoint();
        Ok(())
    }

    /// Copies the node under the cursor, and its key when it is an object
    /// member, into the clipboard; false when the cursor is on no node.
    pub fn yank_node(&mut self) -> (res: bool)
        requires
            old(self).wf(),
        ensures
            final(self).wf(),
            (final(self).model(), res) == yank_result(old(self).model(), 1),
    {
        self.yank_nodes(1)
    }

    /// Copies `count` nodes into the clipboard: the node under the cursor
    /// and the siblings after it, as many as there are (see `yanked`);
    /// false when the cursor is on no node.
    pub fn yank_nodes(&mut self, count: u32) -> (res: bool)
        requires
            old(self).wf(),
        ensures
            final(self).wf(),
            (final(self).model(), res) == yank_result(old(self).model(), count as nat),
    {
        let ghost m = self.model();
        let path = self.cursor.path();
        let node = match self.tree.get_node(path) {
            Some(n) => n,
            None => {
                return false;
            },
        };
        let mut items: Vec<(Option<String>, JsonNode)> = Vec::new();
        if path.len() == 0 {
            items.push((None, node.deep_copy()));
            assert(clip_model(items@) =~= yanked(m.doc, m.cursor, count as nat));
        } else {
            let mut pp = copy_path(path);
            let i = pp.pop().unwrap();
            assert(pp@ == m.cursor.drop_last());
            proof {
                crate::document::tree::lemma_node_at_parent(m.doc, m.cursor);
            }
            let parent = match self.tree.get_node(pp.as_slice()) {
                Some(p) => p,
                None => {
                    return false;
                },
            };
            let ghost cs = parent@.value.children();
            let ghost want: int = if count == 0 { 1 } else { count as int };
            let len = match parent.value() {
                JsonValue::Object(es) => {
                    proof {
                        crate::document::node::lemma_object_view(*es);
                    }
                    es.len()
                },
                JsonValue::Array(a) => {
                    proof {
                        crate::document::node::lemma_array_view(*a);
                    }
                    a.len()
                },
                JsonValue::JsonlRoot(a) => {
                    proof {
                        crate::document::node::lemma_lines_view(*a);
                    }
                    a.len()
                },
                _ => 0,
            };
            assert(len == cs.len());
            let want_exec: usize = if count == 0 { 1 } else { count as usize };
            let end: usize = if want_exec < len - i { i + want_exec } else { len };
            let ghost target = yanked(m.doc, m.cursor, count as nat);
            assert(target.len() == end - i);
            for k in i..end
                invariant
                    i <= end <= len,
                    m.cursor.len() > 0,
                    len == cs.len(),
                    cs == parent@.value.children(),
                    node_at(m.doc, pp@) is Some,
                    parent@ == node_at(m.doc, pp@)->0,
                    pp@ == m.cursor.drop_last(),
                    i == m.cursor.last(),
                    target == yanked(m.doc, m.cursor, count as nat),
                    target.len() == end - i,
                    clip_model(items@) == target.subrange(0, k - i),
            {
                let ghost before = clip_model(items@);
                let ghost q = pp@.push(k);
                assert(q.drop_last() =~= pp@);
                assert(q.last() == k);
                let item: (Option<String>, JsonNode) = match parent.value() {
                    JsonValue::Object(es) => {
                        proof {
                            crate::document::node::lemma_object_view(*es);
                        }
                        let key = es[k].0.clone();
                        let it = (Some(key), es[k].1.deep_copy());
                        assert(opt_string_view(it.0) == member_key(m.doc, q));
                        it
                    },
                    JsonValue::Array(a) => {
                        proof {
                            crate::document::node::lemma_array_view(*a);
                        }
                        let it = (None, a[k].deep_copy());
                        assert(opt_string_view(it.0) == member_key(m.doc, q));
                        it
                    },
                    JsonValue::JsonlRoot(a) => {
                        proof {
                            crate::document::node::lemma_lines_view(*a);
                        }
                        let it = (None, a[k].deep_copy());
                        assert(opt_string_view(it.0) == member_key(m.doc, q));
                        it
                    },
                    _ => {
                        return false;
                    },
                };
                proof {
                    let q = pp@.push(k);
                    assert(q.drop_last() =~= pp@);
                    assert(((i + (k - i)) as usize) == k);
                    assert(target[k - i] == (member_key(m.doc, q), cs[k as int]));
                }
                assert(opt_string_view(item.0) == member_key(m.doc, pp@.push(k)));
                assert(item.1@ == cs[k as int]);
                let ghost entry = (opt_string_view(item.0), item.1@);
                items.push(item);
                assert(clip_model(items@) =~= before.push(entry));
                assert(target.subrange(0, k + 1 - i) =~= target.subrange(0, k - i).push(target[k - i]));
                assert(clip_model(items@) =~= target.subrange(0, k + 1 - i));
            }
            assert(target.subrange(0, end - i) =~= target);
        }
        self.clipboard = items;
        true
    }

    /// Pastes the yanked nodes after the node under the cursor.
    pub fn paste_node_at_cursor(&mut self) -> (res: Result<(), EditError>)
        requires
            old(self).wf(),
            paste_fits(old(self).model(), true),
        ensures
            final(self).wf(),
            paste_effect(old(self).model(), true, final(self).model(), res),
    {
        self.paste(true)
    }

    /// Pastes the yanked nodes before the node under the cursor.
    pub fn paste_node_before_cursor(&mut self) -> (res: Result<(), EditError>)
        requires
            old(self).wf(),
            paste_fits(old(self).model(), false),
        ensures
            final(self).wf(),
            paste_effect(old(self).model(), false, final(self).model(), res),
    {
        self.paste(false)
    }

    /// Whether the indices that a paste uses fit in a `usize` (see
    /// `paste_fits`).
    pub fn paste_fits(&self, after: bool) -> (res: bool)
        ensures
            res == paste_fits(self.model(), after),
    {
        let p = self.cursor.path();
        if p.len() == 0 {
            return true;
        }
        let last = p[p.len() - 1];
        let room = usize::MAX - last;
        let need = self.clipboard.len();
        if after {
            room > 0 && need <= room - 1
        } else {
            need <= room
        }
    }

    #[verifier::rlimit(100)]
    fn paste(&mut self, after: bool) -> (res: Result<(), EditError>)
        requires
            old(self).wf(),
            paste_fits(old(self).model(), after),
        ensures
            final(self).wf(),
            paste_effect(old(self).model(), after, final(self).model(), res),
    {
        let ghost m = self.model();
        let n = self.clipboard.len();
        if n == 0 {
            return Err(EditError::NothingToPaste);
        }
        let mut parent_path = copy_path(self.cursor.path());
        if parent_path.len() == 0 {
            return Err(EditError::PasteAtRoot);
        }
        let current_index = parent_path.pop().unwrap();
        let start = if after {
            current_index + 1
        } else {
            current_index
        };
        let ghost pp = parent_path@;
        let ghost items = m.clipboard;
        assert(pp == m.cursor.drop_last());
        assert(items.skip(0) =~= items);
        for j in 0..n
            invariant
                n == self.clipboard@.len(),
                items == clip_model(self.clipboard@),
                start + n <= usize::MAX,
                pp == parent_path@,
                pp == m.cursor.drop_last(),
                m.cursor.len() > 0,
                items == m.clipboard,
                m == old(self).model(),
                start as int == (if after { m.cursor.last() + 1 } else { m.cursor.last() as int }),
                self.wf(),
                self.model() == (StateModel { doc: self.tree@, ..m }),
                paste_items(m.doc, pp, start as nat, items) == paste_items(self.tree@, pp, (start + j) as nat, items.skip(j as int)),
        {
            let idx = start + j;
            let mut insert_path = copy_path(parent_path.as_slice());
            insert_path.push(idx);
            let ghost d0 = self.tree@;
            let ghost rest = items.skip(j as int);
            assert(rest[0] == items[j as int]);
            assert(rest.drop_first() =~= items.skip(j + 1));
            let node = self.clipboard[j].1.deep_copy();
            assert(node@ == items[j as int].1);
            let parent = match self.tree.get_node(parent_path.as_slice()) {
                Some(p) => p,
                None => {
                    assert(paste_one(d0, pp, idx, items[j as int]) == (d0, Err::<(), EditErrorModel>(EditErrorModel::ParentNotFound)));
                    assert(paste_items(d0, pp, (start + j) as nat, rest) == (d0, Err::<(), EditErrorModel>(EditErrorModel::ParentNotFound)));
                    return Err(EditError::ParentNotFound);
                },
            };
            let r = match parent.value() {
                JsonValue::Object(entries) => {
                    proof {
                        crate::document::node::lemma_object_view(*entries);
                    }
                    let base = match &self.clipboard[j].0 {
                        Some(k) => k.clone(),
                        None => string_of("pasted"),
                    };
                    assert(base@ == paste_base(items[j as int].0));
                    let key = choose_paste_key(&base, entries);
                    self.tree.insert_node_in_object(insert_path.as_slice(), key, node)
                },
                JsonValue::Array(_) => self.tree.insert_node_in_array(insert_path.as_slice(), node),
                _ => {
                    assert(paste_one(d0, pp, idx, items[j as int]) == (d0, Err::<(), EditErrorModel>(EditErrorModel::NotAContainer)));
                    assert(paste_items(d0, pp, (start + j) as nat, rest) == (d0, Err::<(), EditErrorModel>(EditErrorModel::NotAContainer)));
                    return Err(EditError::NotAContainer);
                },
            };
            match r {
                Err(e) => {
                    return Err(EditError::Tree(e));
                },
                Ok(()) => {},
            }
            assert(paste_one(d0, pp, idx, items[j as int]) == (self.tree@, Ok::<(), EditErrorModel>(())));
        }
        let mut cursor_path = copy_path(parent_path.as_slice());
        cursor_path.push(start);
        assert(items.skip(n as int) =~= Seq::<(Option<Seq<char>>, NodeModel)>::empty());
        self.mark_dirty();
        self.rebuild_tree_view();
        self.cursor.set_path(cursor_path);
        self.checkpoint();
        Ok(())
    }

    /// Starts editing the scalar under the cursor: the edit buffer gets its
    /// text (see `edit_text`) and the edit cursor goes to the end. Nothing
    /// happens on a container or when the cursor is on no node.
    pub fn start_editing(&mut self)
        requires
            old(self).wf(),
        ensures
            final(self).wf(),
            final(self).model() == start_edit_effect(old(self).model()),
    {
        let content = match self.tree.get_node(self.cursor.path()) {
            Some(node) => match node.value() {
                JsonValue::Object(_) | JsonValue::Array(_) | JsonValue::JsonlRoot(_) => {
                    return;
                },
                JsonValue::String(s) => s.clone(),
                JsonValue::Number(t) => t.clone(),
                JsonValue::Boolean(b) => if *b {
                    string_of("true")
                } else {
                    string_of("false")
                },
                JsonValue::Null => string_of("null"),
            },
            None => {
                return;
            },
        };
        self.edit_cursor = content.unicode_len();
        self.edit_buffer = Some(content);
    }

    /// Commits the edit buffer to the node under the cursor (see
    /// `committed_value`); `number` is the decimal text of the number the
    /// trimmed buffer reads as, if it reads as one.
    pub fn commit_editing(&mut self, number: Option<String>) -> (res: Result<(), EditError>)
        requires
            old(self).wf(),
        ensures
            final(self).wf(),
            (final(self).model(), outcome(res)) == commit_result(old(self).model(), opt_string_view(number)),
    {
        let ghost m = self.model();
        let text = match &self.edit_buffer {
            Some(b) => b.clone(),
            None => {
                return Err(EditError::NoEditBuffer);
            },
        };
        let new_value = match self.tree.get_node(self.cursor.path()) {
            None => {
                return Err(EditError::NodeNotFound);
            },
            Some(node) => {
                proof {
                    reveal_strlit("null");
                    reveal_strlit("true");
                    reveal_strlit("false");
                }
                if text == string_of("null") {
                    JsonValue::Null
                } else {
                    match node.value() {
                        JsonValue::String(_) => JsonValue::String(text.clone()),
                        JsonValue::Number(_) => match number {
                            Some(n) => {
                                let trimmed = trim_str(text.as_str());
                                if trimmed == text {
                                    JsonValue::Number(n)
                                } else {
                                    return Err(EditError::InvalidNumber);
                                }
                            },
                            None => {
                                return Err(EditError::InvalidNumber);
                            },
                        },
                        JsonValue::Boolean(_) => {
                            if text == string_of("true") {
                                JsonValue::Boolean(true)
                            } else if text == string_of("false") {
                                JsonValue::Boolean(false)
                            } else {
                                return Err(EditError::InvalidBoolean);
                            }
                        },
                        JsonValue::Null => JsonValue::Null,
                        _ => {
                            return Err(EditError::CannotEditContainer);
                        },
                    }
                }
            },
        };
        let ghost v = new_value@;
        let ghost f = set_value(v);
        proof {
            crate::document::tree::lemma_replace_is_apply(m.doc, m.cursor, f);
        }
        match self.tree.get_node_mut(self.cursor.path()) {
            Some(node) => {
                *node.value_mut() = new_value;
            },
            None => {
                return Err(EditError::NodeNotFound);
            },
        }
        self.edit_buffer = None;
        self.mark_dirty();
        self.rebuild_tree_view();
        self.checkpoint();
        Ok(())
    }

    /// Whether the cursor's last index leaves room for the position after it.
    pub fn cursor_index_ok(&self) -> (res: bool)
        ensures
            res == cursor_index_ok(self.model()),
    {
        let p = self.cursor.path();
        p.len() == 0 || p[p.len() - 1] < usize::MAX
    }

    /// Ends the add operation.
    pub fn cancel_add_operation(&mut self)
        requires
            old(self).wf(),
        ensures
            final(self).wf(),
            final(self).model() == (StateModel {
                add_stage: AddModeStage::Idle,
                add_key: Seq::empty(),
                add_point: None,
                ..old(self).model()
            }),
    {
        self.add_mode_stage = AddModeStage::Idle;
        self.add_key_buffer = String::new();
        self.add_insertion_point = None;
    }

    fn begin_value_entry(&mut self, point: Vec<usize>)
        requires
            old(self).wf(),
        ensures
            final(self).wf(),
            final(self).model() == awaiting_value(old(self).model(), point@),
    {
        self.add_mode_stage = AddModeStage::AwaitingValue;
        self.add_insertion_point = Some(point);
        self.edit_buffer = Some(String::new());
        self.edit_cursor = 0;
        self.mode = EditorMode::Insert;
        self.reset_cursor_blink();
        self.set_message(string_of("-- INSERT --"), MessageLevel::Info);
    }

    fn begin_key_entry(&mut self, point: Vec<usize>)
        requires
            old(self).wf(),
        ensures
            final(self).wf(),
            final(self).model() == awaiting_key(old(self).model(), point@),
    {
        self.add_mode_stage = AddModeStage::AwaitingKey;
        self.add_insertion_point = Some(point);
    }

    /// Starts adding a member (see `add_started`).
    pub fn start_add_operation(&mut self)
        requires
            old(self).wf(),
            cursor_index_ok(old(self).model()),
        ensures
            final(self).wf(),
            final(self).model() == add_started(old(self).model()),
    {
        self.clear_message();
        let path = copy_path(self.cursor.path());
        proof {
            reveal_strlit("Cannot add sibling to root node");
            reveal_strlit("Invalid cursor position");
            reveal_strlit("Parent is not a container");
        }
        if path.len() == 0 {
            match self.tree.root().value() {
                JsonValue::Array(_) => {
                    let mut p = Vec::new();
                    p.push(0usize);
                    self.begin_value_entry(p);
                },
                JsonValue::Object(_) => {
                    let mut p = Vec::new();
                    p.push(0usize);
                    self.begin_key_entry(p);
                },
                _ => {
                    self.set_message(string_of("Cannot add sibling to root node"), MessageLevel::Error);
                },
            }
            return;
        }
        let mut inside = copy_path(path.as_slice());
        inside.push(0usize);
        let kind: u8 = match self.tree.get_node(path.as_slice()) {
            Some(node) => match node.value() {
                JsonValue::Array(_) => 1,
                JsonValue::Object(_) => 2,
                _ => 0,
            },
            None => 0,
        };
        if kind == 1 {
            self.begin_value_entry(inside);
            return;
        }
        if kind == 2 {
            self.begin_key_entry(inside);
            return;
        }
        let mut parent_path = copy_path(path.as_slice());
        let index = parent_path.pop().unwrap();
        let mut after = copy_path(parent_path.as_slice());
        after.push(index + 1);
        let parent_kind: u8 = match self.tree.get_node(parent_path.as_slice()) {
            Some(parent) => match parent.value() {
                JsonValue::Array(_) => 1,
                JsonValue::Object(_) => 2,
                _ => 0,
            },
            None => 3,
        };
        if parent_kind == 1 {
            self.begin_value_entry(after);
        } else if parent_kind == 2 {
            self.begin_key_entry(after);
        } else if parent_kind == 3 {
            self.set_message(string_of("Invalid cursor position"), MessageLevel::Error);
        } else {
            self.set_message(string_of("Parent is not a container"), MessageLevel::Error);
        }
    }

    /// Moves from typing the key of a new object member to typing its
    /// value; an empty key is refused with a message.
    pub fn transition_add_to_value(&mut self)
        requires
            old(self).wf(),
        ensures
            final(self).wf(),
            final(self).model() == add_to_value_effect(old(self).model()),
    {
        if self.add_mode_stage == AddModeStage::AwaitingKey {
            if self.add_key_buffer.unicode_len() == 0 {
                self.set_message(string_of("Key cannot be empty"), MessageLevel::Error);
                return;
            }
            self.add_mode_stage = AddModeStage::AwaitingValue;
            self.edit_buffer = Some(String::new());
            self.edit_cursor = 0;
            self.mode = EditorMode::Insert;
            self.reset_cursor_blink();
            self.set_message(string_of("-- INSERT --"), MessageLevel::Info);
        }
    }

    /// Finishes an insertion at `point` that succeeded: shows `text`,
    /// moves the expanded paths, rebuilds the view, puts the cursor on the
    /// new member, records the state and ends the add operation.
    fn finish_add(&mut self, point: Vec<usize>, text: String)
        requires
            old(self).wf(),
        ensures
            final(self).wf(),
            final(self).model() == after_add(old(self).model(), old(self).model().doc, point@, text@),
    {
        self.set_message(text, MessageLevel::Info);
        self.tree_view.update_paths_after_insertion(point.as_slice());
        self.rebuild_tree_view();
        self.cursor.set_path(point);
        self.mark_dirty();
        self.checkpoint();
        self.cancel_add_operation();
        self.cancel_editing();
    }

    /// Inserts the value typed for a new member (see `add_committed`).
    #[verifier::rlimit(100)]
    pub fn commit_add_operation(&mut self, number: Option<String>) -> (res: Result<(), EditError>)
        requires
            old(self).wf(),
        ensures
            final(self).wf(),
            add_committed(old(self).model(), opt_string_view(number), final(self).model(), res),
    {
        if self.add_mode_stage != AddModeStage::AwaitingValue {
            return Err(EditError::NotAwaitingValue);
        }
        let value = match &self.edit_buffer {
            Some(text) => parse_scalar_value(text.as_str(), number),
            None => {
                return Err(EditError::NoEditBuffer);
            },
        };
        let node = JsonNode::new(value);
        let point = match &self.add_insertion_point {
            Some(p) => copy_path(p.as_slice()),
            None => {
                return Err(EditError::NoInsertionPoint);
            },
        };
        let mut parent_path = copy_path(point.as_slice());
        if parent_path.len() > 0 {
            parent_path.pop();
        }
        let kind: u8 = match self.tree.get_node(parent_path.as_slice()) {
            Some(parent) => match parent.value() {
                JsonValue::Array(_) => 1,
                JsonValue::Object(_) => 2,
                _ => 0,
            },
            None => 3,
        };
        if kind == 3 {
            return Err(EditError::ParentNotFound);
        }
        if kind == 0 {
            return Err(EditError::AddTargetNotContainer);
        }
        proof {
            reveal_strlit("Added element");
            reveal_strlit("Added field '");
            reveal_strlit("'");
        }
        if kind == 1 {
            match self.tree.insert_node_in_array(point.as_slice(), node) {
                Err(e) => {
                    return Err(EditError::Tree(e));
                },
                Ok(()) => {},
            }
            self.finish_add(point, string_of("Added element"));
        } else {
            let key = self.add_key_buffer.clone();
            match self.tree.insert_node_in_object(point.as_slice(), key, node) {
                Err(e) => {
                    return Err(EditError::Tree(e));
                },
                Ok(()) => {},
            }
            let mut text = string_of("Added field '");
            push_str(&mut text, self.add_key_buffer.as_str());
            push_str(&mut text, "'");
            self.finish_add(point, text);
        }
        Ok(())
    }

    /// Where a member added after the cursor's node goes (see `sibling_target`).
    fn find_sibling_target(&self) -> (res: (u8, Vec<usize>, String))
        requires
            cursor_index_ok(self.model()),
        ensures
            match sibling_target(self.model()) {
                AddTarget::Key(p) => res.0 == 2 && res.1@ == p,
                AddTarget::Value(p) => res.0 == 1 && res.1@ == p,
                AddTarget::Refused(t) => res.0 == 0 && res.2@ == t,
            },
    {
        proof {
            reveal_strlit("Cannot add sibling to root node");
            reveal_strlit("Invalid cursor position");
            reveal_strlit("Parent is not a container");
        }
        let path = copy_path(self.cursor.path());
        if path.len() == 0 {
            let mut p = Vec::new();
            p.push(0usize);
            return match self.tree.root().value() {
                JsonValue::Object(_) => (2, p, String::new()),
                JsonValue::Array(_) => (1, p, String::new()),
                _ => (0, p, string_of("Cannot add sibling to root node")),
            };
        }
        let mut parent_path = copy_path(path.as_slice());
        let index = parent_path.pop().unwrap();
        let mut after = copy_path(parent_path.as_slice());
        after.push(index + 1);
        match self.tree.get_node(parent_path.as_slice()) {
            Some(parent) => match parent.value() {
                JsonValue::Array(_) => (1, after, String::new()),
                JsonValue::Object(_) => (2, after, String::new()),
                _ => (0, after, string_of("Parent is not a container")),
            },
            None => (0, after, string_of("Invalid cursor position")),
        }
    }

    /// Inserts the container `c` into an array at `point` (see
    /// `array_container_added`).
    fn add_container_to_array(&mut self, point: Vec<usize>, c: JsonNode, text: String)
        requires
            old(self).wf(),
        ensures
            final(self).wf(),
            final(self).model() == array_container_added(old(self).model(), point@, c@, text@),
    {
        proof {
            reveal_strlit("Add failed: ");
        }
        match self.tree.insert_node_in_array(point.as_slice(), c) {
            Ok(()) => {
                self.tree_view.update_paths_after_insertion(point.as_slice());
                self.rebuild_tree_view();
                self.cursor.set_path(point);
                self.mark_dirty();
                self.checkpoint();
                self.set_message(text, MessageLevel::Info);
            },
            Err(e) => {
                let mut msg = string_of("Add failed: ");
                let detail = e.message();
                push_str(&mut msg, detail.as_str());
                self.set_message(msg, MessageLevel::Error);
            },
        }
    }

    /// Starts adding an empty object (or array) (see `container_add_started`).
    pub fn start_add_container_operation(&mut self, is_object: bool)
        requires
            old(self).wf(),
            cursor_index_ok(old(self).model()),
        ensures
            final(self).wf(),
            final(self).model() == container_add_started(old(self).model(), is_object),
    {
        self.clear_message();
        let container = if is_object {
            let es: Vec<(String, JsonNode)> = Vec::new();
            proof {
                crate::document::node::lemma_object_view(es);
                assert(crate::document::node::entries_model(es@) =~= Seq::empty());
            }
            JsonNode::new(JsonValue::Object(es))
        } else {
            let es: Vec<JsonNode> = Vec::new();
            proof {
                crate::document::node::lemma_array_view(es);
                assert(crate::document::node::nodes_model(es@) =~= Seq::empty());
            }
            JsonNode::new(JsonValue::Array(es))
        };
        assert(container@ == empty_container(is_object));
        let (kind, point, refusal) = self.find_sibling_target();
        if kind == 2 {
            self.begin_key_entry(point);
            self.pending_container = Some(container);
        } else if kind == 1 {
            proof {
                reveal_strlit("Added empty object");
                reveal_strlit("Added empty array");
            }
            let text = if is_object {
                string_of("Added empty object")
            } else {
                string_of("Added empty array")
            };
            self.add_container_to_array(point, container, text);
        } else {
            self.set_message(refusal, MessageLevel::Error);
        }
    }

    /// Ends the rename operation.
    pub fn cancel_rename(&mut self)
        requires
            old(self).wf(),
        ensures
            final(self).wf(),
            final(self).model() == rename_cancelled(old(self).model()),
    {
        self.is_renaming_key = false;
        self.rename_original_key = None;
        self.edit_buffer = None;
        self.edit_cursor = 0;
    }

    /// Starts renaming the key of the object member under the cursor (see
    /// `rename_started`).
    pub fn start_rename_operation(&mut self)
        requires
            old(self).wf(),
        ensures
            final(self).wf(),
            final(self).model() == rename_started(old(self).model()),
    {
        self.clear_message();
        proof {
            reveal_strlit("Cannot rename root node");
            reveal_strlit("Invalid cursor position");
            reveal_strlit("Invalid object index");
            reveal_strlit("Can only rename object keys, not array elements");
        }
        let mut parent_path = copy_path(self.cursor.path());
        if parent_path.len() == 0 {
            self.set_message(string_of("Cannot rename root node"), MessageLevel::Error);
            return;
        }
        let index = parent_path.pop().unwrap();
        let found: Option<String>;
        let refusal: String;
        match self.tree.get_node(parent_path.as_slice()) {
            None => {
                self.set_message(string_of("Invalid cursor position"), MessageLevel::Error);
                return;
            },
            Some(parent) => match parent.value() {
                JsonValue::Object(entries) => {
                    proof {
                        crate::document::node::lemma_object_view(*entries);
                    }
                    if index < entries.len() {
                        found = Some(entries[index].0.clone());
                        refusal = String::new();
                    } else {
                        found = None;
                        refusal = string_of("Invalid object index");
                    }
                },
                _ => {
                    found = None;
                    refusal = string_of("Can only rename object keys, not array elements");
                },
            },
        }
        match found {
            Some(key) => {
                self.is_renaming_key = true;
                self.rename_original_key = Some(key.clone());
                self.edit_cursor = key.unicode_len();
                self.edit_buffer = Some(key);
                self.mode = EditorMode::Insert;
                self.reset_cursor_blink();
                self.set_message(string_of("-- RENAME --"), MessageLevel::Info);
            },
            None => {
                self.set_message(refusal, MessageLevel::Error);
            },
        }
    }

    /// Renames the key of the object member under the cursor to the edit
    /// buffer (see `rename_committed`).
    #[verifier::rlimit(100)]
    pub fn commit_rename(&mut self) -> (res: Result<(), EditError>)
        requires
            old(self).wf(),
        ensures
            final(self).wf(),
            rename_committed(old(self).model(), final(self).model(), res),
    {
        let new_key = match &self.edit_buffer {
            Some(b) => b.clone(),
            None => {
                return Err(EditError::NoEditBuffer);
            },
        };
        if new_key.unicode_len() == 0 {
            return Err(EditError::EmptyKey);
        }
        let original = match &self.rename_original_key {
            Some(k) => k.clone(),
            None => {
                return Err(EditError::NoOriginalKey);
            },
        };
        if new_key == original {
            self.cancel_rename();
            return Ok(());
        }
        let mut parent_path = copy_path(self.cursor.path());
        if parent_path.len() == 0 {
            return Err(EditError::CannotRenameRoot);
        }
        let index = parent_path.pop().unwrap();
        match self.rename_in_parent(parent_path.as_slice(), index, &new_key) {
            Err(e) => {
                return Err(e);
            },
            Ok(()) => {},
        }
        self.mark_dirty();
        self.rebuild_tree_view();
        self.checkpoint();
        proof {
            reveal_strlit("Renamed '");
            reveal_strlit("' to '");
            reveal_strlit("'");
        }
        let mut text = string_of("Renamed '");
        push_str(&mut text, original.as_str());
        push_str(&mut text, "' to '");
        push_str(&mut text, new_key.as_str());
        push_str(&mut text, "'");
        self.set_message(text, MessageLevel::Info);
        self.cancel_rename();
        Ok(())
    }

    /// Replaces the key of entry `index` of the object at `parent_path` by
    /// `new_key`, refusing a key the object already has.
    fn rename_in_parent(&mut self, parent_path: &[usize], index: usize, new_key: &String) -> (res: Result<(), EditError>)
        requires
            old(self).wf(),
        ensures
            final(self).wf(),
            ({
                let m = old(self).model();
                let pp = parent_path@;
                let i = index as int;
                let marked_doc = apply_at(m.doc, pp, |x: NodeModel| crate::document::node::marked(x));
                match node_at(m.doc, pp) {
                    None => (res matches Err(e) && e@ == EditErrorModel::ParentNotFound)
                        && final(self).model() == StateModel { doc: crate::document::tree::touch(m.doc, pp), ..m },
                    Some(p) => match p.value {
                        ValueModel::Object(es) => if keys_of(es).contains(new_key@) {
                            (res matches Err(e) && e@ == EditErrorModel::DuplicateKey(new_key@))
                                && final(self).model() == StateModel { doc: marked_doc, ..m }
                        } else if i < es.len() {
                            res is Ok && final(self).model() == StateModel {
                                doc: apply_at(m.doc, pp, |x: NodeModel| renamed_entry(x, i, new_key@)),
                                ..m
                            }
                        } else {
                            (res matches Err(e) && e@ == EditErrorModel::InvalidObjectIndex)
                                && final(self).model() == StateModel { doc: marked_doc, ..m }
                        },
                        _ => (res matches Err(e) && e@ == EditErrorModel::NotAnObject)
                            && final(self).model() == StateModel { doc: marked_doc, ..m },
                    },
                }
            }),
    {
        let ghost m = self.model();
        let ghost pp = parent_path@;
        let ghost k = new_key@;
        proof {
            if node_at(m.doc, pp) is Some {
                crate::document::tree::lemma_replace_is_apply(m.doc, pp, |x: NodeModel| crate::document::node::marked(x));
                crate::document::tree::lemma_replace_is_apply(m.doc, pp, |x: NodeModel| renamed_entry(x, index as int, k));
            }
        }
        let parent = match self.tree.get_node_mut(parent_path) {
            Some(p) => p,
            None => {
                return Err(EditError::ParentNotFound);
            },
        };
        match parent.value_mut() {
            JsonValue::Object(entries) => {
                proof {
                    crate::document::node::lemma_object_view(*entries);
                }
                let ghost before = crate::document::node::entries_model(entries@);
                if object_has_key(entries, new_key) {
                    return Err(EditError::DuplicateKey(new_key.clone()));
                }
                if index < entries.len() {
                    entries[index].0 = new_key.clone();
                    proof {
                        crate::document::node::lemma_object_view(*entries);
                        assert(crate::document::node::entries_model(entries@) =~= before.update(index as int, (k, before[index as int].1)));
                    }
                    Ok(())
                } else {
                    Err(EditError::InvalidObjectIndex)
                }
            },
            _ => Err(EditError::NotAnObject),
        }
    }

    /// Inserts the container waiting for its key under the key typed
    /// (see `container_committed`).
    pub fn commit_container_add(&mut self) -> (res: Result<(), EditError>)
        requires
            old(self).wf(),
        ensures
            final(self).wf(),
            container_committed(old(self).model(), final(self).model(), res),
    {
        let container = match self.pending_container.take() {
            Some(c) => c,
            None => {
                return Err(EditError::NoContainer);
            },
        };
        let key = self.add_key_buffer.clone();
        if key.unicode_len() == 0 {
            return Err(EditError::EmptyKey);
        }
        let point = match &self.add_insertion_point {
            Some(p) => copy_path(p.as_slice()),
            None => {
                return Err(EditError::NoInsertionPoint);
            },
        };
        proof {
            reveal_strlit("object");
            reveal_strlit("array");
            reveal_strlit("container");
            reveal_strlit("Added empty ");
            reveal_strlit(" '");
            reveal_strlit("'");
        }
        let word = match container.value() {
            JsonValue::Object(_) => string_of("object"),
            JsonValue::Array(_) => string_of("array"),
            _ => string_of("container"),
        };
        match self.tree.insert_node_in_object(point.as_slice(), key, container) {
            Err(e) => {
                return Err(EditError::Tree(e));
            },
            Ok(()) => {},
        }
        self.tree_view.update_paths_after_insertion(point.as_slice());
        self.rebuild_tree_view();
        self.cursor.set_path(point);
        self.mark_dirty();
        self.checkpoint();
        let mut text = string_of("Added empty ");
        push_str(&mut text, word.as_str());
        push_str(&mut text, " '");
        push_str(&mut text, self.add_key_buffer.as_str());
        push_str(&mut text, "'");
        self.set_message(text, MessageLevel::Info);
        self.cancel_add_operation();
        Ok(())
    }

    /// Searches every node of the document, collapsed ones included, for
    /// the query, case-insensitively (see `line_matches`), and moves the
    /// cursor to the first match, expanding the nodes above it. An empty
    /// query does nothing.
    pub fn execute_search(&mut self)
        requires
            old(self).wf(),
        ensures
            final(self).wf(),
            final(self).model() == search_effect(old(self).model()),
    {
        if self.search_buffer.unicode_len() == 0 {
            return;
        }
        let query = to_lowercase(self.search_buffer.as_str());
        let all = TreeViewState::all_lines(&self.tree);
        let lines = all.as_slice();
        let ghost lm = lines_model(lines@);
        let n = lines.len();
        let mut results: Vec<Vec<usize>> = Vec::new();
        for i in 0..n
            invariant
                n == lines@.len(),
                lm == lines_model(lines@),
                paths_model(results@) == search_hits(lm, query@, i as nat),
        {
            let line = &lines[i];
            let mut matches = false;
            if let Some(key) = &line.key {
                let lowered = to_lowercase(key.as_str());
                if str_contains(lowered.as_str(), query.as_str()) {
                    matches = true;
                }
            }
            if line.value_type == ValueType::String {
                let lowered = to_lowercase(line.value_preview.as_str());
                if str_contains(lowered.as_str(), query.as_str()) {
                    matches = true;
                }
            }
            assert(lm[i as int] == line@);
            assert(matches == line_matches(lm[i as int], query@));
            let ghost before = paths_model(results@);
            if matches {
                results.push(copy_path(line.path.as_slice()));
                assert(paths_model(results@) =~= before.push(lm[i as int].path));
            }
        }
        self.search_results = results;
        self.search_index = 0;
        if self.search_results.len() > 0 {
            let p = copy_path(self.search_results[0].as_slice());
            self.show_result(p);
        }
    }

    /// Moves the cursor to the next search match, wrapping around to the
    /// first; false when there are no matches.
    pub fn next_search_result(&mut self) -> (res: bool)
        requires
            old(self).wf(),
        ensures
            final(self).wf(),
            (final(self).model(), res) == next_match_result(old(self).model()),
    {
        let n = self.search_results.len();
        if n == 0 {
            return false;
        }
        self.search_index = (self.search_index + 1) % n;
        let p = copy_path(self.search_results[self.search_index].as_slice());
        self.show_result(p);
        true
    }

    /// Puts the cursor on `p`, expanding the nodes above it so that it shows.
    fn show_result(&mut self, p: Vec<usize>)
        requires
            old(self).wf(),
        ensures
            final(self).wf(),
            final(self).model() == revealed(old(self).model(), p@),
    {
        self.tree_view.show_path(p.as_slice());
        self.tree_view.rebuild(&self.tree);
        self.cursor.set_path(p);
    }
}

/// Whether an object has a member with key `key`.
fn object_has_key(entries: &Vec<(String, JsonNode)>, key: &String) -> (res: bool)
    ensures
        res == keys_of(crate::document::node::entries_model(entries@)).contains(key@),
{
    let ghost ks = keys_of(crate::document::node::entries_model(entries@));
    let n = entries.len();
    for i in 0..n
        invariant
            n == entries@.len(),
            ks == keys_of(crate::document::node::entries_model(entries@)),
            forall|j: int| 0 <= j < i ==> ks[j] != key@,
    {
        assert(ks[i as int] == entries@[i as int].0@);
        if entries[i].0 == *key {
            return true;
        }
    }
    false
}

/// The key a node pasted into an object with `entries` gets (see `unique_key`).
fn choose_paste_key(base: &String, entries: &Vec<(String, JsonNode)>) -> (res: String)
    ensures
        res@ == unique_key(base@, keys_of(crate::document::node::entries_model(entries@))),
{
    let ghost ks = keys_of(crate::document::node::entries_model(entries@));
    let len = entries.len();
    let mut counter: u128 = 1;
    loop
        invariant
            ks == keys_of(crate::document::node::entries_model(entries@)),
            ks.len() == len,
            1 <= counter <= ks.len() + 1,
            forall|n: nat| 1 <= n < counter ==> ks.contains(#[trigger] key_candidate(base@, n)),
            first_free_key(base@, ks, 1) == first_free_key(base@, ks, counter as nat),
        decreases ks.len() + 1 - counter,
    {
        let mut candidate = base.clone();
        if counter > 1 {
            push_decimal_wide(&mut candidate, counter);
        }
        assert(candidate@ =~= key_candidate(base@, counter as nat));
        if !object_has_key(entries, &candidate) {
            return candidate;
        }
        proof {
            lemma_candidates_bounded(base@, ks, counter as nat);
        }
        counter = counter + 1;
    }

}

/// The position of the first line with path `path`.
pub fn find_line(lines: &[crate::ui::tree_view::TreeViewLine], path: &[usize]) -> (res: Option<usize>)
    ensures
        match (res, line_index(lines_model(lines@), path@)) {
            (Some(i), Some(j)) => i == j && j < lines@.len(),
            (None, None) => true,
            _ => false,
        },
{
    let n = lines.len();
    let ghost lm = lines_model(lines@);
    for i in 0..n
        invariant
            n == lines@.len(),
            lm == lines_model(lines@),
            line_index(lm, path@) == line_index_from(lm, path@, i as nat),
    {
        assert(lm[i as int].path == lines@[i as int].path@);
        if paths_equal(lines[i].path.as_slice(), path) {
            return Some(i);
        }
    }
    None
}

/// Every edit recorded in the history (a deletion, a paste, a changed or
/// added value: see `after_edit`) is undone by one undo, which gives back
/// the document and cursor recorded before it, and redone by the redo that
/// follows. (The history must have room for one more state and keep at
/// least one undo step.)
pub proof fn law_edit_undo_redo(m: StateModel, doc: NodeModel, cursor: Seq<usize>)
    requires
        m.history.snapshots.len() < usize::MAX,
        m.history.parents.len() == m.history.snapshots.len(),
        m.history.children.len() == m.history.snapshots.len(),
        m.history.current < m.history.snapshots.len(),
        m.history.limit >= 1,
    ensures
        ({
            let (m2, undone) = undo_result(after_edit(m, doc, cursor));
            let (m3, redone) = redo_result(m2);
            &&& undone
            &&& m2.doc == m.history.snapshots[m.history.current as int].tree
            &&& m2.cursor == m.history.snapshots[m.history.current as int].cursor
            &&& redone
            &&& m3.doc == doc
            &&& m3.cursor == cursor
        }),
{
    let h = m.history;
    let cur = h.current as usize;
    crate::editor::undo::law_checkpoint_then_undo(h.parents, cur, h.limit);
    let h2 = after_edit(m, doc, cursor).history;
    assert(h2.parents[h2.current as int] == Some(cur));
    assert(h2.snapshots[cur as int] == h.snapshots[cur as int]);
    assert(h2.children[cur as int] == h.children[cur as int].push(h.snapshots.len() as usize));
}

/// The nodes of yanked items.
pub open spec fn item_nodes(items: Seq<(Option<Seq<char>>, NodeModel)>) -> Seq<NodeModel> {
    items.map_values(|e: (Option<Seq<char>>, NodeModel)| e.1)
}

/// Pasting items into an array from a position inside it or at its end
/// succeeds, and the array gains their nodes there, in order.
proof fn lemma_paste_into_array(doc: NodeModel, pp: Seq<usize>, idx: nat, items: Seq<(Option<Seq<char>>, NodeModel)>)
    requires
        node_at(doc, pp) matches Some(p) && p.value is Array,
        idx <= node_at(doc, pp)->0.value->Array_0.len(),
        idx + items.len() <= usize::MAX + 1,
    ensures
        ({
            let (d, r) = paste_items(doc, pp, idx, items);
            let p = node_at(doc, pp)->0;
            let a = p.value->Array_0;
            &&& r is Ok
            &&& node_at(d, pp) is Some
            &&& node_at(d, pp)->0.value == ValueModel::Array(a.subrange(0, idx as int) + item_nodes(items) + a.subrange(idx as int, a.len() as int))
            &&& node_at(d, pp)->0.original_text == p.original_text
            &&& items.len() > 0 ==> node_at(d, pp)->0.modified
        }),
    decreases items.len(),
{
    let p = node_at(doc, pp)->0;
    let a = p.value->Array_0;
    if items.len() == 0 {
        assert(a.subrange(0, idx as int) + item_nodes(items) + a.subrange(idx as int, a.len() as int) =~= a);
    } else {
        let c = items[0].1;
        let path = pp.push(idx as usize);
        assert(path.drop_last() =~= pp);
        let f = |m: NodeModel| crate::document::tree::after_array_insert(m, path.last() as int, c);
        crate::document::tree::lemma_node_at_apply(doc, pp, f);
        let (d1, r1) = paste_one(doc, pp, idx as usize, items[0]);
        assert(r1 is Ok);
        let a1 = a.insert(idx as int, c);
        assert(node_at(d1, pp)->0.value == ValueModel::Array(a1));
        let rest = items.drop_first();
        lemma_paste_into_array(d1, pp, idx + 1, rest);
        assert(item_nodes(items) =~= seq![c] + item_nodes(rest));
        assert(a1.subrange(0, idx + 1int) + item_nodes(rest) + a1.subrange(idx + 1int, a1.len() as int)
            =~= a.subrange(0, idx as int) + item_nodes(items) + a.subrange(idx as int, a.len() as int));
    }
}

/// Pasting after an element of an array puts the yanked nodes right after
/// it, in order, the rest of the array as it was around them; the cursor
/// moves to the first of them, the document is dirty and the clipboard
/// keeps them.
pub proof fn law_paste_after_puts_clipboard_next(st: StateModel)
    requires
        st.clipboard.len() > 0,
        st.cursor.len() > 0,
        paste_fits(st, true),
        node_at(st.doc, st.cursor.drop_last()) matches Some(p) && p.value is Array,
        (st.cursor.last() as int) < node_at(st.doc, st.cursor.drop_last())->0.value->Array_0.len(),
    ensures
        ({
            let pp = st.cursor.drop_last();
            let i = st.cursor.last() + 1;
            let p = node_at(st.doc, pp)->0;
            let a = p.value->Array_0;
            let (st2, r) = paste_result(st, true);
            &&& r is Ok
            &&& node_at(st2.doc, pp) == Some(NodeModel {
                value: ValueModel::Array(a.subrange(0, i) + item_nodes(st.clipboard) + a.subrange(i, a.len() as int)),
                modified: true,
                original_text: p.original_text,
            })
            &&& forall|j: int| 0 <= j < st.clipboard.len() ==> node_at(st2.doc, #[trigger] pp.push((i + j) as usize)) == Some(st.clipboard[j].1)
            &&& st2.cursor == pp.push(i as usize)
            &&& st2.dirty
            &&& st2.clipboard == st.clipboard
        }),
{
    let pp = st.cursor.drop_last();
    let i = st.cursor.last() + 1;
    lemma_paste_into_array(st.doc, pp, i as nat, st.clipboard);
    let (d, r) = paste_items(st.doc, pp, i as nat, st.clipboard);
    let a = node_at(st.doc, pp)->0.value->Array_0;
    let b = a.subrange(0, i) + item_nodes(st.clipboard) + a.subrange(i, a.len() as int);
    assert forall|j: int| 0 <= j < st.clipboard.len() implies node_at(d, #[trigger] pp.push((i + j) as usize)) == Some(st.clipboard[j].1) by {
        let q = pp.push((i + j) as usize);
        assert(b[i + j] == st.clipboard[j].1);
        crate::document::tree::lemma_node_at_extend(d, pp, (i + j) as usize);
    }
}

/// Starting to add an empty container leaves the clipboard, and so what
/// `p` and `P` paste, as it was.
pub proof fn law_container_add_keeps_clipboard(m: StateModel, is_object: bool)
    ensures
        container_add_started(m, is_object).clipboard == m.clipboard,
{
}

/// Deleting the node under the cursor succeeds when there is one (and it
/// is not a line of a JSON Lines document, whose root refuses deletion):
/// the document loses that node, is dirty, and the cursor goes to the line
/// now at its old line's position (the last line if that is gone, the
/// root when no line is left).
pub proof fn law_delete_at_cursor(m: StateModel)
    requires
        m.cursor.len() > 0,
        node_at(m.doc, m.cursor) is Some,
        !(node_at(m.doc, m.cursor.drop_last())->0.value is JsonlRoot),
    ensures
        ({
            let (m2, r) = delete_result(m);
            &&& r is Ok
            &&& m2.doc == deletion(m.doc, m.cursor).0
            &&& m2.dirty
            &&& m2.cursor == cursor_after_delete(m.lines, m2.lines, m.cursor)
            &&& m2.lines.len() == 0 ==> m2.cursor == Seq::<usize>::empty()
            &&& (m2.lines.len() > 0 && line_index(m.lines, m.cursor) is Some) ==> m2.cursor == m2.lines[
                if line_index(m.lines, m.cursor)->0 < m2.lines.len() { line_index(m.lines, m.cursor)->0 as int } else { m2.lines.len() - 1 }
            ].path
            &&& m2.clipboard == m.clipboard
        }),
{
    crate::document::tree::lemma_node_at_parent(m.doc, m.cursor);
    crate::document::tree::law_deletion_characterised(m.doc, m.cursor);
    let p = node_at(m.doc, m.cursor.drop_last())->0;
    if p.value is Object {
        assert(p.value.children().len() == p.value->Object_0.len());
    }
}

/// Deleting when the cursor is on the root or on no node fails and leaves
/// the cursor, the lines, the dirty flag and the history as they were; the
/// document changes only in modification marks on the way down.
pub proof fn law_delete_at_cursor_fails(m: StateModel)
    requires
        m.cursor.len() == 0 || node_at(m.doc, m.cursor) is None,
    ensures
        ({
            let (m2, r) = delete_result(m);
            &&& r is Err
            &&& m2 == StateModel { doc: deletion(m.doc, m.cursor).0, ..m }
            &&& m.cursor.len() == 0 ==> m2.doc == m.doc
            &&& (m.cursor.len() > 0 && node_at(m.doc, m.cursor.drop_last()) is Some) ==>
                node_at(m2.doc, m.cursor.drop_last()) == Some(crate::document::node::marked(node_at(m.doc, m.cursor.drop_last())->0))
        }),
{
    crate::document::tree::law_deletion_characterised(m.doc, m.cursor);
    if m.cursor.len() > 0 {
        let pp = m.cursor.drop_last();
        if node_at(m.doc, pp) is Some {
            crate::document::tree::lemma_node_at_extend(m.doc, pp, m.cursor.last());
            assert(pp.push(m.cursor.last()) =~= m.cursor);
        }
    }
}

/// After scrolling, the cursor's line is inside the viewport; the view
/// does not move when it already was, and otherwise moves just far enough
/// to bring it to the nearer edge. Nothing but the scroll position and the
/// viewport height changes.
pub proof fn law_scroll_shows_cursor(m: StateModel, h: nat)
    requires
        h > 0,
        m.lines.len() > 0,
    ensures
        ({
            let m2 = scrolled(m, h);
            let c = cursor_line(m);
            &&& m2.scroll <= c < m2.scroll + h
            &&& (m.scroll <= c < m.scroll + h) ==> m2.scroll == m.scroll
            &&& c < m.scroll ==> m2.scroll == c
            &&& c >= m.scroll + h ==> m2.scroll == c + 1 - h
            &&& m2 == (StateModel { scroll: m2.scroll, viewport: h, ..m })
        }),
{
}

/// The search for a free key from candidate `n` on, when every candidate
/// before `n` is taken, ends on the first candidate that is free.
proof fn lemma_first_free(base: Seq<char>, keys: Seq<Seq<char>>, n: nat)
    requires
        n >= 1,
        forall|k: nat| 1 <= k < n ==> keys.contains(#[trigger] key_candidate(base, k)),
    ensures
        first_free_key(base, keys, n) >= n,
        !keys.contains(key_candidate(base, first_free_key(base, keys, n))),
        forall|k: nat| 1 <= k < first_free_key(base, keys, n) ==> keys.contains(#[trigger] key_candidate(base, k)),
    decreases keys.len() + 1 - n,
{
    if n > keys.len() || !keys.contains(key_candidate(base, n)) {
        if keys.contains(key_candidate(base, n)) {
            assert forall|k: nat| 1 <= k <= n implies keys.contains(#[trigger] key_candidate(base, k)) by {}
            lemma_candidates_bounded(base, keys, n);
        }
    } else {
        assert forall|k: nat| 1 <= k < n + 1 implies keys.contains(#[trigger] key_candidate(base, k)) by {}
        lemma_first_free(base, keys, n + 1);
    }
}

/// A node pasted into an object gets a key that the object does not have
/// yet: its own key when that is free, else the first free one of `base2`,
/// `base3`, ...
pub proof fn law_paste_key_is_fresh(base: Seq<char>, keys: Seq<Seq<char>>)
    ensures
        !keys.contains(unique_key(base, keys)),
        !keys.contains(base) ==> unique_key(base, keys) == base,
        forall|k: nat| 1 <= k < first_free_key(base, keys, 1) ==> keys.contains(#[trigger] key_candidate(base, k)),
        first_free_key(base, keys, 1) >= 1,
{
    lemma_first_free(base, keys, 1);
}

/// Pasting one yanked node after a member of an object puts it right
/// after that member, under its own key made unique (see `unique_key`), the
/// other members as they were; when the object's keys were distinct, they
/// stay distinct. The cursor moves to the new member.
pub proof fn law_paste_into_object(st: StateModel)
    requires
        st.clipboard.len() == 1,
        st.cursor.len() > 0,
        paste_fits(st, true),
        node_at(st.doc, st.cursor.drop_last()) matches Some(p) && p.value is Object,
        (st.cursor.last() as int) < node_at(st.doc, st.cursor.drop_last())->0.value->Object_0.len(),
    ensures
        ({
            let pp = st.cursor.drop_last();
            let i = st.cursor.last() + 1;
            let es = node_at(st.doc, pp)->0.value->Object_0;
            let key = unique_key(paste_base(st.clipboard[0].0), keys_of(es));
            let (st2, r) = paste_result(st, true);
            let es2 = node_at(st2.doc, pp)->0.value->Object_0;
            &&& r is Ok
            &&& node_at(st2.doc, pp) is Some
            &&& node_at(st2.doc, pp)->0.value == ValueModel::Object(es.insert(i, (key, st.clipboard[0].1)))
            &&& !keys_of(es).contains(key)
            &&& keys_of(es).no_duplicates() ==> keys_of(es2).no_duplicates()
            &&& st2.cursor == pp.push(i as usize)
            &&& st2.dirty
        }),
{
    let pp = st.cursor.drop_last();
    let i = st.cursor.last() + 1;
    let p = node_at(st.doc, pp)->0;
    let es = p.value->Object_0;
    let item = st.clipboard[0];
    let key = unique_key(paste_base(item.0), keys_of(es));
    law_paste_key_is_fresh(paste_base(item.0), keys_of(es));
    let path = pp.push(i as usize);
    assert(path.drop_last() =~= pp);
    let f = |m: NodeModel| crate::document::tree::after_object_insert(m, path.last() as int, key, item.1);
    crate::document::tree::lemma_node_at_apply(st.doc, pp, f);
    let (d1, r1) = paste_one(st.doc, pp, i as usize, item);
    assert(r1 is Ok);
    assert(st.clipboard.drop_first() =~= Seq::<(Option<Seq<char>>, NodeModel)>::empty());
    assert(paste_items(d1, pp, (i + 1) as nat, st.clipboard.drop_first()) == (d1, Ok::<(), EditErrorModel>(())));
    assert(st.clipboard[0] == item);
    assert(((i as nat) as usize) == (i as usize));
    assert(paste_items(st.doc, pp, i as nat, st.clipboard) == (d1, Ok::<(), EditErrorModel>(())));
    let es2 = es.insert(i, (key, item.1));
    assert(node_at(d1, pp) == Some(f(p)));
    assert(f(p).value == ValueModel::Object(es2));
    let (st2, r) = paste_result(st, true);
    assert(st2.doc == d1);
    let ks = keys_of(es);
    let ks2 = keys_of(es2);
    assert(ks2 =~= ks.insert(i, key));
    if ks.no_duplicates() {
        assert forall|a: int, b: int| 0 <= a < ks2.len() && 0 <= b < ks2.len() && a != b implies ks2[a] != ks2[b] by {
            if a == i {
                assert(ks.contains(ks2[b]) ==> ks2[b] != key);
                if b < i {
                    assert(ks2[b] == ks[b]);
                } else {
                    assert(ks2[b] == ks[b - 1]);
                }
            } else if b == i {
                if a < i {
                    assert(ks2[a] == ks[a]);
                } else {
                    assert(ks2[a] == ks[a - 1]);
                }
            } else {
                let a0 = if a < i { a } else { a - 1 };
                let b0 = if b < i { b } else { b - 1 };
                assert(ks2[a] == ks[a0]);
                assert(ks2[b] == ks[b0]);
            }
        }
    }
}

/// A fresh editor has nothing to undo; after its first edit (any change
/// recorded through `after_edit`, whatever else changed before it but the
/// history), one undo gives back the document and cursor it started with,
/// and the redo that follows gives back the edit.
pub proof fn law_undo_first_edit(doc: NodeModel, m: StateModel, d: NodeModel, c: Seq<usize>)
    requires
        m.history == fresh_state(doc).history,
    ensures
        undo_result(fresh_state(doc)) == (fresh_state(doc), false),
        ({
            let (m2, undone) = undo_result(after_edit(m, d, c));
            let (m3, redone) = redo_result(m2);
            &&& undone
            &&& m2.doc == doc
            &&& m2.cursor == fresh_state(doc).cursor
            &&& redone
            &&& m3.doc == d
            &&& m3.cursor == c
        }),
{
    law_edit_undo_redo(m, d, c);
}

/// Committing `true` or `false` on a boolean node succeeds and leaves the
/// node holding that boolean, whatever it held before; committing any
/// other text but `null` there is refused and changes nothing.
pub proof fn law_commit_boolean(m: StateModel, number: Option<Seq<char>>, text: Seq<char>)
    requires
        m.edit == Some(text),
        node_at(m.doc, m.cursor) matches Some(n) && n.value is Boolean,
    ensures
        ({
            let n = node_at(m.doc, m.cursor)->0;
            let (m2, r) = commit_result(m, number);
            &&& (text == "true"@ || text == "false"@) ==> {
                &&& r is Ok
                &&& node_at(m2.doc, m.cursor) == Some(NodeModel {
                    value: ValueModel::Boolean(text == "true"@),
                    modified: true,
                    original_text: n.original_text,
                })
                &&& m2.edit is None
                &&& m2.dirty
            }
            &&& (text != "true"@ && text != "false"@ && text != "null"@) ==> (r is Err && m2 == m)
        }),
{
    reveal_strlit("true");
    reveal_strlit("false");
    reveal_strlit("null");
    let n = node_at(m.doc, m.cursor)->0;
    if text == "true"@ || text == "false"@ {
        assert("null"@[0] == 'n' && "null"@.len() == 4);
        if text == "true"@ {
            assert(text[0] == 't');
        } else {
            assert(text.len() == 5);
            assert(text != "true"@);
        }
        assert(text != "null"@);
        let v = ValueModel::Boolean(text == "true"@);
        assert(committed_value(n.value, text, number) == Ok::<ValueModel, EditErrorModel>(v));
        crate::document::tree::lemma_node_at_apply(m.doc, m.cursor, set_value(v));
    }
}

/// Committing text on a string node succeeds and leaves the node holding
/// exactly that text (the text `null` makes it null).
pub proof fn law_commit_string(m: StateModel, number: Option<Seq<char>>, text: Seq<char>)
    requires
        m.edit == Some(text),
        node_at(m.doc, m.cursor) matches Some(n) && n.value is Str,
    ensures
        ({
            let n = node_at(m.doc, m.cursor)->0;
            let (m2, r) = commit_result(m, number);
            &&& r is Ok
            &&& node_at(m2.doc, m.cursor) == Some(NodeModel {
                value: if text == "null"@ { ValueModel::Null } else { ValueModel::Str(text) },
                modified: true,
                original_text: n.original_text,
            })
            &&& m2.edit is None
            &&& m2.dirty
        }),
{
    let n = node_at(m.doc, m.cursor)->0;
    let v = if text == "null"@ { ValueModel::Null } else { ValueModel::Str(text) };
    crate::document::tree::lemma_node_at_apply(m.doc, m.cursor, set_value(v));
}

/// A half page down on a non-empty view moves the cursor down by half the
/// viewport (to the last line at most) and keeps a visible cursor visible;
/// the lines and the document stay as they are.
pub proof fn law_page_down_moves_cursor(m: StateModel)
    requires
        m.viewport > 0,
        m.lines.len() > 0,
        cursor_line(m) < m.lines.len(),
    ensures
        ({
            let m2 = page_down_effect(m);
            let c = cursor_line(m);
            let t: int = if c + m.viewport / 2 < m.lines.len() { (c + m.viewport / 2) as int } else { m.lines.len() - 1 };
            &&& m2.cursor == m.lines[t].path
            &&& t >= c
            &&& (c + 1 < m.lines.len() && m.viewport >= 2) ==> t > c
            &&& m2.lines == m.lines
            &&& m2.doc == m.doc
            &&& (m.scroll <= c < m.scroll + m.viewport) ==> (m2.scroll <= t < m2.scroll + m.viewport)
        }),
{
}

/// A half page up on a non-empty view moves the cursor up by half the
/// viewport (to the first line at most) and keeps a visible cursor visible;
/// the lines and the document stay as they are.
pub proof fn law_page_up_moves_cursor(m: StateModel)
    requires
        m.viewport > 0,
        m.lines.len() > 0,
        cursor_line(m) < m.lines.len(),
    ensures
        ({
            let m2 = page_up_effect(m);
            let c = cursor_line(m);
            let t: int = if c >= m.viewport / 2 { c - m.viewport / 2 } else { 0 };
            &&& m2.cursor == m.lines[t].path
            &&& t <= c
            &&& (c > 0 && m.viewport >= 2) ==> t < c
            &&& m2.lines == m.lines
            &&& m2.doc == m.doc
            &&& (m.scroll <= c < m.scroll + m.viewport) ==> (m2.scroll <= t < m2.scroll + m.viewport)
        }),
{
}

/// Whether no two lines share a path (true of the lines a view shows:
/// see `law_view_lines_in_order`).
pub open spec fn distinct_paths(lines: Seq<LineModel>) -> bool {
    forall|a: int, b: int| 0 <= a < lines.len() && 0 <= b < lines.len() && a != b ==> lines[a].path != lines[b].path
}

/// Among lines with distinct paths, the path of line `k` is found at `k`.
pub proof fn lemma_line_index_of(lines: Seq<LineModel>, k: int, i: nat)
    requires
        distinct_paths(lines),
        0 <= i <= k < lines.len(),
    ensures
        line_index_from(lines, lines[k].path, i) == Some(k as nat),
    decreases k - i,
{
    if i < k {
        lemma_line_index_of(lines, k, i + 1);
    }
}

/// Moving down goes to the next line, and moving up from there comes back
/// to where the cursor was; on the last line moving down, and on the first
/// line moving up, changes nothing.
pub proof fn law_down_then_up(m: StateModel)
    requires
        distinct_paths(m.lines),
        line_index(m.lines, m.cursor) is Some,
    ensures
        ({
            let i = line_index(m.lines, m.cursor)->0 as int;
            let d = cursor_down_effect(m);
            let u = cursor_up_effect(m);
            &&& i + 1 < m.lines.len() ==> d.cursor == m.lines[i + 1].path && cursor_line(d) == i + 1
                && cursor_up_effect(d) == m
            &&& i + 1 == m.lines.len() ==> d == m
            &&& i > 0 ==> u.cursor == m.lines[i - 1].path && cursor_line(u) == i - 1 && cursor_down_effect(u) == m
            &&& i == 0 ==> u == m
        }),
{
    let i = line_index(m.lines, m.cursor)->0 as int;
    lemma_line_index_bounds(m.lines, m.cursor, 0);
    assert(m.lines[i].path == m.cursor);
    if i + 1 < m.lines.len() {
        lemma_line_index_of(m.lines, i + 1, 0);
        let d = cursor_down_effect(m);
        assert(cursor_up_effect(d) == StateModel { cursor: m.lines[i].path, ..d });
    }
    if i > 0 {
        lemma_line_index_of(m.lines, i - 1, 0);
        let u = cursor_up_effect(m);
        assert(cursor_down_effect(u) == StateModel { cursor: m.lines[i].path, ..u });
    }
}

/// A found line index is inside the lines, and the line there has the path.
pub proof fn lemma_line_index_bounds(lines: Seq<LineModel>, p: Seq<usize>, i: nat)
    ensures
        line_index_from(lines, p, i) matches Some(k) ==> i <= k < lines.len() && lines[k as int].path == p,
    decreases lines.len() - i,
{
    if i < lines.len() && lines[i as int].path != p {
        lemma_line_index_bounds(lines, p, i + 1);
    }
}

/// Going to the top puts the cursor on the first line and scrolls to the
/// top; going to the bottom puts it on the last line; going to line `k`
/// (from one) puts it on that line when there is one and otherwise
/// changes nothing.
pub proof fn law_jumps(m: StateModel, k: int)
    requires
        m.lines.len() > 0,
    ensures
        top_effect(m).cursor == m.lines[0].path && top_effect(m).scroll == 0,
        bottom_effect(m).cursor == m.lines[m.lines.len() - 1].path,
        1 <= k <= m.lines.len() ==> line_effect(m, k).cursor == m.lines[k - 1].path,
        !(1 <= k <= m.lines.len()) ==> line_effect(m, k) == m,
        distinct_paths(m.lines) ==> cursor_line(top_effect(m)) == 0 && cursor_line(bottom_effect(m)) == m.lines.len() - 1,
{
    if distinct_paths(m.lines) {
        lemma_line_index_of(m.lines, 0, 0);
        lemma_line_index_of(m.lines, m.lines.len() - 1, 0);
    }
}

/// Starting to edit a scalar and committing its text unchanged gives the
/// node back its value (a number when its text reads back as itself; a
/// string other than the text `null`).
pub proof fn law_edit_round_trip(m: StateModel, number: Option<Seq<char>>)
    requires
        node_at(m.doc, m.cursor) matches Some(n) && !n.value.is_container(),
        node_at(m.doc, m.cursor)->0.value matches ValueModel::Str(s) ==> s != "null"@,
        node_at(m.doc, m.cursor)->0.value matches ValueModel::Number(t) ==> number == Some(t) && trim(t) == t && t != "null"@,
    ensures
        ({
            let n = node_at(m.doc, m.cursor)->0;
            let (m2, r) = commit_result(start_edit_effect(m), number);
            &&& r is Ok
            &&& node_at(m2.doc, m.cursor) == Some(NodeModel { value: n.value, modified: true, original_text: n.original_text })
            &&& m2.edit is None
        }),
{
    reveal_strlit("true");
    reveal_strlit("false");
    reveal_strlit("null");
    let n = node_at(m.doc, m.cursor)->0;
    let m1 = start_edit_effect(m);
    let text = edit_text(n.value);
    assert("null"@[0] == 'n' && "null"@.len() == 4);
    match n.value {
        ValueModel::Boolean(b) => {
            if b {
                assert(text[0] == 't');
            } else {
                assert(text.len() == 5);
                assert(text != "true"@);
            }
        },
        _ => {},
    }
    assert(committed_value(n.value, text, number) == Ok::<ValueModel, EditErrorModel>(n.value));
    crate::document::tree::lemma_node_at_apply(m.doc, m.cursor, set_value(n.value));
}

/// Committing a number needs text that reads as one, with no white space
/// around it: then the node holds the number's text; otherwise the commit
/// is refused and nothing changes. The text `null` makes any scalar null;
/// containers cannot be edited.
pub proof fn law_commit_number_null_container(m: StateModel, number: Option<Seq<char>>, text: Seq<char>)
    requires
        m.edit == Some(text),
        node_at(m.doc, m.cursor) is Some,
    ensures
        ({
            let n = node_at(m.doc, m.cursor)->0;
            let (m2, r) = commit_result(m, number);
            &&& (n.value is Number && text != "null"@) ==> (
                (number is Some && trim(text) == text) ==> (r is Ok && node_at(m2.doc, m.cursor)->0.value == ValueModel::Number(number->0)))
            &&& (n.value is Number && text != "null"@ && (number is None || trim(text) != text)) ==> (r == Err::<(), EditErrorModel>(EditErrorModel::InvalidNumber) && m2 == m)
            &&& (text == "null"@ && !n.value.is_container()) ==> (r is Ok && node_at(m2.doc, m.cursor)->0.value == ValueModel::Null)
            &&& (n.value.is_container() && text != "null"@) ==> (r == Err::<(), EditErrorModel>(EditErrorModel::CannotEditContainer) && m2 == m)
        }),
{
    let n = node_at(m.doc, m.cursor)->0;
    match committed_value(n.value, text, number) {
        Ok(v) => {
            crate::document::tree::lemma_node_at_apply(m.doc, m.cursor, set_value(v));
        },
        Err(_) => {},
    }
}

/// Typing a character puts it at the edit cursor, which moves past it;
/// Backspace right after takes it out again, and Delete after moving left
/// over it does too: the text and the edit cursor are as before.
pub proof fn law_type_then_erase(m: StateModel, ch: char)
    requires
        m.edit is Some,
        m.edit_cursor <= m.edit->0.len(),
    ensures
        ({
            let b = m.edit->0;
            let t = edit_insert_effect(m, ch);
            &&& t.edit == Some(b.subrange(0, m.edit_cursor as int) + seq![ch] + b.subrange(m.edit_cursor as int, b.len() as int))
            &&& t.edit_cursor == m.edit_cursor + 1
            &&& edit_backspace_effect(t) == blink_reset(m)
            &&& edit_delete_effect(edit_left_effect(t)) == blink_reset(m)
        }),
{
    let b = m.edit->0;
    let i = m.edit_cursor as int;
    assert(b.insert(i, ch) =~= b.subrange(0, i) + seq![ch] + b.subrange(i, b.len() as int));
    assert(b.insert(i, ch).remove(i) =~= b);
}

/// Moving the edit cursor left then right, or right then left, from inside
/// the text, brings it back; Home and End go to the ends.
pub proof fn law_edit_cursor_moves(m: StateModel)
    requires
        m.edit is Some,
        m.edit_cursor <= m.edit->0.len(),
    ensures
        m.edit_cursor > 0 ==> edit_right_effect(edit_left_effect(m)) == blink_reset(m),
        m.edit_cursor < m.edit->0.len() ==> edit_left_effect(edit_right_effect(m)) == blink_reset(m),
        edit_end_effect(m).edit_cursor == m.edit->0.len(),
        edit_end_effect(m).edit == m.edit,
{
}

/// The search hits among the first `k` lines are the paths of the lines
/// whose key, or whose string value, holds the query once lower-cased:
/// every such line is a hit and every hit is such a line.
pub proof fn law_search_hits_are_matches(lines: Seq<LineModel>, q: Seq<char>, k: nat)
    requires
        k <= lines.len(),
    ensures
        forall|j: int| 0 <= j < k && ((lines[j].key is Some && contains_sub(lowercase(lines[j].key->0), q))
            || (lines[j].value_type == ValueType::String && contains_sub(lowercase(lines[j].preview), q)))
            ==> #[trigger] search_hits(lines, q, k).contains(lines[j].path),
        forall|h: int| 0 <= h < search_hits(lines, q, k).len() ==> exists|j: int| 0 <= j < k
            && lines[j].path == #[trigger] search_hits(lines, q, k)[h]
            && ((lines[j].key is Some && contains_sub(lowercase(lines[j].key->0), q))
                || (lines[j].value_type == ValueType::String && contains_sub(lowercase(lines[j].preview), q))),
    decreases k,
{
    if k > 0 {
        law_search_hits_are_matches(lines, q, (k - 1) as nat);
        let prev = search_hits(lines, q, (k - 1) as nat);
        let cur = search_hits(lines, q, k);
        let l = lines[k - 1];
        if line_matches(l, q) {
            assert(cur == prev.push(l.path));
            assert(cur[prev.len() as int] == l.path);
            assert forall|j: int| 0 <= j < k && ((lines[j].key is Some && contains_sub(lowercase(lines[j].key->0), q))
                || (lines[j].value_type == ValueType::String && contains_sub(lowercase(lines[j].preview), q)))
                implies #[trigger] cur.contains(lines[j].path) by {
                if j < k - 1 {
                    assert(search_hits(lines, q, (k - 1) as nat).contains(lines[j].path));
                    let x = choose|x: int| 0 <= x < prev.len() && prev[x] == lines[j].path;
                    assert(cur[x] == lines[j].path);
                } else {
                    assert(cur[prev.len() as int] == lines[j].path);
                }
            }
            assert forall|h: int| 0 <= h < cur.len() implies exists|j: int| 0 <= j < k
                && lines[j].path == #[trigger] cur[h]
                && ((lines[j].key is Some && contains_sub(lowercase(lines[j].key->0), q))
                    || (lines[j].value_type == ValueType::String && contains_sub(lowercase(lines[j].preview), q))) by {
                if h < prev.len() {
                    assert(cur[h] == prev[h]);
                } else {
                    assert(lines[k - 1].path == cur[h]);
                }
            }
        } else {
            assert(cur == prev);
        }
    }
}

} // verus!
