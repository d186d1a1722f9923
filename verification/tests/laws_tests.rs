use jsonquill::document::node::{JsonNode, JsonValue};
use jsonquill::document::tree::{JsonTree, TreeError};
use jsonquill::file::saver::escape_json_string;
use jsonquill::ui::tree_view::TreeViewState;
use jsonquill::editor::mode::EditorMode;
use jsonquill::editor::state::{parse_scalar_value_for_test, EditorState};
use jsonquill::input::backend::{BackendEvent, BackendKey};
use jsonquill::input::handler::{HandlerAction, InputHandler};

fn doc() -> JsonTree {
    JsonTree::new(JsonNode::new(JsonValue::Object(vec![
        ("a".to_string(), JsonNode::new(JsonValue::String("x".to_string()))),
        ("b".to_string(), JsonNode::new(JsonValue::Array(vec![JsonNode::new(JsonValue::Null)]))),
    ])))
}

#[test]
fn escape_returns_to_normal_from_every_typing_mode() {
    let handler = InputHandler::new();
    for mode in [EditorMode::Insert, EditorMode::Command, EditorMode::Search] {
        let mut state = EditorState::new(doc());
        state.set_mode(mode);
        let action = handler.handle_event(&BackendEvent::Key(BackendKey::Esc), &mut state, None);
        assert_eq!(action, HandlerAction::Continue);
        assert_eq!(*state.mode(), EditorMode::Normal);
    }
}

#[test]
fn edit_then_escape_keeps_the_document() {
    let handler = InputHandler::new();
    for start in [vec![0], vec![1]] {
        let mut state = EditorState::new(doc());
        state.cursor_mut().set_path(start);
        handler.handle_event(&BackendEvent::Key(BackendKey::Char('i')), &mut state, None);
        handler.handle_event(&BackendEvent::Key(BackendKey::Char('z')), &mut state, None);
        handler.handle_event(&BackendEvent::Key(BackendKey::Esc), &mut state, None);
        assert_eq!(*state.mode(), EditorMode::Normal);
        assert_eq!(state.tree().root(), doc().root());
    }
}

#[test]
fn checkpoint_then_undo_gives_back_the_document() {
    let mut state = EditorState::new(doc());
    state.cursor_mut().set_path(vec![1]);
    state.delete_node_at_cursor().unwrap();
    assert!(state.undo());
    assert_eq!(state.tree().root(), doc().root());
    assert!(state.redo());
    assert!(state.tree().get_node(&[1]).is_none());
}

#[test]
fn typed_values_are_read_as_the_readme_says() {
    assert_eq!(parse_scalar_value_for_test("hello", None), JsonValue::String("hello".to_string()));
    assert_eq!(parse_scalar_value_for_test("42", Some("42".to_string())), JsonValue::Number("42".to_string()));
    assert_eq!(parse_scalar_value_for_test(" true ", None), JsonValue::Boolean(true));
    assert_eq!(parse_scalar_value_for_test("false", None), JsonValue::Boolean(false));
    assert_eq!(parse_scalar_value_for_test("null", None), JsonValue::Null);
    assert_eq!(parse_scalar_value_for_test(" hi ", None), JsonValue::String(" hi ".to_string()));
}

#[test]
fn paste_after_puts_the_yanked_node_next_to_the_cursor() {
    let mut state = EditorState::new(JsonTree::new(JsonNode::new(JsonValue::Array(vec![
        JsonNode::new(JsonValue::String("a".to_string())),
        JsonNode::new(JsonValue::String("b".to_string())),
    ]))));
    state.cursor_mut().set_path(vec![1]);
    assert!(state.yank_node());
    state.cursor_mut().set_path(vec![0]);
    state.paste_node_at_cursor().unwrap();
    assert_eq!(state.cursor().path(), &[1]);
    assert_eq!(state.tree().get_node(&[1]).unwrap().value(), &JsonValue::String("b".to_string()));
    assert_eq!(state.tree().get_node(&[2]).unwrap().value(), &JsonValue::String("b".to_string()));
}

#[test]
fn a_count_before_j_moves_that_many_lines() {
    let handler = InputHandler::new();
    let items = (0..9).map(|i| JsonNode::new(JsonValue::Number(i.to_string()))).collect();
    let mut state = EditorState::new(JsonTree::new(JsonNode::new(JsonValue::Array(items))));
    handler.handle_event(&BackendEvent::Key(BackendKey::Char('4')), &mut state, None);
    handler.handle_event(&BackendEvent::Key(BackendKey::Char('j')), &mut state, None);
    assert_eq!(state.cursor().path(), &[4]);
}

#[test]
fn zz_on_a_clean_document_quits_without_writing() {
    let handler = InputHandler::new();
    let mut state = EditorState::new(doc());
    state.set_filename("f.json".to_string());
    assert_eq!(handler.handle_event(&BackendEvent::Key(BackendKey::Char('Z')), &mut state, None), HandlerAction::Continue);
    assert_eq!(handler.handle_event(&BackendEvent::Key(BackendKey::Char('Z')), &mut state, None), HandlerAction::Quit);
}

#[test]
fn dd_deletes_the_node_under_the_cursor() {
    let handler = InputHandler::new();
    let mut state = EditorState::new(doc());
    handler.handle_event(&BackendEvent::Key(BackendKey::Char('d')), &mut state, None);
    assert_eq!(state.tree().root(), doc().root());
    handler.handle_event(&BackendEvent::Key(BackendKey::Char('d')), &mut state, None);
    match state.tree().root().value() {
        JsonValue::Object(entries) => {
            assert_eq!(entries.len(), 1);
            assert_eq!(entries[0].0, "b");
        }
        _ => panic!("expected an object"),
    }
}

#[test]
fn escaped_text_has_no_control_characters_and_plain_text_is_kept() {
    let r = escape_json_string("a\u{1}\n\"b\\");
    assert!(r.chars().all(|c| (c as u32) >= 0x20));
    let cs: Vec<char> = r.chars().collect();
    for i in 0..cs.len() {
        if cs[i] == '"' {
            assert!(i > 0 && cs[i - 1] == '\\');
        }
    }
    assert_eq!(escape_json_string("plain text: 1, 2"), "plain text: 1, 2");
}

#[test]
fn a_path_is_expanded_after_an_odd_number_of_toggles() {
    let mut view = TreeViewState::new();
    for n in 1..=5 {
        view.toggle_expand(&[1]);
        view.toggle_expand(&[0, 2]);
        view.toggle_expand(&[0, 2]);
        assert_eq!(view.is_expanded(&[1]), n % 2 == 1);
        assert!(!view.is_expanded(&[0, 2]));
    }
}

#[test]
fn visible_lines_fit_the_document() {
    let tree = doc();
    let mut view = TreeViewState::new();
    view.toggle_expand(&[1]);
    view.rebuild(&tree);
    let lines = view.lines();
    assert_eq!(lines.len(), 3);
    for l in lines {
        assert!(tree.get_node(&l.path).is_some());
        assert_eq!(l.depth, l.path.len() - 1);
        assert_eq!(l.expanded, view.is_expanded(&l.path));
        assert_eq!(l.key.is_some(), l.path.len() == 1);
    }
    assert_eq!(lines[2].path, vec![1, 0]);
    for w in lines.windows(2) {
        assert!(w[0].path < w[1].path);
    }
}

#[test]
fn every_node_under_expanded_parents_shows() {
    let tree = JsonTree::new(JsonNode::new(JsonValue::Array(vec![
        JsonNode::new(JsonValue::Array(vec![
            JsonNode::new(JsonValue::Array(vec![JsonNode::new(JsonValue::Null)])),
            JsonNode::new(JsonValue::Boolean(true)),
        ])),
        JsonNode::new(JsonValue::Null),
    ])));
    let mut view = TreeViewState::new();
    view.toggle_expand(&[0]);
    view.rebuild(&tree);
    let paths: Vec<Vec<usize>> = view.lines().iter().map(|l| l.path.clone()).collect();
    assert_eq!(paths, vec![vec![0], vec![0, 0], vec![0, 1], vec![1]]);
    view.toggle_expand(&[0, 0]);
    view.rebuild(&tree);
    let paths: Vec<Vec<usize>> = view.lines().iter().map(|l| l.path.clone()).collect();
    assert_eq!(paths, vec![vec![0], vec![0, 0], vec![0, 0, 0], vec![0, 1], vec![1]]);
}

#[test]
fn deleting_fails_exactly_on_a_missing_parent_or_index() {
    let mut tree = doc();
    assert!(matches!(tree.delete_node(&[]), Err(TreeError::CannotDeleteRoot)));
    assert!(tree.delete_node(&[1, 1]).is_err());
    assert!(tree.delete_node(&[0, 0]).is_err());
    assert!(tree.delete_node(&[5, 0]).is_err());
    assert_eq!(tree.root().value(), doc().root().value());
    tree.delete_node(&[1, 0]).unwrap();
    assert_eq!(tree.get_node(&[1]).unwrap().value(), &JsonValue::Array(vec![]));
}

fn counted(n: usize) -> EditorState {
    let items = (1..=n).map(|i| JsonNode::new(JsonValue::Number(i.to_string()))).collect();
    EditorState::new(JsonTree::new(JsonNode::new(JsonValue::Array(items))))
}

#[test]
fn scrolling_brings_the_cursor_into_view_and_moves_no_further() {
    let mut state = counted(10);
    state.cursor_mut().set_path(vec![9]);
    state.adjust_scroll_to_cursor(3);
    assert_eq!(state.scroll_offset(), 7);
    state.cursor_mut().set_path(vec![8]);
    state.adjust_scroll_to_cursor(3);
    assert_eq!(state.scroll_offset(), 7);
    state.cursor_mut().set_path(vec![2]);
    state.adjust_scroll_to_cursor(3);
    assert_eq!(state.scroll_offset(), 2);
}

#[test]
fn the_first_edit_is_undone_and_redone() {
    let mut state = counted(3);
    let start = state.tree().root().value().clone();
    assert!(!state.undo());
    state.cursor_mut().set_path(vec![1]);
    state.delete_node_at_cursor().unwrap();
    let edited = state.tree().root().value().clone();
    assert!(state.undo());
    assert_eq!(state.tree().root().value(), &start);
    assert_eq!(state.cursor().path(), &[0]);
    assert!(state.redo());
    assert_eq!(state.tree().root().value(), &edited);
}

#[test]
fn a_pasted_member_gets_a_fresh_key() {
    let mut state = EditorState::new(JsonTree::new(JsonNode::new(JsonValue::Object(vec![
        ("a".to_string(), JsonNode::new(JsonValue::Null)),
        ("a2".to_string(), JsonNode::new(JsonValue::Null)),
    ]))));
    assert!(state.yank_node());
    state.cursor_mut().set_path(vec![1]);
    state.paste_node_at_cursor().unwrap();
    let keys: Vec<String> = match state.tree().root().value() {
        JsonValue::Object(entries) => entries.iter().map(|(k, _)| k.clone()).collect(),
        _ => panic!("expected an object"),
    };
    assert_eq!(keys, vec!["a", "a2", "a3"]);
    assert_eq!(state.cursor().path(), &[2]);
}
