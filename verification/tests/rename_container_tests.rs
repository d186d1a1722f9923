use jsonquill::document::node::{JsonNode, JsonValue};
use jsonquill::document::tree::JsonTree;
use jsonquill::editor::mode::EditorMode;
use jsonquill::editor::state::{AddModeStage, EditError, EditorState, MessageLevel};
use jsonquill::file::saver::serialize_scalar;

fn object() -> EditorState {
    EditorState::new(JsonTree::new(JsonNode::new(JsonValue::Object(vec![
        ("name".to_string(), JsonNode::new(JsonValue::String("Alice".to_string()))),
        ("age".to_string(), JsonNode::new(JsonValue::Number("30".to_string()))),
    ]))))
}

fn keys(state: &EditorState) -> Vec<String> {
    match state.tree().root().value() {
        JsonValue::Object(entries) => entries.iter().map(|(k, _)| k.clone()).collect(),
        _ => panic!("expected an object"),
    }
}

#[test]
fn rename_a_key() {
    let mut state = object();
    state.cursor_mut().set_path(vec![1]);
    state.start_rename_operation();
    assert!(state.is_renaming_key());
    assert_eq!(*state.mode(), EditorMode::Insert);
    assert_eq!(state.edit_buffer(), Some("age"));
    state.clear_edit_buffer();
    for c in "years".chars() {
        state.push_to_edit_buffer(c);
    }
    state.commit_rename().unwrap();
    assert!(!state.is_renaming_key());
    assert_eq!(keys(&state), vec!["name".to_string(), "years".to_string()]);
    assert!(state.is_dirty());
}

#[test]
fn rename_to_an_existing_key_is_refused() {
    let mut state = object();
    state.cursor_mut().set_path(vec![1]);
    state.start_rename_operation();
    state.clear_edit_buffer();
    for c in "name".chars() {
        state.push_to_edit_buffer(c);
    }
    match state.commit_rename() {
        Err(EditError::DuplicateKey(k)) => assert_eq!(k, "name"),
        other => panic!("expected a duplicate key error, got {:?}", other),
    }
    assert_eq!(keys(&state), vec!["name".to_string(), "age".to_string()]);
}

#[test]
fn renaming_an_array_element_or_the_root_is_refused() {
    let mut state = EditorState::new(JsonTree::new(JsonNode::new(JsonValue::Array(vec![JsonNode::new(JsonValue::Null)]))));
    state.start_rename_operation();
    let m = state.message().unwrap();
    assert_eq!(m.text, "Can only rename object keys, not array elements");
    assert_eq!(m.level, MessageLevel::Error);
    state.cursor_mut().set_path(vec![]);
    state.start_rename_operation();
    assert_eq!(state.message().unwrap().text, "Cannot rename root node");
    assert!(!state.is_renaming_key());
}

#[test]
fn add_an_empty_array_into_an_array_at_once() {
    let mut state = EditorState::new(JsonTree::new(JsonNode::new(JsonValue::Array(vec![JsonNode::new(JsonValue::Null)]))));
    state.start_add_container_operation(false);
    assert_eq!(state.tree().get_node(&[1]).unwrap().value(), &JsonValue::Array(vec![]));
    assert_eq!(state.cursor().path(), &[1]);
    assert_eq!(state.message().unwrap().text, "Added empty array");
}

#[test]
fn add_an_empty_object_into_an_object_after_its_key() {
    let mut state = object();
    state.start_add_container_operation(true);
    assert_eq!(*state.add_mode_stage(), AddModeStage::AwaitingKey);
    for c in "meta".chars() {
        state.push_to_add_key_buffer(c);
    }
    state.commit_container_add().unwrap();
    assert_eq!(keys(&state), vec!["name".to_string(), "meta".to_string(), "age".to_string()]);
    assert_eq!(state.tree().get_node(&[1]).unwrap().value(), &JsonValue::Object(vec![]));
    assert_eq!(state.message().unwrap().text, "Added empty object 'meta'");
    assert_eq!(*state.add_mode_stage(), AddModeStage::Idle);
}

#[test]
fn committing_a_container_without_a_key_is_refused() {
    let mut state = object();
    state.start_add_container_operation(true);
    state.clear_add_key_buffer();
    assert!(matches!(state.commit_container_add(), Err(EditError::EmptyKey)));
}

#[test]
fn edit_buffer_kills_and_cursor_moves() {
    let mut state = object();
    state.start_editing();
    assert_eq!(state.edit_buffer(), Some("Alice"));
    state.edit_cursor_home();
    state.edit_cursor_right();
    state.edit_cursor_right();
    state.edit_kill_to_end();
    assert_eq!(state.edit_buffer(), Some("Al"));
    state.edit_cursor_left();
    state.edit_kill_to_start();
    assert_eq!(state.edit_buffer(), Some("l"));
    assert_eq!(state.edit_cursor_position(), 0);
    state.edit_delete_at_cursor();
    assert_eq!(state.edit_buffer(), Some(""));
}

#[test]
fn command_buffer_can_be_set_and_root_edited() {
    let mut state = object();
    state.set_command_buffer("wq".to_string());
    assert_eq!(state.command_buffer(), "wq");
    state.pop_from_command_buffer();
    assert_eq!(state.command_buffer(), "w");
    let mut tree = JsonTree::new(JsonNode::new(JsonValue::Null));
    *tree.root_mut().value_mut() = JsonValue::Boolean(true);
    assert_eq!(tree.root().value(), &JsonValue::Boolean(true));
    assert!(tree.root().is_modified());
}

#[test]
fn scalars_serialize_as_json_text() {
    assert_eq!(serialize_scalar(&JsonValue::String("a\"b".to_string())), "\"a\\\"b\"");
    assert_eq!(serialize_scalar(&JsonValue::Number("-1.5".to_string())), "-1.5");
    assert_eq!(serialize_scalar(&JsonValue::Null), "null");
}

#[test]
fn adding_a_container_in_an_object_keeps_the_yanked_node() {
    let mut state = object();
    state.cursor_mut().set_path(vec![0]);
    assert!(state.yank_node());
    state.start_add_container_operation(true);
    assert_eq!(
        state.clipboard()[0].1.value(),
        &JsonValue::String("Alice".to_string())
    );
    for c in "meta".chars() {
        state.push_to_add_key_buffer(c);
    }
    state.commit_container_add().unwrap();
    assert_eq!(
        state.clipboard()[0].1.value(),
        &JsonValue::String("Alice".to_string())
    );
    assert_eq!(state.tree().get_node(&[1]).unwrap().value(), &JsonValue::Object(vec![]));
}

#[test]
fn adding_a_container_in_an_array_keeps_the_yanked_node() {
    let mut state = EditorState::new(JsonTree::new(JsonNode::new(JsonValue::Array(vec![
        JsonNode::new(JsonValue::Number("7".to_string())),
    ]))));
    assert!(state.yank_node());
    state.start_add_container_operation(false);
    assert_eq!(state.cursor().path(), &[1]);
    state.paste_node_at_cursor().unwrap();
    assert_eq!(
        state.tree().get_node(&[2]).unwrap().value(),
        &JsonValue::Number("7".to_string())
    );
}
