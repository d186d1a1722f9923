use jsonquill::document::node::{JsonNode, JsonValue};
use jsonquill::document::tree::JsonTree;
use jsonquill::ui::tree_view::{TreeViewState, ValueType};

#[test]
fn test_value_type_from_json() {
    assert_eq!(ValueType::from_json_value(&JsonValue::Object(vec![])), ValueType::Object);
    assert_eq!(ValueType::from_json_value(&JsonValue::Array(vec![])), ValueType::Array);
    assert_eq!(ValueType::from_json_value(&JsonValue::String("x".to_string())), ValueType::String);
    assert_eq!(ValueType::from_json_value(&JsonValue::Number("42".to_string())), ValueType::Number);
    assert_eq!(ValueType::from_json_value(&JsonValue::Boolean(true)), ValueType::Boolean);
    assert_eq!(ValueType::from_json_value(&JsonValue::Null), ValueType::Null);
}

#[test]
fn test_tree_view_state_creation() {
    let state = TreeViewState::new();
    assert_eq!(state.lines().len(), 0);
}

#[test]
fn test_rebuild_with_flat_object() {
    let tree = JsonTree::new(JsonNode::new(JsonValue::Object(vec![
        ("name".to_string(), JsonNode::new(JsonValue::String("Alice".to_string()))),
        ("age".to_string(), JsonNode::new(JsonValue::Number("30".to_string()))),
    ])));

    let mut state = TreeViewState::new();
    state.rebuild(&tree);

    assert_eq!(state.lines().len(), 2);
    assert_eq!(state.lines()[0].key, Some("name".to_string()));
    assert_eq!(state.lines()[0].depth, 0);
    assert_eq!(state.lines()[1].key, Some("age".to_string()));
}

#[test]
fn test_rebuild_with_array() {
    let tree = JsonTree::new(JsonNode::new(JsonValue::Array(vec![
        JsonNode::new(JsonValue::Number("1".to_string())),
        JsonNode::new(JsonValue::Number("2".to_string())),
    ])));

    let mut state = TreeViewState::new();
    state.rebuild(&tree);

    assert_eq!(state.lines().len(), 2);
    assert_eq!(state.lines()[0].key, None);
    assert_eq!(state.lines()[0].value_preview, "1");
}

#[test]
fn test_toggle_expand() {
    let mut state = TreeViewState::new();
    let path = vec![0];

    assert!(!state.is_expanded(&path));
    state.toggle_expand(&path);
    assert!(state.is_expanded(&path));
    state.toggle_expand(&path);
    assert!(!state.is_expanded(&path));
}

#[test]
fn test_nested_object_collapsed() {
    let tree = JsonTree::new(JsonNode::new(JsonValue::Object(vec![
        ("user".to_string(), JsonNode::new(JsonValue::Object(vec![
            ("name".to_string(), JsonNode::new(JsonValue::String("Bob".to_string()))),
        ]))),
    ])));

    let mut state = TreeViewState::new();
    state.rebuild(&tree);

    assert_eq!(state.lines().len(), 1);
    assert_eq!(state.lines()[0].key, Some("user".to_string()));
    assert_eq!(state.lines()[0].expandable, true);
}

#[test]
fn test_nested_object_expanded() {
    let tree = JsonTree::new(JsonNode::new(JsonValue::Object(vec![
        ("user".to_string(), JsonNode::new(JsonValue::Object(vec![
            ("name".to_string(), JsonNode::new(JsonValue::String("Bob".to_string()))),
        ]))),
    ])));

    let mut state = TreeViewState::new();
    state.toggle_expand(&[0]);
    state.rebuild(&tree);

    assert_eq!(state.lines().len(), 2);
    assert_eq!(state.lines()[0].key, Some("user".to_string()));
    assert_eq!(state.lines()[0].depth, 0);
    assert_eq!(state.lines()[1].key, Some("name".to_string()));
    assert_eq!(state.lines()[1].depth, 1);
}

#[test]
fn test_value_preview() {
    let state = TreeViewState::new();

    assert_eq!(state.get_value_preview(&JsonValue::Object(vec![("a".to_string(), JsonNode::new(JsonValue::Null))])), "{ 1 fields }");
    assert_eq!(state.get_value_preview(&JsonValue::Array(vec![JsonNode::new(JsonValue::Null), JsonNode::new(JsonValue::Null)])), "[ 2 items ]");
    assert_eq!(state.get_value_preview(&JsonValue::String("test".to_string())), "\"test\"");
    assert_eq!(state.get_value_preview(&JsonValue::Number("3.14".to_string())), "3.14");
    assert_eq!(state.get_value_preview(&JsonValue::Boolean(true)), "true");
    assert_eq!(state.get_value_preview(&JsonValue::Null), "null");
}

#[test]
fn toggling_twice_restores_the_expansion() {
    let mut state = TreeViewState::new();
    state.toggle_expand(&[1, 2]);
    state.toggle_expand(&[3]);
    state.toggle_expand(&[3]);
    assert!(state.is_expanded(&[1, 2]));
    assert!(!state.is_expanded(&[3]));
}

#[test]
fn expand_all_opens_every_container() {
    let tree = JsonTree::new(JsonNode::new(JsonValue::Object(vec![
        ("a".to_string(), JsonNode::new(JsonValue::Array(vec![
            JsonNode::new(JsonValue::Object(vec![("b".to_string(), JsonNode::new(JsonValue::Null))])),
        ]))),
        ("c".to_string(), JsonNode::new(JsonValue::Null)),
    ])));
    let mut state = TreeViewState::new();
    state.expand_all(&tree);
    state.rebuild(&tree);
    let keys: Vec<Option<String>> = state.lines().iter().map(|l| l.key.clone()).collect();
    assert_eq!(keys, vec![Some("a".to_string()), None, Some("b".to_string()), Some("c".to_string())]);
    assert_eq!(state.lines()[2].depth, 2);
    assert_eq!(state.lines()[2].path, vec![0, 0, 0]);
}

#[test]
fn json_lines_root_shows_one_line_per_value() {
    let tree = JsonTree::new(JsonNode::new(JsonValue::JsonlRoot(vec![
        JsonNode::new(JsonValue::Object(vec![("x".to_string(), JsonNode::new(JsonValue::Null))])),
        JsonNode::new(JsonValue::Object(vec![])),
    ])));
    let mut state = TreeViewState::new();
    state.rebuild(&tree);
    assert_eq!(state.lines().len(), 2);
    assert_eq!(state.lines()[0].value_preview, "{ 1 fields }");
    state.expand_node_and_descendants(&tree, &[0]);
    state.rebuild(&tree);
    assert_eq!(state.lines().len(), 3);
    assert_eq!(state.lines()[1].key, Some("x".to_string()));
}

#[test]
fn insertion_shifts_expanded_paths() {
    let mut state = TreeViewState::new();
    state.toggle_expand(&[1]);
    state.toggle_expand(&[0, 4]);
    state.update_paths_after_insertion(&[1]);
    assert!(state.is_expanded(&[2]));
    assert!(!state.is_expanded(&[1]));
    assert!(state.is_expanded(&[0, 4]));
}
