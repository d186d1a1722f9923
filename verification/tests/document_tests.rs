use jsonquill::document::node::{JsonNode, JsonValue};
use jsonquill::document::tree::{JsonTree, TreeError};

#[test]
fn test_create_string_node() {
    let node = JsonNode::new(JsonValue::String("hello".to_string()));
    assert!(matches!(node.value(), JsonValue::String(_)));
}

#[test]
fn test_create_number_node() {
    let node = JsonNode::new(JsonValue::Number("42".to_string()));
    assert!(matches!(node.value(), JsonValue::Number(_)));
}

#[test]
fn test_create_boolean_node() {
    let node = JsonNode::new(JsonValue::Boolean(true));
    assert!(matches!(node.value(), JsonValue::Boolean(true)));
}

#[test]
fn test_create_null_node() {
    let node = JsonNode::new(JsonValue::Null);
    assert!(matches!(node.value(), JsonValue::Null));
}

fn sample() -> JsonTree {
    JsonTree::new(JsonNode::new(JsonValue::Object(vec![
        ("a".to_string(), JsonNode::new(JsonValue::Array(vec![
            JsonNode::new(JsonValue::Number("1".to_string())),
            JsonNode::new(JsonValue::Number("2".to_string())),
        ]))),
        ("b".to_string(), JsonNode::new(JsonValue::Null)),
    ])))
}

#[test]
fn new_nodes_are_marked_modified_and_unmodified_ones_are_not() {
    assert!(JsonNode::new(JsonValue::Null).is_modified());
    assert!(!JsonNode::unmodified(JsonValue::Null).is_modified());
}

#[test]
fn get_node_follows_the_path() {
    let tree = sample();
    assert_eq!(tree.get_node(&[0, 1]).unwrap().value(), &JsonValue::Number("2".to_string()));
    assert_eq!(tree.get_node(&[1]).unwrap().value(), &JsonValue::Null);
    assert!(tree.get_node(&[0, 2]).is_none());
    assert!(tree.get_node(&[1, 0]).is_none());
}

#[test]
fn insert_in_array_then_get_gives_the_node() {
    let mut tree = sample();
    tree.insert_node_in_array(&[0, 1], JsonNode::new(JsonValue::Boolean(true))).unwrap();
    assert_eq!(tree.get_node(&[0, 1]).unwrap().value(), &JsonValue::Boolean(true));
    assert_eq!(tree.get_node(&[0, 2]).unwrap().value(), &JsonValue::Number("2".to_string()));
}

#[test]
fn insert_in_object_then_get_gives_the_member() {
    let mut tree = sample();
    tree.insert_node_in_object(&[1], "c".to_string(), JsonNode::new(JsonValue::Boolean(false))).unwrap();
    match tree.root().value() {
        JsonValue::Object(entries) => {
            assert_eq!(entries.len(), 3);
            assert_eq!(entries[1].0, "c");
            assert_eq!(entries[1].1.value(), &JsonValue::Boolean(false));
        }
        _ => panic!("expected an object"),
    }
}

#[test]
fn insert_then_delete_restores_the_array() {
    let mut tree = sample();
    tree.insert_node_in_array(&[0, 0], JsonNode::new(JsonValue::Null)).unwrap();
    tree.delete_node(&[0, 0]).unwrap();
    assert_eq!(tree.get_node(&[0, 0]).unwrap().value(), &JsonValue::Number("1".to_string()));
    assert_eq!(tree.get_node(&[0, 1]).unwrap().value(), &JsonValue::Number("2".to_string()));
    assert!(tree.get_node(&[0, 2]).is_none());
}

#[test]
fn delete_errors() {
    let mut tree = sample();
    assert_eq!(tree.delete_node(&[]), Err(TreeError::CannotDeleteRoot));
    assert!(tree.delete_node(&[5]).is_err());
    assert!(tree.delete_node(&[1, 0]).is_err());
}

#[test]
fn getting_a_node_for_change_marks_it_modified() {
    let mut tree = JsonTree::new(JsonNode::unmodified(JsonValue::Array(vec![
        JsonNode::unmodified(JsonValue::Number("1".to_string())),
    ])));
    assert!(!tree.get_node(&[0]).unwrap().is_modified());
    assert!(tree.get_node_mut(&[0]).unwrap().is_modified());
    assert!(tree.get_node(&[0]).unwrap().is_modified());
    assert!(tree.root().is_modified());
}
