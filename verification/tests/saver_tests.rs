use jsonquill::document::node::{JsonNode, JsonValue};
use jsonquill::document::tree::JsonTree;
use jsonquill::file::saver::{document_text, escape_json_string, serialize_node};

#[test]
fn test_serialize_null() {
    let node = JsonNode::new(JsonValue::Null);
    let result = serialize_node(&node, 2, 0);
    assert_eq!(result, "null");
}

#[test]
fn test_serialize_boolean() {
    let node = JsonNode::new(JsonValue::Boolean(true));
    let result = serialize_node(&node, 2, 0);
    assert_eq!(result, "true");

    let node = JsonNode::new(JsonValue::Boolean(false));
    let result = serialize_node(&node, 2, 0);
    assert_eq!(result, "false");
}

#[test]
fn test_serialize_number() {
    let node = JsonNode::new(JsonValue::Number("42".to_string()));
    let result = serialize_node(&node, 2, 0);
    assert_eq!(result, "42");

    let node = JsonNode::new(JsonValue::Number("3.14".to_string()));
    let result = serialize_node(&node, 2, 0);
    assert_eq!(result, "3.14");
}

#[test]
fn test_serialize_string() {
    let node = JsonNode::new(JsonValue::String("hello".to_string()));
    let result = serialize_node(&node, 2, 0);
    assert_eq!(result, "\"hello\"");
}

#[test]
fn test_serialize_empty_object() {
    let node = JsonNode::new(JsonValue::Object(vec![]));
    let result = serialize_node(&node, 2, 0);
    assert_eq!(result, "{}");
}

#[test]
fn test_serialize_empty_array() {
    let node = JsonNode::new(JsonValue::Array(vec![]));
    let result = serialize_node(&node, 2, 0);
    assert_eq!(result, "[]");
}

#[test]
fn test_serialize_simple_object() {
    let obj = vec![(
        "name".to_string(),
        JsonNode::new(JsonValue::String("Alice".to_string())),
    )];
    let node = JsonNode::new(JsonValue::Object(obj));
    let result = serialize_node(&node, 2, 0);
    assert_eq!(result, "{\"name\": \"Alice\"}");
}

#[test]
fn test_serialize_simple_array() {
    let arr = vec![
        JsonNode::new(JsonValue::Number("1".to_string())),
        JsonNode::new(JsonValue::Number("2".to_string())),
        JsonNode::new(JsonValue::Number("3".to_string())),
    ];
    let node = JsonNode::new(JsonValue::Array(arr));
    let result = serialize_node(&node, 2, 0);
    assert_eq!(result, "[1, 2, 3]");
}

#[test]
fn test_serialize_nested_object() {
    let inner = vec![("age".to_string(), JsonNode::new(JsonValue::Number("30".to_string())))];
    let outer = vec![("user".to_string(), JsonNode::new(JsonValue::Object(inner)))];
    let node = JsonNode::new(JsonValue::Object(outer));
    let result = serialize_node(&node, 2, 0);
    assert_eq!(result, "{\n  \"user\": {\"age\": 30}\n}");
}

#[test]
fn test_escape_json_string() {
    assert_eq!(escape_json_string("hello"), "hello");
    assert_eq!(escape_json_string("hello\"world"), "hello\\\"world");
    assert_eq!(escape_json_string("hello\\world"), "hello\\\\world");
    assert_eq!(escape_json_string("hello\nworld"), "hello\\nworld");
    assert_eq!(escape_json_string("hello\tworld"), "hello\\tworld");
    assert_eq!(escape_json_string("hello\rworld"), "hello\\rworld");
}

#[test]
fn test_compact_array_with_scalars() {
    let arr = vec![
        JsonNode::new(JsonValue::Number("1".to_string())),
        JsonNode::new(JsonValue::String("test".to_string())),
        JsonNode::new(JsonValue::Boolean(true)),
        JsonNode::new(JsonValue::Null),
    ];
    let node = JsonNode::new(JsonValue::Array(arr));
    let result = serialize_node(&node, 2, 0);
    assert_eq!(result, "[1, \"test\", true, null]");
}

#[test]
fn test_compact_object_with_scalars() {
    let obj = vec![
        ("a".to_string(), JsonNode::new(JsonValue::Number("1".to_string()))),
        (
            "b".to_string(),
            JsonNode::new(JsonValue::String("test".to_string())),
        ),
        ("c".to_string(), JsonNode::new(JsonValue::Boolean(false))),
    ];
    let node = JsonNode::new(JsonValue::Object(obj));
    let result = serialize_node(&node, 2, 0);
    assert_eq!(result, "{\"a\": 1, \"b\": \"test\", \"c\": false}");
}

#[test]
fn test_nested_containers_use_multiline() {
    let inner = vec![(
        "key".to_string(),
        JsonNode::new(JsonValue::String("value".to_string())),
    )];
    let arr = vec![JsonNode::new(JsonValue::Object(inner))];
    let node = JsonNode::new(JsonValue::Array(arr));
    let result = serialize_node(&node, 2, 0);
    assert!(
        result.contains('\n'),
        "Nested containers should use multi-line formatting"
    );
}

#[test]
fn test_long_compact_array_uses_multiline() {
    let arr: Vec<JsonNode> = (0..30)
        .map(|i| JsonNode::new(JsonValue::Number(i.to_string())))
        .collect();
    let node = JsonNode::new(JsonValue::Array(arr));
    let result = serialize_node(&node, 2, 0);
    assert!(
        result.contains('\n'),
        "Long arrays should use multi-line formatting"
    );
}

#[test]
fn escapes_control_characters_as_unicode() {
    assert_eq!(escape_json_string("a\u{1}b"), "a\\u0001b");
    assert_eq!(escape_json_string("\u{1f}"), "\\u001f");
    assert_eq!(escape_json_string("caf\u{e9}"), "caf\u{e9}");
}

#[test]
fn nested_containers_are_indented_per_level() {
    let inner = vec![(
        "key".to_string(),
        JsonNode::new(JsonValue::Array(vec![JsonNode::new(JsonValue::Object(vec![]))])),
    )];
    let node = JsonNode::new(JsonValue::Object(vec![("outer".to_string(), JsonNode::new(JsonValue::Object(inner)))]));
    assert_eq!(
        serialize_node(&node, 4, 0),
        "{\n    \"outer\": {\n        \"key\": [\n            {}\n        ]\n    }\n}"
    );
}

#[test]
fn compact_form_stops_at_eighty_bytes() {
    // 26 elements "1, " make 1 + 26 * 3 - 2 + 1 = 78 bytes: still compact.
    let short: Vec<JsonNode> = (0..26).map(|_| JsonNode::new(JsonValue::Number("1".to_string()))).collect();
    let text = serialize_node(&JsonNode::new(JsonValue::Array(short)), 2, 0);
    assert!(!text.contains('\n'));
    assert_eq!(text.len(), 78);
    // 28 elements make 84 bytes: one per line.
    let long: Vec<JsonNode> = (0..28).map(|_| JsonNode::new(JsonValue::Number("1".to_string()))).collect();
    let text = serialize_node(&JsonNode::new(JsonValue::Array(long)), 2, 0);
    assert!(text.starts_with("[\n  1,\n  1,"));
}

#[test]
fn serialized_json_lines_root_reads_as_an_array() {
    let tree = JsonTree::new(JsonNode::new(JsonValue::JsonlRoot(vec![
        JsonNode::new(JsonValue::Object(vec![("a".to_string(), JsonNode::new(JsonValue::Number("1".to_string())))])),
        JsonNode::new(JsonValue::Array(vec![JsonNode::new(JsonValue::Null)])),
    ])));
    let text = document_text(&tree, 2);
    assert_eq!(text, "[\n  {\"a\": 1},\n  [null]\n]");
}

#[test]
fn document_text_of_plain_json_is_the_serialized_root() {
    let tree = JsonTree::new(JsonNode::new(JsonValue::Object(vec![
        ("name".to_string(), JsonNode::new(JsonValue::String("test".to_string()))),
    ])));
    assert_eq!(document_text(&tree, 2).trim(), "{\"name\": \"test\"}");
}
