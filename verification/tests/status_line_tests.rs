use jsonquill::document::node::{JsonNode, JsonValue};
use jsonquill::document::tree::JsonTree;
use jsonquill::editor::mode::EditorMode;
use jsonquill::editor::state::EditorState;
use jsonquill::ui::status_line::status_line_text;

#[test]
fn test_status_line_no_filename() {
    let tree = JsonTree::new(JsonNode::new(JsonValue::Null));
    let state = EditorState::new(tree);
    let text = status_line_text(&state, 80);
    assert!(text.contains("[No Name]"), "Status line should show [No Name]: {}", text);
}

#[test]
fn test_status_line_with_filename() {
    let tree = JsonTree::new(JsonNode::new(JsonValue::Null));
    let mut state = EditorState::new(tree);
    state.set_filename("test.json".to_string());
    let text = status_line_text(&state, 80);
    assert!(text.contains("test.json"), "Status line should show filename: {}", text);
}

#[test]
fn test_status_line_dirty_indicator() {
    let tree = JsonTree::new(JsonNode::new(JsonValue::Null));
    let mut state = EditorState::new(tree);
    state.mark_dirty();
    let text = status_line_text(&state, 80);
    assert!(text.contains("[+]"), "Status line should show dirty indicator: {}", text);
}

#[test]
fn test_status_line_clean_file() {
    let tree = JsonTree::new(JsonNode::new(JsonValue::Null));
    let mut state = EditorState::new(tree);
    state.set_filename("clean.json".to_string());
    let text = status_line_text(&state, 80);
    assert!(!text.contains("[+]"), "Clean file should not show dirty indicator: {}", text);
}

#[test]
fn test_status_line_different_modes() {
    let tree = JsonTree::new(JsonNode::new(JsonValue::Null));
    let state = EditorState::new(tree);
    let text = status_line_text(&state, 80);
    assert!(text.contains("NORMAL"), "Should show NORMAL mode: {}", text);
}

#[test]
fn status_line_fills_the_width_and_right_aligns_the_position() {
    let tree = JsonTree::new(JsonNode::new(JsonValue::Array(vec![
        JsonNode::new(JsonValue::Null),
        JsonNode::new(JsonValue::Null),
    ])));
    let mut state = EditorState::new(tree);
    state.set_filename("a.json".to_string());
    state.mark_dirty();
    state.set_mode(EditorMode::Insert);
    let text = status_line_text(&state, 40);
    assert_eq!(text.len(), 40);
    assert!(text.starts_with("INSERT | a.json [+]"));
    assert!(text.ends_with("1,1 1/2"));
    let narrow = status_line_text(&state, 10);
    assert_eq!(narrow, "INSERT | a.json [+] 1,1 1/2");
}

#[test]
fn status_line_without_lines_shows_zero_position() {
    let tree = JsonTree::new(JsonNode::new(JsonValue::Object(vec![])));
    let state = EditorState::new(tree);
    assert_eq!(status_line_text(&state, 0), "NORMAL | [No Name] 0,0 0/0");
}
