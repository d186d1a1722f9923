use jsonquill::document::node::{JsonNode, JsonValue};
use jsonquill::document::tree::JsonTree;
use jsonquill::editor::mode::EditorMode;
use jsonquill::editor::state::{EditorState, MessageLevel};
use jsonquill::ui::screen::{bottom_line, line_text, number_width, split_at_cursor, BottomLine};

fn state() -> EditorState {
    EditorState::new(JsonTree::new(JsonNode::new(JsonValue::Object(vec![
        ("name".to_string(), JsonNode::new(JsonValue::String("Alice".to_string()))),
        ("tags".to_string(), JsonNode::new(JsonValue::Array(vec![JsonNode::new(JsonValue::Null)]))),
    ]))))
}

#[test]
fn keys_are_shown_without_quotes_and_scalars_under_the_cursor_get_a_pointer() {
    let s = state();
    let line = &s.tree_view().lines()[0];
    let text = line_text(line, 1, number_width(12), true, true);
    assert_eq!(text.number, Some(" 1 ".to_string()));
    assert_eq!(text.indent, "");
    assert_eq!(text.marker, "\u{25b6} ");
    assert_eq!(text.key, Some("name: ".to_string()));
    assert_eq!(text.value, "\"Alice\"");
    let other = line_text(line, 1, 2, false, false);
    assert_eq!(other.number, None);
    assert_eq!(other.marker, "  ");
}

#[test]
fn containers_show_their_expansion_marker() {
    let mut s = state();
    let closed = line_text(&s.tree_view().lines()[1], 2, 1, false, false);
    assert_eq!(closed.marker, "\u{25b6} ");
    assert_eq!(closed.value, "[ 1 items ]");
    s.cursor_mut().set_path(vec![1]);
    s.toggle_expand_at_cursor();
    let open = line_text(&s.tree_view().lines()[1], 2, 1, false, false);
    assert_eq!(open.marker, "\u{25bc} ");
    let child = line_text(&s.tree_view().lines()[2], 3, 1, false, false);
    assert_eq!(child.indent, "  ");
    assert_eq!(child.key, None);
}

#[test]
fn number_width_counts_digits() {
    assert_eq!(number_width(0), 1);
    assert_eq!(number_width(9), 1);
    assert_eq!(number_width(10), 2);
    assert_eq!(number_width(12345), 5);
}

#[test]
fn bottom_line_shows_prompts_by_mode_and_messages_otherwise() {
    let mut s = state();
    assert!(matches!(bottom_line(&s), BottomLine::Empty));
    s.set_message("hi".to_string(), MessageLevel::Warning);
    match bottom_line(&s) {
        BottomLine::Message { text, level } => {
            assert_eq!(text, "hi");
            assert_eq!(level, MessageLevel::Warning);
        }
        _ => panic!("expected the message"),
    }
    s.set_mode(EditorMode::Command);
    s.push_to_command_buffer('w');
    match bottom_line(&s) {
        BottomLine::Prompt { label, buffer, cursor } => {
            assert_eq!(label, ":");
            assert_eq!(buffer, "w");
            assert_eq!(cursor, 1);
        }
        _ => panic!("expected a prompt"),
    }
    s.set_mode(EditorMode::Normal);
    s.start_editing();
    s.set_mode(EditorMode::Insert);
    s.edit_cursor_left();
    match bottom_line(&s) {
        BottomLine::Prompt { label, buffer, cursor } => {
            assert_eq!(label, "Edit: ");
            assert_eq!(buffer, "Alice");
            assert_eq!(cursor, 4);
        }
        _ => panic!("expected the edit prompt"),
    }
}

#[test]
fn split_at_cursor_clamps_to_the_end() {
    assert_eq!(split_at_cursor("h\u{e9}llo", 2), ("h\u{e9}".to_string(), "llo".to_string()));
    assert_eq!(split_at_cursor("abc", 9), ("abc".to_string(), String::new()));
    assert_eq!(split_at_cursor("", 0), (String::new(), String::new()));
}
