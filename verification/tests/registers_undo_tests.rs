use jsonquill::document::node::{JsonNode, JsonValue};
use jsonquill::document::tree::JsonTree;
use jsonquill::editor::registers::{RegisterContent, RegisterSet};
use jsonquill::editor::undo::{EditorSnapshot, UndoNode, UndoTree};

#[test]
fn test_register_content_new() {
    let node = JsonNode::new(JsonValue::String("test".to_string()));
    let content = RegisterContent::new(vec![node.clone()], vec![None]);

    assert_eq!(content.nodes.len(), 1);
    assert_eq!(content.keys.len(), 1);
}

#[test]
fn test_register_set_new() {
    let regs = RegisterSet::new();
    assert!(regs.get_unnamed().is_empty());
    assert_eq!(regs.get_named('a'), None);
    assert!(regs.get_numbered(0).is_empty());
}

#[test]
fn test_register_set_named() {
    let mut regs = RegisterSet::new();
    let node = JsonNode::new(JsonValue::Number("42".to_string()));
    let content = RegisterContent::new(vec![node.clone()], vec![None]);

    regs.set_named('a', content.clone());

    let retrieved = regs.get_named('a').unwrap();
    assert_eq!(retrieved.nodes.len(), 1);
}

#[test]
fn test_register_set_unnamed() {
    let mut regs = RegisterSet::new();
    let node = JsonNode::new(JsonValue::Boolean(true));
    let content = RegisterContent::new(vec![node.clone()], vec![None]);

    regs.set_unnamed(content.clone());

    let retrieved = regs.get_unnamed();
    assert_eq!(retrieved.nodes.len(), 1);
}

#[test]
fn test_register_set_numbered() {
    let mut regs = RegisterSet::new();
    let node = JsonNode::new(JsonValue::Null);
    let content = RegisterContent::new(vec![node.clone()], vec![None]);

    regs.set_numbered(5, content.clone());

    let retrieved = regs.get_numbered(5);
    assert_eq!(retrieved.nodes.len(), 1);
}

#[test]
fn test_register_numbered_valid_range() {
    let mut regs = RegisterSet::new();
    let node = JsonNode::new(JsonValue::String("test".to_string()));
    let content = RegisterContent::new(vec![node.clone()], vec![None]);

    for i in 0..10 {
        regs.set_numbered(i, content.clone());
        let retrieved = regs.get_numbered(i);
        assert_eq!(retrieved.nodes.len(), 1);
    }
}

#[test]
fn named_registers_ignore_case_of_ascii_letters() {
    let mut regs = RegisterSet::new();
    let content = RegisterContent::new(vec![JsonNode::new(JsonValue::Null)], vec![Some("k".to_string())]);
    regs.set_named('Q', content.clone());
    assert_eq!(regs.get_named('q'), Some(&content));
    assert_eq!(regs.get_named('r'), None);
}

#[test]
fn test_undo_node_creation() {
    let tree = JsonTree::new(JsonNode::new(JsonValue::Null));
    let snapshot = EditorSnapshot {
        tree,
        cursor_path: vec![],
    };

    let node = UndoNode::new(snapshot, None, 0);

    assert_eq!(node.seq, 0);
    assert_eq!(node.parent, None);
    assert_eq!(node.children.len(), 0);
}

fn snapshot(v: &str, cursor: Vec<usize>) -> EditorSnapshot {
    EditorSnapshot { tree: JsonTree::new(JsonNode::new(JsonValue::String(v.to_string()))), cursor_path: cursor }
}

#[test]
fn undo_gives_back_the_state_before_the_checkpoint_and_redo_the_one_after() {
    let mut tree = UndoTree::new(snapshot("a", vec![]), 50);
    assert!(tree.undo().is_none());
    tree.add_checkpoint(snapshot("b", vec![0]));
    let back = tree.undo().unwrap();
    assert_eq!(back.tree.root().value(), &JsonValue::String("a".to_string()));
    assert!(tree.undo().is_none());
    let forward = tree.redo().unwrap();
    assert_eq!(forward.tree.root().value(), &JsonValue::String("b".to_string()));
    assert_eq!(forward.cursor_path, vec![0]);
    assert!(tree.redo().is_none());
}
