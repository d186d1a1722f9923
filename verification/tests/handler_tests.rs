use jsonquill::document::node::{JsonNode, JsonValue};
use jsonquill::document::tree::JsonTree;
use jsonquill::editor::mode::EditorMode;
use jsonquill::editor::state::{EditorState, MessageLevel};
use jsonquill::input::backend::{BackendEvent, BackendKey, BackendMouse};
use jsonquill::input::handler::{HandlerAction, InputHandler};

fn key(c: char) -> BackendEvent {
    BackendEvent::Key(BackendKey::Char(c))
}

fn press(handler: &InputHandler, state: &mut EditorState, text: &str) -> HandlerAction {
    let mut last = HandlerAction::Continue;
    for c in text.chars() {
        last = handler.handle_event(&key(c), state, None);
    }
    last
}

fn message(state: &EditorState) -> (String, MessageLevel) {
    let m = state.message().expect("a message");
    (m.text.clone(), m.level)
}

fn numbers(n: usize) -> EditorState {
    let items = (1..=n).map(|i| JsonNode::new(JsonValue::Number(i.to_string()))).collect();
    EditorState::new(JsonTree::new(JsonNode::new(JsonValue::Array(items))))
}

#[test]
fn test_handler_creation() {
    let _handler = InputHandler::new();
}

#[test]
fn test_quit_event() {
    let handler = InputHandler::new();
    let tree = JsonTree::new(JsonNode::new(JsonValue::Null));
    let mut state = EditorState::new(tree);
    let event = BackendEvent::Key(BackendKey::Char('q'));

    let action = handler.handle_event(&event, &mut state, None);
    assert_eq!(action, HandlerAction::Quit);
}

#[test]
fn test_enter_insert_mode() {
    let handler = InputHandler::new();
    let tree = JsonTree::new(JsonNode::new(JsonValue::Null));
    let mut state = EditorState::new(tree);
    assert_eq!(*state.mode(), EditorMode::Normal);

    let event = BackendEvent::Key(BackendKey::Char('i'));
    let action = handler.handle_event(&event, &mut state, None);

    assert_ne!(action, HandlerAction::Quit);
    assert_eq!(*state.mode(), EditorMode::Insert);
}

#[test]
fn test_enter_command_mode() {
    let handler = InputHandler::new();
    let tree = JsonTree::new(JsonNode::new(JsonValue::Null));
    let mut state = EditorState::new(tree);

    let event = BackendEvent::Key(BackendKey::Char(':'));
    handler.handle_event(&event, &mut state, None);

    assert_eq!(*state.mode(), EditorMode::Command);
}

#[test]
fn test_exit_mode() {
    let handler = InputHandler::new();
    let tree = JsonTree::new(JsonNode::new(JsonValue::Null));
    let mut state = EditorState::new(tree);
    state.set_mode(EditorMode::Insert);

    let event = BackendEvent::Key(BackendKey::Esc);
    handler.handle_event(&event, &mut state, None);

    assert_eq!(*state.mode(), EditorMode::Normal);
}

#[test]
fn test_movement_keys_dont_quit() {
    let handler = InputHandler::new();
    let tree = JsonTree::new(JsonNode::new(JsonValue::Null));
    let mut state = EditorState::new(tree);

    let event = BackendEvent::Key(BackendKey::Char('j'));
    let action = handler.handle_event(&event, &mut state, None);

    assert_eq!(action, HandlerAction::Continue);
}

#[test]
fn quit_refuses_unsaved_changes_and_force_quit_does_not() {
    let handler = InputHandler::new();
    let mut state = numbers(2);
    state.mark_dirty();
    assert_eq!(press(&handler, &mut state, "q"), HandlerAction::Continue);
    assert_eq!(message(&state), ("No write since last change (use :q! to force)".to_string(), MessageLevel::Error));
    assert_eq!(press(&handler, &mut state, ":q!\n"), HandlerAction::Quit);
}

#[test]
fn edit_and_commit_a_number() {
    let handler = InputHandler::new();
    let mut state = numbers(2);
    press(&handler, &mut state, "i");
    assert_eq!(state.edit_buffer(), Some("1"));
    handler.handle_event(&BackendEvent::Key(BackendKey::Backspace), &mut state, None);
    press(&handler, &mut state, "7");
    let action = handler.handle_event(&key('\n'), &mut state, Some("7".to_string()));
    assert_eq!(action, HandlerAction::Continue);
    assert_eq!(*state.mode(), EditorMode::Normal);
    assert_eq!(state.tree().get_node(&[0]).unwrap().value(), &JsonValue::Number("7".to_string()));
    assert_eq!(message(&state), ("Value updated".to_string(), MessageLevel::Info));
    assert!(state.is_dirty());
}

#[test]
fn committing_text_into_a_number_fails() {
    let handler = InputHandler::new();
    let mut state = numbers(1);
    press(&handler, &mut state, "ix\n");
    assert_eq!(*state.mode(), EditorMode::Insert);
    assert_eq!(message(&state), ("Invalid value: Invalid number format".to_string(), MessageLevel::Error));
    handler.handle_event(&BackendEvent::Key(BackendKey::Esc), &mut state, None);
    assert_eq!(*state.mode(), EditorMode::Normal);
    assert_eq!(message(&state), ("Edit cancelled".to_string(), MessageLevel::Info));
    assert_eq!(state.tree().get_node(&[0]).unwrap().value(), &JsonValue::Number("1".to_string()));
}

#[test]
fn dd_deletes_and_a_count_repeats_it() {
    let handler = InputHandler::new();
    let mut state = numbers(5);
    press(&handler, &mut state, "d");
    assert_eq!(state.pending_command(), Some('d'));
    assert_eq!(state.total_lines(), 5);
    press(&handler, &mut state, "d");
    assert_eq!(state.total_lines(), 4);
    assert_eq!(message(&state), ("Node deleted".to_string(), MessageLevel::Info));
    press(&handler, &mut state, "2dd");
    assert_eq!(state.total_lines(), 2);
    assert_eq!(state.tree().get_node(&[0]).unwrap().value(), &JsonValue::Number("4".to_string()));
    assert_eq!(state.pending_count(), None);
}

#[test]
fn counts_move_and_jump() {
    let handler = InputHandler::new();
    let mut state = numbers(6);
    press(&handler, &mut state, "3j");
    assert_eq!(state.cursor().path(), &[3]);
    press(&handler, &mut state, "k");
    assert_eq!(state.cursor().path(), &[2]);
    press(&handler, &mut state, "G");
    assert_eq!(state.cursor().path(), &[5]);
    press(&handler, &mut state, "gg");
    assert_eq!(state.cursor().path(), &[0]);
    press(&handler, &mut state, "5g");
    assert_eq!(state.cursor().path(), &[4]);
    press(&handler, &mut state, "2G");
    assert_eq!(state.cursor().path(), &[1]);
}

#[test]
fn yank_then_paste_duplicates_the_node() {
    let handler = InputHandler::new();
    let mut state = numbers(2);
    press(&handler, &mut state, "yy");
    assert_eq!(message(&state), ("Node yanked".to_string(), MessageLevel::Info));
    press(&handler, &mut state, "p");
    assert_eq!(state.total_lines(), 3);
    assert_eq!(state.tree().get_node(&[1]).unwrap().value(), &JsonValue::Number("1".to_string()));
    assert_eq!(state.cursor().path(), &[1]);
    press(&handler, &mut state, "u");
    assert_eq!(state.total_lines(), 2);
    handler.handle_event(&BackendEvent::Key(BackendKey::Ctrl('r')), &mut state, None);
    assert_eq!(state.total_lines(), 3);
}

#[test]
fn paste_with_an_empty_clipboard_reports_it() {
    let handler = InputHandler::new();
    let mut state = numbers(1);
    press(&handler, &mut state, "P");
    assert_eq!(message(&state), ("Paste failed: Nothing to paste".to_string(), MessageLevel::Error));
}

#[test]
fn add_a_field_to_an_object_through_keys() {
    let handler = InputHandler::new();
    let tree = JsonTree::new(JsonNode::new(JsonValue::Object(vec![
        ("name".to_string(), JsonNode::new(JsonValue::String("Alice".to_string()))),
    ])));
    let mut state = EditorState::new(tree);
    press(&handler, &mut state, "a");
    press(&handler, &mut state, "email\n");
    assert_eq!(*state.mode(), EditorMode::Insert);
    press(&handler, &mut state, "x@y\n");
    assert_eq!(*state.mode(), EditorMode::Normal);
    match state.tree().root().value() {
        JsonValue::Object(entries) => {
            assert_eq!(entries.len(), 2);
            assert_eq!(entries[1].0, "email");
            assert_eq!(entries[1].1.value(), &JsonValue::String("x@y".to_string()));
        }
        _ => panic!("expected an object"),
    }
    assert_eq!(message(&state), ("Added field 'email'".to_string(), MessageLevel::Info));
}

#[test]
fn search_finds_matches_and_n_cycles() {
    let handler = InputHandler::new();
    let tree = JsonTree::new(JsonNode::new(JsonValue::Object(vec![
        ("alpha".to_string(), JsonNode::new(JsonValue::Null)),
        ("beta".to_string(), JsonNode::new(JsonValue::Null)),
        ("Alpine".to_string(), JsonNode::new(JsonValue::Null)),
    ])));
    let mut state = EditorState::new(tree);
    press(&handler, &mut state, "/al");
    assert_eq!(state.cursor().path(), &[0]);
    press(&handler, &mut state, "\n");
    assert_eq!(*state.mode(), EditorMode::Normal);
    assert_eq!(message(&state), ("Found 2 matches".to_string(), MessageLevel::Info));
    press(&handler, &mut state, "n");
    assert_eq!(state.cursor().path(), &[2]);
    assert_eq!(message(&state), ("Match 2/2".to_string(), MessageLevel::Info));
    press(&handler, &mut state, "n");
    assert_eq!(state.cursor().path(), &[0]);
}

#[test]
fn write_commands_ask_the_caller_to_write() {
    let handler = InputHandler::new();
    let mut state = numbers(1);
    assert_eq!(press(&handler, &mut state, ":w\n"), HandlerAction::Continue);
    assert_eq!(message(&state), ("No file name (use :w <filename>)".to_string(), MessageLevel::Error));
    assert_eq!(
        press(&handler, &mut state, ":w out.json\n"),
        HandlerAction::Write { filename: "out.json".to_string(), quit_after: false }
    );
    state.set_filename("data.json".to_string());
    state.mark_dirty();
    assert_eq!(
        press(&handler, &mut state, ":wq\n"),
        HandlerAction::Write { filename: "data.json".to_string(), quit_after: true }
    );
    assert_eq!(
        press(&handler, &mut state, "ZZ"),
        HandlerAction::Write { filename: "data.json".to_string(), quit_after: true }
    );
    let after = handler.finish_write(&mut state, "data.json".to_string(), Ok(()), false);
    assert_eq!(after, HandlerAction::Continue);
    assert!(!state.is_dirty());
    assert_eq!(message(&state), ("\"data.json\" written".to_string(), MessageLevel::Info));
    assert_eq!(press(&handler, &mut state, "ZZ"), HandlerAction::Quit);
    let failed = handler.finish_write(&mut state, "x.json".to_string(), Err("disk full".to_string()), true);
    assert_eq!(failed, HandlerAction::Continue);
    assert_eq!(message(&state), ("Error saving file: disk full".to_string(), MessageLevel::Error));
}

#[test]
fn settings_and_theme_commands() {
    let handler = InputHandler::new();
    let mut state = numbers(1);
    press(&handler, &mut state, ":set\n");
    assert_eq!(message(&state), ("Settings: number".to_string(), MessageLevel::Info));
    press(&handler, &mut state, ":set nonu\n");
    assert!(!state.show_line_numbers());
    press(&handler, &mut state, ":set number?\n");
    assert_eq!(message(&state), ("number is off".to_string(), MessageLevel::Info));
    press(&handler, &mut state, ":set bogus\n");
    assert_eq!(message(&state), ("Unknown setting: bogus".to_string(), MessageLevel::Error));
    assert_eq!(press(&handler, &mut state, ":set save\n"), HandlerAction::SaveConfig);
    handler.finish_save_config(&mut state, Ok(Some("/tmp/c.toml".to_string())));
    assert_eq!(message(&state), ("Settings saved to /tmp/c.toml".to_string(), MessageLevel::Info));
    press(&handler, &mut state, ":theme\n");
    assert_eq!(message(&state), ("Available themes: default-dark, default-light".to_string(), MessageLevel::Info));
    press(&handler, &mut state, ":theme default-light\n");
    assert_eq!(state.current_theme(), "default-light");
    assert_eq!(state.take_pending_theme(), Some("default-light".to_string()));
    press(&handler, &mut state, ":theme  nope \n");
    assert_eq!(message(&state), ("Unknown theme: nope (use :theme to list)".to_string(), MessageLevel::Error));
    press(&handler, &mut state, ":frobnicate\n");
    assert_eq!(message(&state), ("Unknown command: frobnicate".to_string(), MessageLevel::Error));
}

#[test]
fn help_overlay_takes_the_keys_while_shown() {
    let handler = InputHandler::new();
    let mut state = numbers(3);
    press(&handler, &mut state, "?");
    assert!(state.show_help());
    press(&handler, &mut state, "jjk");
    assert_eq!(state.help_scroll(), 1);
    assert_eq!(state.cursor().path(), &[0]);
    handler.handle_event(&BackendEvent::Key(BackendKey::Esc), &mut state, None);
    assert!(!state.show_help());
}

#[test]
fn other_events_change_nothing() {
    let handler = InputHandler::new();
    let mut state = numbers(3);
    assert_eq!(handler.handle_event(&BackendEvent::Resize(80, 24), &mut state, None), HandlerAction::Continue);
    assert_eq!(handler.handle_event(&BackendEvent::Mouse(BackendMouse::WheelDown), &mut state, None), HandlerAction::Continue);
    assert_eq!(state.cursor().path(), &[0]);
}

#[test]
fn search_finds_matches_inside_collapsed_nodes() {
    let handler = InputHandler::new();
    let tree = JsonTree::new(JsonNode::new(JsonValue::Object(vec![
        ("top".to_string(), JsonNode::new(JsonValue::Null)),
        (
            "outer".to_string(),
            JsonNode::new(JsonValue::Object(vec![(
                "inner".to_string(),
                JsonNode::new(JsonValue::Array(vec![JsonNode::new(JsonValue::String("Needle".to_string()))])),
            )])),
        ),
    ])));
    let mut state = EditorState::new(tree);
    assert_eq!(state.tree_view().lines().len(), 2);
    press(&handler, &mut state, "/needle\n");
    assert_eq!(state.cursor().path(), &[1, 0, 0]);
    assert_eq!(state.search_results_info(), Some((1, 1)));
    assert!(state.tree_view().is_expanded(&[1]));
    assert!(state.tree_view().is_expanded(&[1, 0]));
    let paths: Vec<Vec<usize>> = state.tree_view().lines().iter().map(|l| l.path.clone()).collect();
    assert_eq!(paths, vec![vec![0], vec![1], vec![1, 0], vec![1, 0, 0]]);
}

fn array_texts(state: &EditorState) -> Vec<String> {
    match state.tree().root().value() {
        JsonValue::Array(items) => items
            .iter()
            .map(|n| match n.value() {
                JsonValue::Number(t) => t.clone(),
                _ => panic!("expected a number"),
            })
            .collect(),
        _ => panic!("expected an array"),
    }
}

#[test]
fn a_count_before_yy_yanks_that_many_nodes() {
    let handler = InputHandler::new();
    let mut state = numbers(4);
    press(&handler, &mut state, "2yy");
    assert_eq!(message(&state), ("2 nodes yanked".to_string(), MessageLevel::Info));
    let yanked: Vec<&JsonValue> = state.clipboard().iter().map(|(_, n)| n.value()).collect();
    assert_eq!(yanked, vec![&JsonValue::Number("1".to_string()), &JsonValue::Number("2".to_string())]);
    state.cursor_mut().set_path(vec![3]);
    press(&handler, &mut state, "p");
    assert_eq!(message(&state), ("Node pasted".to_string(), MessageLevel::Info));
    assert_eq!(array_texts(&state), vec!["1", "2", "3", "4", "1", "2"]);
    assert_eq!(state.cursor().path(), &[4]);
}

#[test]
fn a_count_past_the_last_sibling_yanks_the_rest() {
    let handler = InputHandler::new();
    let mut state = numbers(3);
    state.cursor_mut().set_path(vec![1]);
    press(&handler, &mut state, "5yy");
    assert_eq!(state.clipboard().len(), 2);
    press(&handler, &mut state, "yy");
    assert_eq!(message(&state), ("Node yanked".to_string(), MessageLevel::Info));
    assert_eq!(state.clipboard().len(), 1);
}

#[test]
fn pasting_several_nodes_before_the_cursor_keeps_their_order() {
    let handler = InputHandler::new();
    let mut state = numbers(3);
    press(&handler, &mut state, "2yy");
    state.cursor_mut().set_path(vec![2]);
    press(&handler, &mut state, "P");
    assert_eq!(array_texts(&state), vec!["1", "2", "1", "2", "3"]);
    assert_eq!(state.cursor().path(), &[2]);
}

#[test]
fn pasting_several_members_into_an_object_makes_each_key_unique() {
    let handler = InputHandler::new();
    let tree = JsonTree::new(JsonNode::new(JsonValue::Object(vec![
        ("a".to_string(), JsonNode::new(JsonValue::Null)),
        ("b".to_string(), JsonNode::new(JsonValue::Boolean(true))),
    ])));
    let mut state = EditorState::new(tree);
    press(&handler, &mut state, "2yy");
    assert_eq!(state.clipboard()[1].0, Some("b".to_string()));
    state.cursor_mut().set_path(vec![1]);
    press(&handler, &mut state, "p");
    let keys: Vec<String> = match state.tree().root().value() {
        JsonValue::Object(entries) => entries.iter().map(|(k, _)| k.clone()).collect(),
        _ => panic!("expected an object"),
    };
    assert_eq!(keys, vec!["a", "b", "a2", "b2"]);
    assert_eq!(state.tree().get_node(&[3]).unwrap().value(), &JsonValue::Boolean(true));
}
