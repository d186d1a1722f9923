use jsonquill::editor::mode::EditorMode;
use jsonquill::input::backend::BackendKey;
use jsonquill::input::keys::{map_key_event, InputEvent};

#[test]
fn test_normal_mode_quit() {
    let key = BackendKey::Char('q');
    assert_eq!(map_key_event(&key, &EditorMode::Normal), InputEvent::Quit);
}

#[test]
fn test_normal_mode_movement_vim_keys() {
    assert_eq!(map_key_event(&BackendKey::Char('j'), &EditorMode::Normal), InputEvent::MoveDown);
    assert_eq!(map_key_event(&BackendKey::Char('k'), &EditorMode::Normal), InputEvent::MoveUp);
    assert_eq!(map_key_event(&BackendKey::Char('h'), &EditorMode::Normal), InputEvent::MoveLeft);
    assert_eq!(map_key_event(&BackendKey::Char('l'), &EditorMode::Normal), InputEvent::MoveRight);
}

#[test]
fn test_normal_mode_movement_arrow_keys() {
    assert_eq!(map_key_event(&BackendKey::Down, &EditorMode::Normal), InputEvent::MoveDown);
    assert_eq!(map_key_event(&BackendKey::Up, &EditorMode::Normal), InputEvent::MoveUp);
}

#[test]
fn test_normal_mode_enter_modes() {
    assert_eq!(map_key_event(&BackendKey::Char('i'), &EditorMode::Normal), InputEvent::EnterInsertMode);
    assert_eq!(map_key_event(&BackendKey::Char(':'), &EditorMode::Normal), InputEvent::EnterCommandMode);
}

#[test]
fn test_insert_mode_exit() {
    assert_eq!(map_key_event(&BackendKey::Esc, &EditorMode::Insert), InputEvent::ExitMode);
}

#[test]
fn test_command_mode_exit() {
    assert_eq!(map_key_event(&BackendKey::Esc, &EditorMode::Command), InputEvent::ExitMode);
}

#[test]
fn test_unknown_key() {
    assert_eq!(map_key_event(&BackendKey::Char('x'), &EditorMode::Normal), InputEvent::Unknown);
}

#[test]
fn ctrl_keys_page_and_redo_in_normal_mode() {
    assert_eq!(map_key_event(&BackendKey::Ctrl('d'), &EditorMode::Normal), InputEvent::PageDown);
    assert_eq!(map_key_event(&BackendKey::Ctrl('u'), &EditorMode::Normal), InputEvent::PageUp);
    assert_eq!(map_key_event(&BackendKey::Ctrl('r'), &EditorMode::Normal), InputEvent::Redo);
    assert_eq!(map_key_event(&BackendKey::Ctrl('j'), &EditorMode::Normal), InputEvent::MoveDown);
}

#[test]
fn digits_are_counts_in_normal_mode() {
    assert_eq!(map_key_event(&BackendKey::Char('7'), &EditorMode::Normal), InputEvent::CountDigit(7));
    assert_eq!(map_key_event(&BackendKey::Char('0'), &EditorMode::Normal), InputEvent::CountDigit(0));
}

#[test]
fn insert_mode_keys() {
    assert_eq!(map_key_event(&BackendKey::Char('\n'), &EditorMode::Insert), InputEvent::InsertEnter);
    assert_eq!(map_key_event(&BackendKey::Char('z'), &EditorMode::Insert), InputEvent::InsertCharacter('z'));
    assert_eq!(map_key_event(&BackendKey::Backspace, &EditorMode::Insert), InputEvent::InsertBackspace);
    assert_eq!(map_key_event(&BackendKey::Char('\t'), &EditorMode::Insert), InputEvent::Unknown);
    assert_eq!(map_key_event(&BackendKey::Char('q'), &EditorMode::Search), InputEvent::Unknown);
}
