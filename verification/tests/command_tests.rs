use enacs::buffer::Buffer;
use enacs::editor::EditorState;
use enacs::key::KeyEvent;
use enacs::position::CharOffset;
use enacs::registry::{CommandContext, CommandError};

fn make_state(content: &str) -> EditorState {
    let mut state = EditorState::new();
    let buffer = Buffer::from_string("test", content);
    let id = state.buffers.add(buffer);
    state.buffers.set_current(id);
    state.windows.set_current_buffer(id);
    state
}

fn set_primary(state: &mut EditorState, pos: usize) {
    let mut cs = state.windows.current_cursors().unwrap();
    cs.primary.position = CharOffset(pos);
    state.windows.put_current_cursors(cs);
}

fn primary_pos(state: &EditorState) -> usize {
    state.windows.current().unwrap().cursors.primary.position.0
}

fn text(state: &EditorState) -> String {
    state.current_buffer().unwrap().text.to_string()
}

#[test]
fn test_delete_char() {
    let mut state = make_state("hello");
    let ctx = CommandContext::new();

    enacs::editing::delete_char(&mut state, &ctx).unwrap();
    assert_eq!(text(&state), "ello");
}

#[test]
fn test_newline() {
    let mut state = make_state("hello");
    set_primary(&mut state, 5);
    let ctx = CommandContext::new();

    enacs::editing::newline(&mut state, &ctx).unwrap();
    assert_eq!(text(&state), "hello\n");
}

#[test]
fn test_transpose_chars() {
    let mut state = make_state("ab");
    set_primary(&mut state, 1);
    let ctx = CommandContext::new();

    enacs::editing::transpose_chars(&mut state, &ctx).unwrap();
    assert_eq!(text(&state), "ba");
}

#[test]
fn test_forward_char() {
    let mut state = make_state("hello");
    let ctx = CommandContext::new();

    enacs::motion::forward_char(&mut state, &ctx).unwrap();
    assert_eq!(primary_pos(&state), 1);
}

#[test]
fn test_line_movement() {
    let mut state = make_state("hello\nworld\n");
    let ctx = CommandContext::new();

    enacs::motion::next_line(&mut state, &ctx).unwrap();
    assert!(primary_pos(&state) >= 6);
}

#[test]
fn test_word_movement() {
    let mut state = make_state("hello world foo");
    let ctx = CommandContext::new();

    enacs::motion::forward_word(&mut state, &ctx).unwrap();
    assert_eq!(primary_pos(&state), 5);

    enacs::motion::forward_word(&mut state, &ctx).unwrap();
    assert_eq!(primary_pos(&state), 11);
}

#[test]
fn test_kill_line() {
    let mut state = make_state("hello world\n");
    let ctx = CommandContext::new();

    enacs::kill_yank::kill_line(&mut state, &ctx).unwrap();
    assert_eq!(text(&state), "\n");
    assert_eq!(state.kill_ring.yank(), Some("hello world"));
}

#[test]
fn test_kill_word() {
    let mut state = make_state("hello world");
    let ctx = CommandContext::new();

    enacs::kill_yank::kill_word(&mut state, &ctx).unwrap();
    assert_eq!(text(&state), " world");
    assert_eq!(state.kill_ring.yank(), Some("hello"));
}

#[test]
fn test_yank() {
    let mut state = make_state("");
    state.kill_ring.push("hello".to_string(), false);
    let ctx = CommandContext::new();

    enacs::kill_yank::yank(&mut state, &ctx).unwrap();
    assert_eq!(text(&state), "hello");
}

#[test]
fn test_kill_region() {
    let mut state = make_state("hello world");
    let mut cs = state.windows.current_cursors().unwrap();
    cs.primary.position = CharOffset(6);
    cs.primary.set_mark(CharOffset(0));
    state.windows.put_current_cursors(cs);

    let ctx = CommandContext::new();
    enacs::kill_yank::kill_region(&mut state, &ctx).unwrap();

    assert_eq!(text(&state), "world");
    assert_eq!(state.kill_ring.yank(), Some("hello "));
}

#[test]
fn test_read_only_command_error() {
    let mut state = make_state("abc");
    {
        let id = state.windows.current_buffer_id().unwrap();
        let i = state.buffers.index_of(id).unwrap();
        state.buffers.buffers[i].read_only = true;
    }
    let ctx = CommandContext::new();
    let r = enacs::editing::delete_char(&mut state, &ctx);
    assert!(matches!(r, Err(CommandError::ReadOnly)));
    assert_eq!(text(&state), "abc");
}

#[test]
fn test_editor_state_new() {
    let state = EditorState::new();
    assert!(state.current_buffer().is_some());
    assert_eq!(state.current_buffer().unwrap().name, "*scratch*");
}

#[test]
fn test_self_insert() {
    let mut state = EditorState::new();
    state.handle_key(KeyEvent::char('a'));
    assert_eq!(state.current_buffer().unwrap().text.to_string(), "a");
}

#[test]
fn test_command_execution() {
    let mut state = EditorState::new();
    state.handle_key(KeyEvent::char('h'));
    state.handle_key(KeyEvent::char('e'));
    state.handle_key(KeyEvent::char('l'));
    state.handle_key(KeyEvent::char('l'));
    state.handle_key(KeyEvent::char('o'));

    assert_eq!(state.current_buffer().unwrap().text.to_string(), "hello");

    state.handle_key(KeyEvent::ctrl('a'));
    assert_eq!(primary_pos(&state), 0);
}
