use enacs::buffer::Buffer;
use enacs::editor::EditorState;
use enacs::key::KeyEvent;
use enacs::position::CharOffset;
use enacs::registry::CommandContext;

fn make_state(content: &str) -> EditorState {
    let mut state = EditorState::new();
    let buffer = Buffer::from_string("test", content);
    let id = state.buffers.add(buffer);
    state.buffers.set_current(id);
    state.windows.set_current_buffer(id);
    state
}

fn text(state: &EditorState) -> String {
    state.current_buffer().unwrap().text.to_string()
}

fn primary_pos(state: &EditorState) -> usize {
    state.windows.current().unwrap().cursors.primary.position.0
}

fn undo(state: &mut EditorState) {
    state.execute_command("undo");
}

#[test]
fn test_coalesced_word_insert_single_undo() {
    let mut state = EditorState::new();
    for c in ['h', 'e', 'l', 'l', 'o'] {
        state.handle_key(KeyEvent::char(c));
    }
    assert_eq!(text(&state), "hello");
    assert_eq!(primary_pos(&state), 5);

    undo(&mut state);
    assert_eq!(text(&state), "");
    assert_eq!(primary_pos(&state), 0);
}

#[test]
fn test_newline_breaks_coalesce_stepwise() {
    let mut state = EditorState::new();
    for c in ['h', 'i', ' ', 'y', 'o'] {
        state.handle_key(KeyEvent::char(c));
    }
    assert_eq!(text(&state), "hi yo");

    undo(&mut state);
    assert_eq!(text(&state), "hi ");
    undo(&mut state);
    assert_eq!(text(&state), "hi");
    undo(&mut state);
    assert_eq!(text(&state), "");
}

#[test]
fn test_multi_cursor_insert_and_undo() {
    let mut state = make_state("aa bb cc");
    let mut cs = state.windows.current_cursors().unwrap();
    cs.primary.position = CharOffset(0);
    cs.add_cursor(CharOffset(3));
    cs.add_cursor(CharOffset(6));
    state.windows.put_current_cursors(cs);

    enacs::editing::self_insert(&mut state, 'X').unwrap();
    state.post_command("self-insert-command");
    assert_eq!(text(&state), "Xaa Xbb Xcc");

    undo(&mut state);
    assert_eq!(text(&state), "aa bb cc");
}

#[test]
fn test_kill_line_then_yank() {
    let mut state = make_state("hello world\n");
    let ctx = CommandContext::new();
    enacs::kill_yank::kill_line(&mut state, &ctx).unwrap();
    assert_eq!(text(&state), "\n");
    assert_eq!(state.kill_ring.yank(), Some("hello world"));

    enacs::kill_yank::yank(&mut state, &ctx).unwrap();
    assert_eq!(text(&state), "hello world\n");
}

#[test]
fn test_yank_pop_cycling() {
    let mut state = make_state("");
    state.kill_ring.push("A".to_string(), false);
    state.kill_ring.set_last_was_kill(false);
    state.kill_ring.push("B".to_string(), false);
    state.kill_ring.set_last_was_kill(false);
    state.kill_ring.push("C".to_string(), false);

    state.execute_command("yank");
    assert_eq!(text(&state), "C");

    state.execute_command("yank-pop");
    assert_eq!(text(&state), "B");

    state.execute_command("yank-pop");
    assert_eq!(text(&state), "A");

    state.execute_command("yank-pop");
    assert_eq!(text(&state), "C");
}

#[test]
fn test_yank_pop_guard_requires_yank() {
    let mut state = make_state("");
    state.kill_ring.push("A".to_string(), false);
    state.execute_command("forward-char");
    state.execute_command("yank-pop");
    assert_eq!(text(&state), "");
    assert_eq!(state.message.as_deref(), Some("Previous command was not a yank"));
}

#[test]
fn test_undo_redo_branch_traversal() {
    let mut state = EditorState::new();
    let insert = |state: &mut EditorState, s: &str| {
        let mut cs = state.windows.current_cursors().unwrap();
        let id = state.windows.current_buffer_id().unwrap();
        let i = state.buffers.index_of(id).unwrap();
        state.buffers.buffers[i].insert_string(&mut cs, s);
        state.buffers.buffers[i].add_undo_boundary();
        state.windows.put_current_cursors(cs);
    };
    insert(&mut state, "foo\n");
    insert(&mut state, "bar\n");
    insert(&mut state, "baz\n");
    insert(&mut state, "faz");
    assert_eq!(text(&state), "foo\nbar\nbaz\nfaz");

    undo(&mut state);
    assert_eq!(text(&state), "foo\nbar\nbaz\n");
    undo(&mut state);
    assert_eq!(text(&state), "foo\nbar\n");

    insert(&mut state, "hello\n");
    insert(&mut state, "world");

    undo(&mut state);
    undo(&mut state);
    assert_eq!(text(&state), "foo\nbar\n");

    undo(&mut state);
    assert_eq!(text(&state), "foo\nbar\nbaz\n");
    undo(&mut state);
    assert_eq!(text(&state), "foo\nbar\nbaz\nfaz");
    undo(&mut state);
    assert_eq!(text(&state), "foo\nbar\nbaz\n");
    undo(&mut state);
    assert_eq!(text(&state), "foo\nbar\n");
}

#[test]
fn test_prefix_key_resolution_scenario() {
    let mut map = enacs::keymap::KeyMap::new();
    let mut cx = enacs::keymap::KeyMap::new();
    cx.bind_command(KeyEvent::ctrl('s'), "save-buffer");
    map.bind_prefix(KeyEvent::ctrl('x'), cx);

    let mut resolver = enacs::resolver::KeyResolver::new();
    match resolver.resolve(KeyEvent::ctrl('x'), &map) {
        enacs::resolver::KeyResolution::Prefix(d) => assert_eq!(d, "C-x-"),
        _ => panic!("Expected prefix"),
    }
    assert!(resolver.is_pending());

    match resolver.resolve(KeyEvent::ctrl('s'), &map) {
        enacs::resolver::KeyResolution::Complete(name) => assert_eq!(name, "save-buffer"),
        _ => panic!("Expected completion"),
    }
    assert!(!resolver.is_pending());
}

#[test]
fn test_unbound_key_sets_message() {
    let mut state = EditorState::new();
    state.handle_key(KeyEvent::ctrl('q'));
    assert_eq!(state.message.as_deref(), Some("C-q is undefined"));
}

#[test]
fn test_exit_confirmation_flow() {
    let mut state = EditorState::new();
    state.handle_key(KeyEvent::char('x'));
    state.execute_command("exit");
    assert!(state.pending_exit);
    state.handle_key(KeyEvent::char('n'));
    assert!(!state.should_quit);
    state.execute_command("exit");
    state.handle_key(KeyEvent::char('y'));
    assert!(state.should_quit);
}

#[test]
fn test_yank_leaves_mark_at_insertion_start() {
    let mut state = make_state("\n");
    state.kill_ring.push("hello world".to_string(), false);
    state.execute_command("yank");
    assert_eq!(text(&state), "hello world\n");
    // The cursor sits after the inserted text with its mark at the start.
    let cur = state.windows.current().unwrap().cursors.primary;
    assert_eq!(cur.position.0, 11);
    assert_eq!(cur.mark, Some(CharOffset(0)));
    // Yank resets the pointer: an immediate yank-pop replaces from the top.
    assert_eq!(state.kill_ring.yank(), Some("hello world"));
}

#[test]
fn test_read_only_kill_changes_nothing() {
    let mut state = make_state("hello world\n");
    if let Some(b) = state.current_buffer() {
        let id = b.id;
        let i = state.buffers.index_of(id).unwrap();
        state.buffers.buffers[i].read_only = true;
    }
    let ctx = CommandContext::new();
    let r = enacs::kill_yank::kill_line(&mut state, &ctx);
    assert!(r.is_err());
    assert_eq!(text(&state), "hello world\n");
    assert_eq!(state.kill_ring.len(), 0);
}

#[test]
fn test_split_window_below_tiles_the_frame() {
    let mut state = make_state("x");
    state.set_dimensions(80, 24);
    state.execute_command("split-window-below");
    state.execute_command("split-window-below");
    let windows = state.windows.iter();
    assert_eq!(windows.len(), 3);
    let mut total: u32 = 0;
    for w in windows.iter() {
        assert_eq!(w.width, 80);
        total += w.height as u32;
    }
    // One row stays reserved for the echo area.
    assert_eq!(total, 23);
    // The new windows show the split window's buffer.
    let first = windows[0].buffer_id;
    assert!(windows.iter().all(|w| w.buffer_id == first));
}

#[test]
fn test_exchange_point_and_mark_swaps() {
    let mut state = make_state("hello");
    let ctx = CommandContext::new();
    enacs::editing::set_mark_command(&mut state, &ctx).unwrap();
    enacs::motion::forward_char(&mut state, &ctx).unwrap();
    enacs::motion::forward_char(&mut state, &ctx).unwrap();
    assert_eq!(primary_pos(&state), 2);
    enacs::editing::exchange_point_and_mark(&mut state, &ctx).unwrap();
    let cur = state.windows.current().unwrap().cursors.primary;
    assert_eq!(cur.position.0, 0);
    assert_eq!(cur.mark, Some(CharOffset(2)));
}
