use enacs::buffer::{Buffer, BufferId};
use enacs::buffer_mgr::BufferManager;
use enacs::minibuffer::Minibuffer;
use enacs::registry::{Command, CommandAction, CommandRegistry, PrefixArg};
use enacs::window_mgr::WindowManager;

#[test]
fn test_minibuffer_input() {
    let mut mb = Minibuffer::new();
    mb.start_prompt("Test: ", "test-callback");

    mb.insert_char('h');
    mb.insert_char('e');
    mb.insert_char('l');
    mb.insert_char('l');
    mb.insert_char('o');

    assert_eq!(mb.content, "hello");
    assert_eq!(mb.cursor_pos, 5);
}

#[test]
fn test_minibuffer_delete() {
    let mut mb = Minibuffer::new();
    mb.start_prompt("Test: ", "test-callback");
    mb.content = "hello".to_string();
    mb.cursor_pos = 5;

    mb.delete_backward();
    assert_eq!(mb.content, "hell");

    mb.cursor_pos = 0;
    mb.delete_forward();
    assert_eq!(mb.content, "ell");
}

#[test]
fn test_minibuffer_submit() {
    let mut mb = Minibuffer::new();
    mb.start_prompt("Test: ", "test-callback");
    mb.content = "hello".to_string();

    let result = mb.submit();
    assert_eq!(result, Some(("hello".to_string(), "test-callback")));
    assert!(!mb.is_active());
}

#[test]
fn test_minibuffer_history() {
    let mut mb = Minibuffer::new();
    mb.start_prompt("Test: ", "cb");
    mb.content = "first".to_string();
    mb.submit();
    mb.start_prompt("Test: ", "cb");
    mb.content = "second".to_string();
    mb.submit();
    mb.start_prompt("Test: ", "cb");
    mb.history_prev();
    assert_eq!(mb.content, "second");
    mb.history_prev();
    assert_eq!(mb.content, "first");
    mb.history_next();
    assert_eq!(mb.content, "second");
}

#[test]
fn test_window_manager_add() {
    let mut mgr = WindowManager::with_dimensions(80, 24);
    let buffer_id = BufferId(1);
    mgr.add(buffer_id);

    assert_eq!(mgr.count(), 1);
    assert_eq!(mgr.current_buffer_id(), Some(buffer_id));
}

#[test]
fn test_window_split_vertical() {
    let mut mgr = WindowManager::with_dimensions(80, 24);
    let buffer_id = BufferId(1);
    mgr.add(buffer_id);
    mgr.split_vertical();

    assert_eq!(mgr.count(), 2);
}

#[test]
fn test_window_cycle() {
    let mut mgr = WindowManager::with_dimensions(80, 24);
    mgr.add(BufferId(1));
    mgr.add(BufferId(2));

    assert_eq!(mgr.current, 0);
    mgr.cycle_next();
    assert_eq!(mgr.current, 1);
    mgr.cycle_next();
    assert_eq!(mgr.current, 0);
}

#[test]
fn test_buffer_manager_add_and_get() {
    let mut mgr = BufferManager::new();
    let buffer = Buffer::new("test");
    let id = mgr.add(buffer);

    assert!(mgr.get(id).is_some());
    assert_eq!(mgr.get(id).unwrap().name, "test");
}

#[test]
fn test_buffer_manager_current() {
    let mut mgr = BufferManager::new();
    let buffer1 = Buffer::new("buf1");
    let buffer2 = Buffer::new("buf2");

    let id1 = mgr.add(buffer1);
    let id2 = mgr.add(buffer2);

    assert_eq!(mgr.current_id(), Some(id1));

    mgr.set_current(id2);
    assert_eq!(mgr.current_id(), Some(id2));
}

#[test]
fn test_buffer_manager_kill() {
    let mut mgr = BufferManager::new();
    let buffer1 = Buffer::new("buf1");
    let buffer2 = Buffer::new("buf2");

    let id1 = mgr.add(buffer1);
    let id2 = mgr.add(buffer2);

    mgr.set_current(id1);
    let killed = mgr.kill(id1);

    assert!(killed.is_some());
    assert!(mgr.get(id1).is_none());
    assert_eq!(mgr.current_id(), Some(id2));
}

#[test]
fn test_registry_register_and_get() {
    let mut registry = CommandRegistry::new();
    registry.register(Command::new("test-command", CommandAction::SelfInsertCommand));

    assert!(registry.get("test-command").is_some());
    assert!(registry.get("nonexistent").is_none());
}

#[test]
fn test_prefix_arg_count() {
    assert_eq!(PrefixArg::Unset.count(), 1);
    assert_eq!(PrefixArg::Universal(4).count(), 4);
    assert_eq!(PrefixArg::Negative.count(), -1);
    assert_eq!(PrefixArg::Raw(10).count(), 10);
}
