use enacs::buffer::Buffer;
use enacs::cursor::CursorSet;
use enacs::position::{CharOffset, Position};
use enacs::rope_ext::{
    char_to_position, find_word_boundary_backward, find_word_boundary_forward, position_to_char,
};

#[test]
fn test_char_to_position() {
    let rope = ropey::Rope::from_str("hello\nworld\n");
    assert_eq!(char_to_position(&rope, CharOffset(0)), Position::new(0, 0));
    assert_eq!(char_to_position(&rope, CharOffset(5)), Position::new(0, 5));
    assert_eq!(char_to_position(&rope, CharOffset(6)), Position::new(1, 0));
    assert_eq!(char_to_position(&rope, CharOffset(11)), Position::new(1, 5));
}

#[test]
fn test_position_to_char() {
    let rope = ropey::Rope::from_str("hello\nworld\n");
    assert_eq!(position_to_char(&rope, Position::new(0, 0)), CharOffset(0));
    assert_eq!(position_to_char(&rope, Position::new(0, 5)), CharOffset(5));
    assert_eq!(position_to_char(&rope, Position::new(1, 0)), CharOffset(6));
    assert_eq!(position_to_char(&rope, Position::new(1, 5)), CharOffset(11));
}

#[test]
fn test_word_boundary_forward() {
    let rope = ropey::Rope::from_str("hello world foo");
    assert_eq!(find_word_boundary_forward(&rope, CharOffset(0)), CharOffset(5));
    assert_eq!(find_word_boundary_forward(&rope, CharOffset(5)), CharOffset(11));
    assert_eq!(find_word_boundary_forward(&rope, CharOffset(6)), CharOffset(11));
}

#[test]
fn test_word_boundary_backward() {
    let rope = ropey::Rope::from_str("hello world foo");
    assert_eq!(find_word_boundary_backward(&rope, CharOffset(15)), CharOffset(12));
    assert_eq!(find_word_boundary_backward(&rope, CharOffset(11)), CharOffset(6));
    assert_eq!(find_word_boundary_backward(&rope, CharOffset(5)), CharOffset(0));
}

#[test]
fn test_buffer_insert() {
    let mut buffer = Buffer::new("test");
    let mut cursors = CursorSet::new();
    buffer.insert_string(&mut cursors, "hello");
    assert_eq!(buffer.text.to_string(), "hello");
    assert_eq!(cursors.primary.position, CharOffset(5));
}

#[test]
fn test_buffer_delete_forward() {
    let mut buffer = Buffer::from_string("test", "hello");
    let mut cursors = CursorSet::new();
    cursors.primary.position = CharOffset(0);
    buffer.delete_char_forward(&mut cursors);
    assert_eq!(buffer.text.to_string(), "ello");
}

#[test]
fn test_buffer_delete_backward() {
    let mut buffer = Buffer::from_string("test", "hello");
    let mut cursors = CursorSet::new();
    cursors.primary.position = CharOffset(5);
    buffer.delete_char_backward(&mut cursors);
    assert_eq!(buffer.text.to_string(), "hell");
    assert_eq!(cursors.primary.position, CharOffset(4));
}

#[test]
fn test_buffer_undo() {
    let mut buffer = Buffer::new("test");
    let mut cursors = CursorSet::new();
    buffer.insert_string(&mut cursors, "hello");
    buffer.add_undo_boundary();
    buffer.insert_string(&mut cursors, " world");

    assert_eq!(buffer.text.to_string(), "hello world");

    buffer.undo(&mut cursors);
    assert_eq!(buffer.text.to_string(), "hello");
}

#[test]
fn test_multi_cursor_insert() {
    let mut buffer = Buffer::from_string("test", "aa bb cc");
    let mut cursors = CursorSet::new();
    cursors.primary.position = CharOffset(0);
    cursors.add_cursor(CharOffset(3));
    cursors.add_cursor(CharOffset(6));

    buffer.insert_string(&mut cursors, "X");

    assert_eq!(buffer.text.to_string(), "Xaa Xbb Xcc");
}

#[test]
fn test_multi_cursor_undo_single_action() {
    let mut buffer = Buffer::from_string("test", "aa bb cc");
    let mut cursors = CursorSet::new();
    cursors.primary.position = CharOffset(0);
    cursors.add_cursor(CharOffset(3));
    cursors.add_cursor(CharOffset(6));

    buffer.insert_string(&mut cursors, "X");
    assert_eq!(buffer.text.to_string(), "Xaa Xbb Xcc");

    buffer.add_undo_boundary();

    buffer.undo(&mut cursors);
    assert_eq!(buffer.text.to_string(), "aa bb cc");
}

#[test]
fn test_multi_cursor_coalesce_word() {
    let mut buffer = Buffer::from_string("test", "");
    let mut cursors = CursorSet::new();
    cursors.primary.position = CharOffset(0);

    buffer.insert_string(&mut cursors, "h");
    buffer.insert_string(&mut cursors, "e");
    buffer.insert_string(&mut cursors, "l");
    buffer.insert_string(&mut cursors, "l");
    buffer.insert_string(&mut cursors, "o");

    assert_eq!(buffer.text.to_string(), "hello");

    buffer.add_undo_boundary();
    buffer.undo(&mut cursors);

    assert_eq!(buffer.text.to_string(), "");
}

#[test]
fn test_undo_newline_cursor_position() {
    let mut buffer = Buffer::new("test");
    let mut cursors = CursorSet::new();

    buffer.insert_string(&mut cursors, "foo");
    assert_eq!(buffer.text.to_string(), "foo");
    assert_eq!(cursors.primary.position, CharOffset(3));

    buffer.insert_string(&mut cursors, "\n");
    assert_eq!(buffer.text.to_string(), "foo\n");
    assert_eq!(cursors.primary.position, CharOffset(4));

    buffer.insert_string(&mut cursors, "bar");
    assert_eq!(buffer.text.to_string(), "foo\nbar");
    assert_eq!(cursors.primary.position, CharOffset(7));

    buffer.undo(&mut cursors);
    assert_eq!(buffer.text.to_string(), "foo\n");
    assert_eq!(cursors.primary.position, CharOffset(4));

    buffer.undo(&mut cursors);
    assert_eq!(buffer.text.to_string(), "foo");
    assert_eq!(cursors.primary.position, CharOffset(3));

    buffer.undo(&mut cursors);
    assert_eq!(buffer.text.to_string(), "");
    assert_eq!(cursors.primary.position, CharOffset(0));
}

#[test]
fn test_multi_cursor_coalesce_word_multiple_cursors() {
    let mut buffer = Buffer::from_string("test", "X Y");
    let mut cursors = CursorSet::new();
    cursors.primary.position = CharOffset(0);
    cursors.add_cursor(CharOffset(2));

    buffer.insert_string(&mut cursors, "h");
    assert_eq!(buffer.text.to_string(), "hX hY");

    buffer.insert_string(&mut cursors, "i");
    assert_eq!(buffer.text.to_string(), "hiX hiY");

    buffer.add_undo_boundary();
    buffer.undo(&mut cursors);

    assert_eq!(buffer.text.to_string(), "X Y");
}

#[test]
fn test_undo_then_redo_restores_text_and_cursor() {
    let mut buffer = Buffer::new("test");
    let mut cursors = CursorSet::new();
    buffer.insert_string(&mut cursors, "alpha");
    buffer.add_undo_boundary();

    buffer.undo(&mut cursors);
    assert_eq!(buffer.text.to_string(), "");
    buffer.add_undo_boundary();

    buffer.redo(&mut cursors);
    assert_eq!(buffer.text.to_string(), "alpha");
    assert_eq!(cursors.primary.position, CharOffset(5));
}

#[test]
fn test_delete_region_returns_text() {
    let mut buffer = Buffer::from_string("test", "hello world");
    let mut cursors = CursorSet::new();
    cursors.primary.position = CharOffset(0);
    let deleted = buffer.delete_region(&mut cursors, CharOffset(0), CharOffset(6));
    assert_eq!(deleted, "hello ");
    assert_eq!(buffer.text.to_string(), "world");
}

#[test]
fn test_read_only_buffer_rejects_edits() {
    let mut buffer = Buffer::from_string("test", "abc");
    buffer.read_only = true;
    let mut cursors = CursorSet::new();
    buffer.insert_string(&mut cursors, "x");
    assert_eq!(buffer.text.to_string(), "abc");
    assert_eq!(buffer.delete_char_forward(&mut cursors), None);
}

#[test]
fn test_buffer_slice_and_lines() {
    let buffer = Buffer::from_string("test", "one\ntwo\n");
    assert_eq!(buffer.slice(CharOffset(0), CharOffset(3)), "one");
    assert_eq!(buffer.len_chars(), 8);
    assert_eq!(buffer.len_lines(), 3);
    assert_eq!(buffer.line(1), Some("two\n".to_string()));
    assert_eq!(buffer.line(5), None);
}
