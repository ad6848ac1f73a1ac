use enacs::cursor::{Cursor, CursorSet};
use enacs::position::CharOffset;

#[test]
fn test_cursor_region() {
    let mut cursor = Cursor::new(CharOffset(10));
    cursor.set_mark(CharOffset(5));
    assert_eq!(cursor.region(), Some((CharOffset(5), CharOffset(10))));

    cursor.deactivate_mark();
    assert_eq!(cursor.region(), None);
}

#[test]
fn test_cursor_set_add_and_merge() {
    let mut set = CursorSet::single(CharOffset(10));
    set.add_cursor(CharOffset(5));
    set.add_cursor(CharOffset(15));
    set.add_cursor(CharOffset(10));

    assert_eq!(set.count(), 3);

    let positions: Vec<usize> = set.all_cursors().iter().map(|c| c.position.0).collect();
    assert_eq!(positions, vec![5, 10, 15]);
}

#[test]
fn test_adjust_after_insert() {
    let mut set = CursorSet::single(CharOffset(10));
    set.add_cursor(CharOffset(20));
    set.add_cursor(CharOffset(30));

    set.adjust_positions_after_insert(CharOffset(15), 5);

    let positions: Vec<usize> = set.all_cursors().iter().map(|c| c.position.0).collect();
    assert_eq!(positions, vec![10, 25, 35]);
}

#[test]
fn test_adjust_after_delete() {
    let mut set = CursorSet::single(CharOffset(10));
    set.add_cursor(CharOffset(20));
    set.add_cursor(CharOffset(30));

    set.adjust_positions_after_delete(CharOffset(12), CharOffset(18));

    let positions: Vec<usize> = set.all_cursors().iter().map(|c| c.position.0).collect();
    assert_eq!(positions, vec![10, 14, 24]);
}

#[test]
fn test_positions_descending_sorted() {
    let mut set = CursorSet::single(CharOffset(4));
    set.add_cursor(CharOffset(9));
    set.add_cursor(CharOffset(1));
    let ps: Vec<usize> = set.positions_descending().iter().map(|p| p.0).collect();
    assert_eq!(ps, vec![9, 4, 1]);
}

#[test]
fn test_exchange_point_and_mark() {
    let mut c = Cursor::new(CharOffset(3));
    c.set_mark(CharOffset(8));
    c.exchange_point_and_mark();
    assert_eq!(c.position, CharOffset(8));
    assert_eq!(c.mark, Some(CharOffset(3)));
}
