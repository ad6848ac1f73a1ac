use enacs::position::CharOffset;
use enacs::undo::{UndoEdit, UndoResult, UndoTree};

#[test]
fn test_undo_insert() {
    let mut tree = UndoTree::new(100);
    tree.record_insert(CharOffset(0), "hello".into());
    tree.add_boundary();

    match tree.undo() {
        UndoResult::Apply { edits, .. } => {
            assert_eq!(edits.len(), 1);
            match &edits[0] {
                UndoEdit::Delete { position, len } => {
                    assert_eq!(*position, CharOffset(0));
                    assert_eq!(*len, 5);
                }
                _ => panic!("Expected delete"),
            }
        }
        _ => panic!("Expected Apply"),
    }
}

#[test]
fn test_undo_delete() {
    let mut tree = UndoTree::new(100);
    tree.record_delete(CharOffset(0), "hello".into());
    tree.add_boundary();

    match tree.undo() {
        UndoResult::Apply { edits, .. } => {
            assert_eq!(edits.len(), 1);
            match &edits[0] {
                UndoEdit::Insert { position, text } => {
                    assert_eq!(*position, CharOffset(0));
                    assert_eq!(text, "hello");
                }
                _ => panic!("Expected insert"),
            }
        }
        _ => panic!("Expected Apply"),
    }
}

#[test]
fn test_coalesce_insert() {
    let mut tree = UndoTree::new(100);
    tree.record_insert(CharOffset(0), "h".into());
    tree.record_insert(CharOffset(1), "e".into());
    tree.record_insert(CharOffset(2), "l".into());
    tree.record_insert(CharOffset(3), "l".into());
    tree.record_insert(CharOffset(4), "o".into());
    tree.add_boundary();

    match tree.undo() {
        UndoResult::Apply { edits, .. } => {
            assert_eq!(edits.len(), 1);
            match &edits[0] {
                UndoEdit::Delete { position, len } => {
                    assert_eq!(*position, CharOffset(0));
                    assert_eq!(*len, 5);
                }
                _ => panic!("Expected delete"),
            }
        }
        _ => panic!("Expected Apply"),
    }
}

#[test]
fn test_coalesce_breaks_on_space() {
    let mut tree = UndoTree::new(100);
    tree.record_insert(CharOffset(0), "h".into());
    tree.record_insert(CharOffset(1), "i".into());
    tree.record_insert(CharOffset(2), " ".into());
    tree.record_insert(CharOffset(3), "y".into());
    tree.record_insert(CharOffset(4), "o".into());
    tree.add_boundary();

    match tree.undo() {
        UndoResult::Apply { edits, .. } => {
            assert_eq!(edits.len(), 1);
            match &edits[0] {
                UndoEdit::Delete { len, .. } => {
                    assert_eq!(*len, 2);
                }
                _ => panic!("Expected delete"),
            }
        }
        _ => panic!("Expected Apply"),
    }

    match tree.undo() {
        UndoResult::Apply { edits, .. } => {
            assert_eq!(edits.len(), 1);
            match &edits[0] {
                UndoEdit::Delete { len, .. } => {
                    assert_eq!(*len, 1);
                }
                _ => panic!("Expected delete"),
            }
        }
        _ => panic!("Expected Apply"),
    }

    match tree.undo() {
        UndoResult::Apply { edits, .. } => {
            assert_eq!(edits.len(), 1);
            match &edits[0] {
                UndoEdit::Delete { len, .. } => {
                    assert_eq!(*len, 2);
                }
                _ => panic!("Expected delete"),
            }
        }
        _ => panic!("Expected Apply"),
    }
}

#[test]
fn test_emacs_style_undo_traversal() {
    let mut tree = UndoTree::new(100);

    tree.record_insert(CharOffset(0), "foo\n".into());
    tree.add_boundary();
    tree.record_insert(CharOffset(4), "bar\n".into());
    tree.add_boundary();
    tree.record_insert(CharOffset(8), "baz\n".into());
    tree.add_boundary();
    tree.record_insert(CharOffset(12), "faz".into());
    tree.add_boundary();

    tree.undo();
    tree.undo();

    tree.record_insert(CharOffset(8), "hello\n".into());
    tree.add_boundary();
    tree.record_insert(CharOffset(14), "world".into());
    tree.add_boundary();

    tree.undo();
    tree.undo();

    match tree.undo() {
        UndoResult::Apply { edits, .. } => match &edits[0] {
            UndoEdit::Insert { text, .. } => {
                assert_eq!(text, "baz\n");
            }
            _ => panic!("Expected insert"),
        },
        _ => panic!("Expected Apply"),
    }

    match tree.undo() {
        UndoResult::Apply { edits, .. } => match &edits[0] {
            UndoEdit::Insert { text, .. } => {
                assert_eq!(text, "faz");
            }
            _ => panic!("Expected insert"),
        },
        _ => panic!("Expected Apply"),
    }
}

#[test]
fn test_backspace_run_coalesces_leftwards() {
    let mut tree = UndoTree::new(100);
    tree.record_delete(CharOffset(4), "o".into());
    tree.record_delete(CharOffset(3), "l".into());
    tree.record_delete(CharOffset(2), "l".into());
    tree.add_boundary();

    match tree.undo() {
        UndoResult::Apply { edits, .. } => {
            assert_eq!(edits.len(), 1);
            match &edits[0] {
                UndoEdit::Insert { position, text } => {
                    assert_eq!(*position, CharOffset(2));
                    assert_eq!(text, "llo");
                }
                _ => panic!("Expected insert"),
            }
        }
        _ => panic!("Expected Apply"),
    }
}

#[test]
fn test_can_undo_and_clear() {
    let mut tree = UndoTree::new(100);
    assert!(!tree.can_undo());
    tree.record_insert(CharOffset(0), "x".into());
    assert!(tree.can_undo());
    assert!(tree.can_redo());
    tree.clear();
    assert!(!tree.can_undo());
}
