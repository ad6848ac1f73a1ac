use enacs::kill_ring::KillRing;
use enacs::mark::{Mark, MarkRing};
use enacs::position::{CharOffset, Position};

#[test]
fn position_ordering() {
    let p1 = Position::new(0, 5);
    let p2 = Position::new(1, 0);
    let p3 = Position::new(1, 5);

    assert!(p1 < p2);
    assert!(p2 < p3);
    assert!(p1 < p3);
}

#[test]
fn test_kill_ring_basic() {
    let mut ring = KillRing::new(3);
    ring.push("first".into(), false);
    ring.set_last_was_kill(false);
    ring.push("second".into(), false);
    ring.set_last_was_kill(false);
    ring.push("third".into(), false);

    assert_eq!(ring.yank(), Some("third"));
    assert_eq!(ring.yank_pop(), Some("second"));
    assert_eq!(ring.yank_pop(), Some("first"));
    assert_eq!(ring.yank_pop(), Some("third"));
}

#[test]
fn test_kill_ring_append() {
    let mut ring = KillRing::new(10);
    ring.push("hello".into(), false);
    ring.push(" world".into(), true);

    assert_eq!(ring.yank(), Some("hello world"));
    assert_eq!(ring.len(), 1);
}

#[test]
fn test_kill_ring_prepend() {
    let mut ring = KillRing::new(10);
    ring.push("world".into(), false);
    ring.push_prepend("hello ".into());

    assert_eq!(ring.yank(), Some("hello world"));
    assert_eq!(ring.len(), 1);
}

#[test]
fn test_kill_ring_capacity() {
    let mut ring = KillRing::new(2);
    ring.push("first".into(), false);
    ring.set_last_was_kill(false);
    ring.push("second".into(), false);
    ring.set_last_was_kill(false);
    ring.push("third".into(), false);

    assert_eq!(ring.len(), 2);
    let entries: Vec<String> = ring.iter();
    assert_eq!(entries, vec!["third".to_string(), "second".to_string()]);
}

#[test]
fn test_kill_ring_empty_push_ignored() {
    let mut ring = KillRing::new(4);
    ring.push("".into(), false);
    assert!(ring.is_empty());
    assert_eq!(ring.yank(), None);
    assert_eq!(ring.current(), None);
}

#[test]
fn test_yank_pop_cycles_with_period_len() {
    let mut ring = KillRing::new(8);
    ring.push("a".into(), false);
    ring.set_last_was_kill(false);
    ring.push("b".into(), false);
    ring.set_last_was_kill(false);
    ring.push("c".into(), false);

    let first = ring.current().map(str::to_string);
    ring.yank_pop();
    ring.yank_pop();
    ring.yank_pop();
    assert_eq!(ring.current().map(str::to_string), first);
}

#[test]
fn test_mark_ring_push_and_pop() {
    let mut ring = MarkRing::new(3);
    ring.push(Mark::new(CharOffset(10)));
    ring.push(Mark::new(CharOffset(20)));
    ring.push(Mark::new(CharOffset(30)));

    assert_eq!(ring.len(), 3);
    assert_eq!(ring.pop().map(|m| m.0), Some(CharOffset(30)));
    assert_eq!(ring.pop().map(|m| m.0), Some(CharOffset(20)));
    assert_eq!(ring.pop().map(|m| m.0), Some(CharOffset(10)));
}

#[test]
fn test_mark_ring_capacity() {
    let mut ring = MarkRing::new(2);
    ring.push(Mark::new(CharOffset(10)));
    ring.push(Mark::new(CharOffset(20)));
    ring.push(Mark::new(CharOffset(30)));

    assert_eq!(ring.len(), 2);
    assert_eq!(ring.pop().map(|m| m.0), Some(CharOffset(30)));
    assert_eq!(ring.pop().map(|m| m.0), Some(CharOffset(20)));
}

#[test]
fn test_mark_ring_rotate() {
    let mut ring = MarkRing::new(3);
    ring.push(Mark::new(CharOffset(10)));
    ring.push(Mark::new(CharOffset(20)));
    ring.push(Mark::new(CharOffset(30)));

    ring.rotate();
    assert_eq!(ring.current().map(|m| m.0), Some(CharOffset(20)));

    ring.rotate();
    assert_eq!(ring.current().map(|m| m.0), Some(CharOffset(10)));
}

#[test]
fn test_mark_ring_duplicate_front_suppressed() {
    let mut ring = MarkRing::new(4);
    ring.push(Mark::new(CharOffset(7)));
    ring.push(Mark::new(CharOffset(7)));
    assert_eq!(ring.len(), 1);
}

#[test]
fn test_mark_ring_insert_adjustment_is_strict() {
    let mut ring = MarkRing::new(4);
    ring.push(Mark::new(CharOffset(5)));
    ring.push(Mark::new(CharOffset(9)));
    ring.adjust_after_insert(CharOffset(5), 3);
    assert_eq!(ring.pop().map(|m| m.0), Some(CharOffset(12)));
    assert_eq!(ring.pop().map(|m| m.0), Some(CharOffset(5)));
}
