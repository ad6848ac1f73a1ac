//! The rope boundary: contracts for the `ropey` operations the buffer is
//! built on, together with the char-sequence model of line structure.
//!
//! The crate is built with ropey's default features off, so the only line
//! break is `'\n'`: a CRLF pair counts through its `'\n'`, a lone carriage
//! return separates nothing.
use vstd::prelude::*;

verus! {

/// The characters a rope holds, in order.
pub uninterp spec fn rope_text(rope: &ropey::Rope) -> Seq<char>;

#[verifier::external_type_specification]
#[verifier::external_body]
pub struct ExRope(ropey::Rope);

/// The number of newlines in `t`.
pub open spec fn newline_count(t: Seq<char>) -> int
    decreases t.len(),
{
    if t.len() == 0 {
        0
    } else if t[0] == '\n' {
        1 + newline_count(t.drop_first())
    } else {
        newline_count(t.drop_first())
    }
}

/// The number of lines of `t`: one more than its newlines, so a trailing
/// newline opens a final empty line.
pub open spec fn line_count(t: Seq<char>) -> int {
    newline_count(t) + 1
}

/// The line that char position `i` belongs to: the newlines before it.
pub open spec fn line_of(t: Seq<char>, i: int) -> int {
    newline_count(t.take(i))
}

/// The char position where line `l` starts: just after the `l`-th newline,
/// or the end of the text when there are fewer newlines.
pub open spec fn line_start(t: Seq<char>, l: int) -> int
    decreases t.len(), l,
{
    if l <= 0 || t.len() == 0 {
        0
    } else if t[0] == '\n' {
        1 + line_start(t.drop_first(), l - 1)
    } else {
        1 + line_start(t.drop_first(), l)
    }
}

/// The char position where line `l` ends, excluding its terminating newline.
pub open spec fn line_end(t: Seq<char>, l: int) -> int {
    let nxt = line_start(t, l + 1);
    if nxt > 0 && nxt <= t.len() && nxt > line_start(t, l) && t[nxt - 1] == '\n' {
        nxt - 1
    } else {
        nxt
    }
}

/// The chars of line `l`, excluding its terminating newline.
pub open spec fn line_len(t: Seq<char>, l: int) -> int {
    line_end(t, l) - line_start(t, l)
}

/// Relies on ropey::Rope::new: an empty rope.
#[verifier::external_body]
pub fn rope_new() -> (r: ropey::Rope)
    ensures
        rope_text(&r) == Seq::<char>::empty(),
{
    ropey::Rope::new()
}

/// Relies on ropey::Rope::from_str: a rope holding exactly the given text.
#[verifier::external_body]
pub fn rope_from_str(s: &str) -> (r: ropey::Rope)
    ensures
        rope_text(&r) == s@,
{
    ropey::Rope::from_str(s)
}

/// Relies on ropey::Rope::len_chars: the rope's char count.
#[verifier::external_body]
pub fn rope_len_chars(rope: &ropey::Rope) -> (r: usize)
    ensures
        r == rope_text(rope).len(),
{
    rope.len_chars()
}

/// Relies on ropey::Rope::len_lines: one more than the rope's line breaks.
#[verifier::external_body]
pub fn rope_len_lines(rope: &ropey::Rope) -> (r: usize)
    ensures
        r == line_count(rope_text(rope)),
{
    rope.len_lines()
}

/// Relies on ropey::Rope::insert: splices `s` in at char index `at`; panics
/// past the end, so the bound is required here.
#[verifier::external_body]
pub fn rope_insert(rope: &mut ropey::Rope, at: usize, s: &str)
    requires
        at <= rope_text(old(rope)).len(),
    ensures
        rope_text(final(rope)) == rope_text(old(rope)).take(at as int) + s@ + rope_text(
            old(rope),
        ).skip(at as int),
{
    rope.insert(at, s)
}

/// Relies on ropey::Rope::remove: removes the chars of `[start, end)`; panics
/// on an inverted or out-of-bounds range, so those are required away.
#[verifier::external_body]
pub fn rope_remove(rope: &mut ropey::Rope, start: usize, end: usize)
    requires
        start <= end <= rope_text(old(rope)).len(),
    ensures
        rope_text(final(rope)) == rope_text(old(rope)).take(start as int) + rope_text(
            old(rope),
        ).skip(end as int),
{
    rope.remove(start..end)
}

/// Relies on ropey::Rope::char: the char at the given index; panics at or
/// past the end.
#[verifier::external_body]
pub fn rope_char(rope: &ropey::Rope, at: usize) -> (r: char)
    requires
        at < rope_text(rope).len(),
    ensures
        r == rope_text(rope)[at as int],
{
    rope.char(at)
}

/// Relies on ropey::Rope::slice and the `From<RopeSlice>` impl for `String`:
/// the chars of `[start, end)` as an owned string.
#[verifier::external_body]
pub fn rope_slice_string(rope: &ropey::Rope, start: usize, end: usize) -> (r: String)
    requires
        start <= end <= rope_text(rope).len(),
    ensures
        r@ == rope_text(rope).subrange(start as int, end as int),
{
    String::from(rope.slice(start..end))
}

/// Relies on the `From<&Rope>` impl for `String`: the whole text.
#[verifier::external_body]
pub fn rope_to_string(rope: &ropey::Rope) -> (r: String)
    ensures
        r@ == rope_text(rope),
{
    String::from(rope)
}

/// Relies on ropey::Rope::char_to_line: the number of line breaks before the
/// given char index; the index may be one past the end.
#[verifier::external_body]
pub fn rope_char_to_line(rope: &ropey::Rope, at: usize) -> (r: usize)
    requires
        at <= rope_text(rope).len(),
    ensures
        r == line_of(rope_text(rope), at as int),
{
    rope.char_to_line(at)
}

/// Relies on ropey::Rope::line_to_char: the char index where the given line
/// starts; the line index may be one past the end, giving the char count.
#[verifier::external_body]
pub fn rope_line_to_char(rope: &ropey::Rope, line: usize) -> (r: usize)
    requires
        line <= line_count(rope_text(rope)),
    ensures
        r == line_start(rope_text(rope), line as int),
{
    rope.line_to_char(line)
}

/// Line starts never pass the end of the text.
pub proof fn lemma_line_start_bounds(t: Seq<char>, l: int)
    ensures
        0 <= line_start(t, l) <= t.len(),
    decreases t.len(), l,
{
    if l > 0 && t.len() > 0 {
        if t[0] == '\n' {
            lemma_line_start_bounds(t.drop_first(), l - 1);
        } else {
            lemma_line_start_bounds(t.drop_first(), l);
        }
    }
}

/// A position's line number stays below the line count.
pub proof fn lemma_line_of_bounds(t: Seq<char>, i: int)
    requires
        0 <= i <= t.len(),
    ensures
        0 <= line_of(t, i) < line_count(t),
    decreases t.len(),
{
    lemma_newline_count_nonneg(t.take(i));
    lemma_newline_count_prefix(t, i);
}

pub proof fn lemma_newline_count_nonneg(t: Seq<char>)
    ensures
        newline_count(t) >= 0,
    decreases t.len(),
{
    if t.len() > 0 {
        lemma_newline_count_nonneg(t.drop_first());
    }
}

/// A text has no more newlines than characters.
pub proof fn lemma_newline_count_le_len(t: Seq<char>)
    ensures
        newline_count(t) <= t.len(),
    decreases t.len(),
{
    if t.len() > 0 {
        lemma_newline_count_le_len(t.drop_first());
    }
}

/// A prefix has no more newlines than the whole.
pub proof fn lemma_newline_count_prefix(t: Seq<char>, i: int)
    requires
        0 <= i <= t.len(),
    ensures
        newline_count(t.take(i)) <= newline_count(t),
    decreases t.len(),
{
    if t.len() == 0 || i == 0 {
        assert(t.take(i) =~= Seq::<char>::empty());
        lemma_newline_count_nonneg(t);
    } else {
        assert(t.take(i).drop_first() =~= t.drop_first().take(i - 1));
        lemma_newline_count_prefix(t.drop_first(), i - 1);
    }
}

/// The start of the line a position lies on never passes the position.
pub proof fn lemma_line_start_of_le(t: Seq<char>, i: int)
    requires
        0 <= i <= t.len(),
    ensures
        line_start(t, line_of(t, i)) <= i,
    decreases t.len(),
{
    if i == 0 {
        assert(t.take(0) =~= Seq::<char>::empty());
        assert(line_of(t, 0) == 0);
    } else {
        assert(t.take(i).drop_first() =~= t.drop_first().take(i - 1));
        lemma_line_start_of_le(t.drop_first(), i - 1);
        lemma_newline_count_nonneg(t.drop_first().take(i - 1));
    }
}

} // verus!
