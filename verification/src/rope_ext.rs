//! Char-offset and line-addressed views over a rope, and the word-boundary
//! scanners that drive word motion.
use vstd::prelude::*;

use crate::chars::is_word_char;
use crate::chars::spec_word_char;
use crate::position::CharOffset;
use crate::position::Position;
use crate::rope::line_count;
use crate::rope::line_end;
use crate::rope::line_len;
use crate::rope::line_of;
use crate::rope::line_start;
use crate::rope::rope_char;
use crate::rope::rope_char_to_line;
use crate::rope::rope_len_chars;
use crate::rope::rope_len_lines;
use crate::rope::rope_line_to_char;
use crate::rope::rope_text;
use crate::rope::lemma_line_of_bounds;
use crate::rope::lemma_line_start_bounds;
use crate::rope::lemma_line_start_of_le;

verus! {

/// The first position at or after `p` holding a word char, or the end.
pub open spec fn scan_to_word(t: Seq<char>, p: int) -> int
    decreases t.len() - p,
{
    if p < 0 || p >= t.len() {
        t.len() as int
    } else if spec_word_char(t[p]) {
        p
    } else {
        scan_to_word(t, p + 1)
    }
}

/// The first position at or after `p` holding a non-word char, or the end.
pub open spec fn scan_past_word(t: Seq<char>, p: int) -> int
    decreases t.len() - p,
{
    if p < 0 || p >= t.len() {
        t.len() as int
    } else if !spec_word_char(t[p]) {
        p
    } else {
        scan_past_word(t, p + 1)
    }
}

/// Where forward word motion from `p` stops: skip non-word chars, then skip
/// the word.
pub open spec fn fwd_word_boundary(t: Seq<char>, p: int) -> int {
    if p >= t.len() {
        t.len() as int
    } else {
        scan_past_word(t, scan_to_word(t, p))
    }
}

/// Scanning left from `p` (exclusive of the end), the last position whose
/// char is still not a word char.
pub open spec fn bwd_skip_nonword(t: Seq<char>, p: int) -> int
    decreases p,
{
    if !(0 < p < t.len()) || spec_word_char(t[p]) {
        p
    } else {
        bwd_skip_nonword(t, p - 1)
    }
}

/// Scanning left from `p`, the first position whose left neighbour is not a
/// word char.
pub open spec fn bwd_skip_word(t: Seq<char>, p: int) -> int
    decreases p,
{
    if !(0 < p < t.len()) || !spec_word_char(t[p - 1]) {
        p
    } else {
        bwd_skip_word(t, p - 1)
    }
}

/// Where backward word motion from `start` stops.
pub open spec fn bwd_word_boundary(t: Seq<char>, start: int) -> int {
    if t.len() == 0 {
        0
    } else {
        let p = if start < t.len() {
            start
        } else {
            t.len() as int
        };
        if p == 0 {
            0
        } else {
            let p2 = bwd_skip_word(t, bwd_skip_nonword(t, p - 1));
            if 0 < p2 < t.len() && !spec_word_char(t[p2]) {
                p - 1
            } else {
                p2
            }
        }
    }
}

/// The line/column coordinate of char offset `char_idx`, clamped to the text.
#[verifier::loop_isolation(false)]
pub fn char_to_position(rope: &ropey::Rope, char_idx: CharOffset) -> (r: Position)
    ensures
        ({
            let t = rope_text(rope);
            let i = if char_idx.0 <= t.len() {
                char_idx.0 as int
            } else {
                t.len() as int
            };
            r.line == line_of(t, i) && r.column == i - line_start(t, line_of(t, i))
        }),
{
    let ghost t = rope_text(rope);
    let len = rope_len_chars(rope);
    if len == 0 {
        proof {
            assert(t.take(0) =~= Seq::<char>::empty());
        }
        return Position::new(0, 0);
    }
    let i = if char_idx.0 <= len {
        char_idx.0
    } else {
        len
    };
    let line = rope_char_to_line(rope, i);
    proof {
        lemma_line_of_bounds(t, i as int);
    }
    let start = rope_line_to_char(rope, line);
    proof {
        lemma_line_start_of_le(t, i as int);
        lemma_line_start_bounds(t, line as int);
    }
    Position::new(line, i - start)
}

/// The char offset of a line/column coordinate, clamped to an existing line
/// and to that line's length.
#[verifier::loop_isolation(false)]
pub fn position_to_char(rope: &ropey::Rope, pos: Position) -> (r: CharOffset)
    ensures
        ({
            let t = rope_text(rope);
            let l = if pos.line < line_count(t) {
                pos.line as int
            } else {
                line_count(t) - 1
            };
            let c = if pos.column <= line_len(t, l) {
                pos.column as int
            } else {
                line_len(t, l)
            };
            r.0 == line_start(t, l) + c
        }),
{
    let ghost t = rope_text(rope);
    let total = rope_len_lines(rope);
    proof {
        crate::rope::lemma_newline_count_nonneg(t);
    }
    let line = if pos.line < total {
        pos.line
    } else {
        total - 1
    };
    let start = rope_line_to_char(rope, line);
    let llen = line_len_chars(rope, line);
    let column = if pos.column <= llen {
        pos.column
    } else {
        llen
    };
    proof {
        lemma_line_start_bounds(t, line as int);
        lemma_line_start_bounds(t, line as int + 1);
        lemma_line_start_mono(t, line as int);
        assert(line_end(t, line as int) <= line_start(t, line as int + 1));
        assert(start + column <= line_end(t, line as int));
    }
    let total_chars_known = rope_len_chars(rope);
    proof {
        assert(line_start(t, line as int + 1) <= total_chars_known);
    }
    CharOffset(start + column)
}

/// The length of line `line_idx` in chars, excluding its terminating newline;
/// zero for a line index past the end.
#[verifier::loop_isolation(false)]
pub fn line_len_chars(rope: &ropey::Rope, line_idx: usize) -> (r: usize)
    ensures
        ({
            let t = rope_text(rope);
            if line_idx < line_count(t) {
                r == line_len(t, line_idx as int)
            } else {
                r == 0
            }
        }),
{
    let ghost t = rope_text(rope);
    let total = rope_len_lines(rope);
    if line_idx >= total {
        return 0;
    }
    let start = rope_line_to_char(rope, line_idx);
    let nxt = rope_line_to_char(rope, line_idx + 1);
    proof {
        lemma_line_start_bounds(t, line_idx as int);
        lemma_line_start_bounds(t, line_idx as int + 1);
        lemma_line_start_mono(t, line_idx as int);
    }
    if nxt > start && rope_char(rope, nxt - 1) == '\n' {
        nxt - 1 - start
    } else {
        nxt - start
    }
}

/// Consecutive line starts never decrease.
pub proof fn lemma_line_start_mono(t: Seq<char>, l: int)
    ensures
        line_start(t, l) <= line_start(t, l + 1),
    decreases t.len(), l,
{
    if l > 0 && t.len() > 0 {
        if t[0] == '\n' {
            lemma_line_start_mono(t.drop_first(), l - 1);
        } else {
            lemma_line_start_mono(t.drop_first(), l);
        }
    } else if l == 0 && t.len() > 0 {
        crate::rope::lemma_line_start_bounds(t.drop_first(), 0);
        if t[0] == '\n' {
            crate::rope::lemma_line_start_bounds(t.drop_first(), 0);
        } else {
            crate::rope::lemma_line_start_bounds(t.drop_first(), 1);
        }
    }
}

/// The total line count of the rope.
pub fn total_lines(rope: &ropey::Rope) -> (r: usize)
    ensures
        r == line_count(rope_text(rope)),
{
    rope_len_lines(rope)
}

/// The total char count of the rope.
pub fn total_chars(rope: &ropey::Rope) -> (r: usize)
    ensures
        r == rope_text(rope).len(),
{
    rope_len_chars(rope)
}

/// The char at `char_idx`, if it is in bounds.
pub fn char_at(rope: &ropey::Rope, char_idx: CharOffset) -> (r: Option<char>)
    ensures
        ({
            let t = rope_text(rope);
            if char_idx.0 < t.len() {
                r == Some(t[char_idx.0 as int])
            } else {
                r is None
            }
        }),
{
    if char_idx.0 < rope_len_chars(rope) {
        Some(rope_char(rope, char_idx.0))
    } else {
        None
    }
}

/// The char offset where line `line_idx` starts, clamping to the last line.
#[verifier::loop_isolation(false)]
pub fn line_start_char(rope: &ropey::Rope, line_idx: usize) -> (r: CharOffset)
    ensures
        ({
            let t = rope_text(rope);
            let l = if line_idx < line_count(t) {
                line_idx as int
            } else {
                line_count(t) - 1
            };
            r.0 == line_start(t, l)
        }),
{
    let ghost t = rope_text(rope);
    let total = rope_len_lines(rope);
    proof {
        crate::rope::lemma_newline_count_nonneg(t);
    }
    let line = if line_idx < total {
        line_idx
    } else {
        total - 1
    };
    CharOffset(rope_line_to_char(rope, line))
}

/// The char offset just before line `line_idx`'s terminating newline,
/// clamping to the last line.
#[verifier::loop_isolation(false)]
pub fn line_end_char(rope: &ropey::Rope, line_idx: usize) -> (r: CharOffset)
    ensures
        ({
            let t = rope_text(rope);
            let l = if line_idx < line_count(t) {
                line_idx as int
            } else {
                line_count(t) - 1
            };
            r.0 == line_end(t, l)
        }),
{
    let ghost t = rope_text(rope);
    let total = rope_len_lines(rope);
    proof {
        crate::rope::lemma_newline_count_nonneg(t);
    }
    let line = if line_idx < total {
        line_idx
    } else {
        total - 1
    };
    let start = rope_line_to_char(rope, line);
    let llen = line_len_chars(rope, line);
    proof {
        lemma_line_start_bounds(t, line as int);
        lemma_line_start_bounds(t, line as int + 1);
        lemma_line_start_mono(t, line as int);
        assert(line_end(t, line as int) <= line_start(t, line as int + 1));
        assert(start + llen == line_end(t, line as int));
    }
    let total_chars_known = rope_len_chars(rope);
    proof {
        assert(line_start(t, line as int + 1) <= total_chars_known);
    }
    CharOffset(start + llen)
}

/// Forward word motion: from `start`, skip any non-word chars, then skip the
/// word they introduce.
#[verifier::loop_isolation(false)]
pub fn find_word_boundary_forward(rope: &ropey::Rope, start: CharOffset) -> (r: CharOffset)
    ensures
        r.0 == fwd_word_boundary(rope_text(rope), start.0 as int),
{
    let ghost t = rope_text(rope);
    let len = rope_len_chars(rope);
    let mut pos = start.0;
    if pos >= len {
        return CharOffset(len);
    }
    while pos < len && !is_word_char(rope_char(rope, pos))
        invariant
            start.0 <= pos <= len,
            scan_to_word(t, start.0 as int) == scan_to_word(t, pos as int),
        decreases len - pos,
    {
        pos += 1;
    }
    proof {
        assert(scan_to_word(t, pos as int) == pos as int);
    }
    while pos < len && is_word_char(rope_char(rope, pos))
        invariant
            pos <= len,
            scan_past_word(t, scan_to_word(t, start.0 as int)) == scan_past_word(t, pos as int),
        decreases len - pos,
    {
        pos += 1;
    }
    proof {
        assert(scan_past_word(t, pos as int) == pos as int);
    }
    CharOffset(pos)
}

/// Backward word motion: step left once, skip non-word chars leftwards, then
/// skip leftwards while the char to the left is still part of the word.
#[verifier::loop_isolation(false)]
pub fn find_word_boundary_backward(rope: &ropey::Rope, start: CharOffset) -> (r: CharOffset)
    ensures
        r.0 == bwd_word_boundary(rope_text(rope), start.0 as int),
{
    let ghost t = rope_text(rope);
    let len = rope_len_chars(rope);
    if len == 0 {
        return CharOffset(0);
    }
    let clamped = if start.0 < len {
        start.0
    } else {
        len
    };
    if clamped == 0 {
        return CharOffset(0);
    }
    let mut pos = clamped - 1;
    while pos > 0 && pos < len && !is_word_char(rope_char(rope, pos))
        invariant
            pos < len,
            bwd_skip_nonword(t, clamped - 1) == bwd_skip_nonword(t, pos as int),
        decreases pos,
    {
        pos -= 1;
    }
    proof {
        assert(bwd_skip_nonword(t, pos as int) == pos as int);
    }
    while pos > 0 && pos < len && is_word_char(rope_char(rope, pos - 1))
        invariant
            pos < len,
            bwd_skip_word(t, bwd_skip_nonword(t, clamped - 1)) == bwd_skip_word(t, pos as int),
        decreases pos,
    {
        pos -= 1;
    }
    proof {
        assert(bwd_skip_word(t, pos as int) == pos as int);
    }
    if pos > 0 && pos < len && !is_word_char(rope_char(rope, pos)) {
        CharOffset(clamped - 1)
    } else {
        CharOffset(pos)
    }
}

} // verus!
