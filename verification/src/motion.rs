//! Motion commands: char, word, line, and buffer motion, with shift-select
//! variants that drop a mark before moving.
use vstd::prelude::*;

use crate::editor::EditorState;
use crate::position::CharOffset;
use crate::registry::CommandContext;
use crate::registry::CommandResult;
use crate::rope::rope_text;
use crate::rope_ext::char_to_position;
use crate::rope_ext::find_word_boundary_backward;
use crate::rope_ext::find_word_boundary_forward;
use crate::rope_ext::line_len_chars;
use crate::rope_ext::line_start_char;
use crate::rope_ext::line_end_char;
use crate::rope_ext::total_lines;

verus! {

/// Every cursor moved right by `count`, stopping at `len`, goal forgotten.
pub open spec fn fwd_map(cs: Seq<crate::cursor::Cursor>, count: int, len: int) -> Seq<
    crate::cursor::Cursor,
> {
    cs.map_values(
        |c: crate::cursor::Cursor|
            crate::cursor::Cursor {
                position: CharOffset(
                    (if c.position.0 + count <= len {
                        c.position.0 + count
                    } else {
                        len
                    }) as usize,
                ),
                goal_column: None,
                ..c
            },
    )
}

/// Every cursor moved left by `count`, stopping at the start, goal forgotten.
pub open spec fn bwd_map(cs: Seq<crate::cursor::Cursor>, count: int) -> Seq<crate::cursor::Cursor> {
    cs.map_values(
        |c: crate::cursor::Cursor|
            crate::cursor::Cursor {
                position: CharOffset(
                    (if c.position.0 >= count {
                        c.position.0 - count
                    } else {
                        0
                    }) as usize,
                ),
                goal_column: None,
                ..c
            },
    )
}

/// Every cursor placed at `p`, goal forgotten.
pub open spec fn at_map(cs: Seq<crate::cursor::Cursor>, p: int) -> Seq<crate::cursor::Cursor> {
    cs.map_values(
        |c: crate::cursor::Cursor|
            crate::cursor::Cursor {
                position: CharOffset(p as usize),
                goal_column: None,
                ..c
            },
    )
}

/// The relation `forward-char` establishes between the editor before and after.
pub open spec fn forward_char_post(
    pre: EditorState,
    post: EditorState,
    ctx: CommandContext,
    r: CommandResult,
) -> bool {
    &&& (post.wf())
    &&& (pre.current_target() is Some ==> post.window_cursors() == fwd_map(
            pre.target_cursors(),
            crate::registry::prefix_repeat(ctx.prefix_arg),
            pre.target_text().len() as int,
        ))
}

/// Move every cursor of the current window right by `count`, stopping at the
/// end of the buffer, and forget goal columns.
#[verifier::loop_isolation(false)]
pub fn forward_char(state: &mut EditorState, ctx: &CommandContext) -> (r: CommandResult)
    requires
        old(state).wf(),
    ensures
        forward_char_post(*old(state), *final(state), *ctx, r),
{
    let count = ctx.repeat_count();
    match state.edit_target() {
        Some((i, mut cs)) => {
            let ghost cs0 = cs.all_seq();
            let ghost t0 = rope_text(&state.buffers.buffers@[i as int].text);
            proof {
                assert(cs0 == old(state).target_cursors());
                assert(t0 == old(state).target_text());
            }
            let len = state.buffers.buffers[i].len_chars();
            proof {
                assert(cs.all_seq()[0] == cs.primary);
                assert forall|q: int| 0 <= q < cs.secondary@.len() implies (
                #[trigger] cs.secondary@[q]).position.0 <= len by {
                    assert(cs.all_seq()[q + 1] == cs.secondary@[q]);
                }
            }
            let p0 = cs.primary.position.0;
            cs.primary.position = CharOffset(
                if count <= len - p0 {
                    p0 + count
                } else {
                    len
                },
            );
            cs.primary.goal_column = None;
            let mut j: usize = 0;
            while j < cs.secondary.len()
                invariant
                    j <= cs.secondary@.len(),
                    cs.secondary@.len() == cs0.len() - 1,
                    cs.primary == fwd_map(cs0, count as int, len as int)[0],
                    forall|q: int|
                        0 <= q < j ==> #[trigger] cs.secondary@[q] == fwd_map(
                            cs0,
                            count as int,
                            len as int,
                        )[q + 1],
                    forall|q: int|
                        j <= q < cs.secondary@.len() ==> #[trigger] cs.secondary@[q] == cs0[q + 1],
                    forall|q: int|
                        j <= q < cs.secondary@.len() ==> (#[trigger] cs.secondary@[q]).position.0
                            <= len,
                decreases cs.secondary@.len() - j,
            {
                let pj = cs.secondary[j].position.0;
                cs.secondary[j].position = CharOffset(
                    if count <= len - pj {
                        pj + count
                    } else {
                        len
                    },
                );
                cs.secondary[j].goal_column = None;
                j += 1;
            }
            proof {
                assert forall|q: int| 0 <= q < cs.all_seq().len() implies #[trigger] cs.all_seq()[q]
                    == fwd_map(cs0, count as int, len as int)[q] by {
                    if q > 0 {
                        assert(cs.all_seq()[q] == cs.secondary@[q - 1]);
                    }
                }
                assert(cs.all_seq() =~= fwd_map(cs0, count as int, len as int));
            }
            let ghost final_cs = cs.all_seq();
            state.put_cursors(cs);
            proof {
                assert(state.window_cursors() == final_cs);
            }
            Ok(())
        },
        None => Ok(()),
    }
}

/// The relation `backward-char` establishes between the editor before and after.
pub open spec fn backward_char_post(
    pre: EditorState,
    post: EditorState,
    ctx: CommandContext,
    r: CommandResult,
) -> bool {
    &&& (post.wf())
    &&& (pre.current_target() is Some ==> post.window_cursors() == bwd_map(
            pre.target_cursors(),
            crate::registry::prefix_repeat(ctx.prefix_arg),
        ))
}

/// Move every cursor left by `count`, stopping at the start.
#[verifier::loop_isolation(false)]
pub fn backward_char(state: &mut EditorState, ctx: &CommandContext) -> (r: CommandResult)
    requires
        old(state).wf(),
    ensures
        backward_char_post(*old(state), *final(state), *ctx, r),
{
    let count = ctx.repeat_count();
    match state.edit_target() {
        Some((_, mut cs)) => {
            let ghost cs0 = cs.all_seq();
            proof {
                assert(cs0 == old(state).target_cursors());
                assert(cs.all_seq()[0] == cs.primary);
            }
            let p0 = cs.primary.position.0;
            cs.primary.position = CharOffset(
                if p0 >= count {
                    p0 - count
                } else {
                    0
                },
            );
            cs.primary.goal_column = None;
            let mut j: usize = 0;
            while j < cs.secondary.len()
                invariant
                    j <= cs.secondary@.len(),
                    cs.secondary@.len() == cs0.len() - 1,
                    cs.primary == bwd_map(cs0, count as int)[0],
                    forall|q: int|
                        0 <= q < j ==> #[trigger] cs.secondary@[q] == bwd_map(cs0, count as int)[q
                            + 1],
                    forall|q: int|
                        j <= q < cs.secondary@.len() ==> #[trigger] cs.secondary@[q] == cs0[q + 1],
                decreases cs.secondary@.len() - j,
            {
                let pj = cs.secondary[j].position.0;
                cs.secondary[j].position = CharOffset(
                    if pj >= count {
                        pj - count
                    } else {
                        0
                    },
                );
                cs.secondary[j].goal_column = None;
                j += 1;
            }
            proof {
                assert forall|q: int| 0 <= q < cs.all_seq().len() implies #[trigger] cs.all_seq()[q]
                    == bwd_map(cs0, count as int)[q] by {
                    if q > 0 {
                        assert(cs.all_seq()[q] == cs.secondary@[q - 1]);
                    }
                }
                assert(cs.all_seq() =~= bwd_map(cs0, count as int));
            }
            let ghost final_cs = cs.all_seq();
            state.put_cursors(cs);
            proof {
                assert(state.window_cursors() == final_cs);
            }
            Ok(())
        },
        None => Ok(()),
    }
}

/// One vertical step for a cursor: the goal column is remembered and kept
/// across short lines; at the first or last line the cursor stays.
pub open spec fn vstep_m(t: Seq<char>, c: crate::cursor::Cursor, down: bool) -> crate::cursor::Cursor {
    let i = if c.position.0 <= t.len() {
        c.position.0 as int
    } else {
        t.len() as int
    };
    let line = crate::rope::line_of(t, i);
    let goal: int = match c.goal_column {
        Some(g) => g as int,
        None => i - crate::rope::line_start(t, line),
    };
    let can = if down {
        line + 1 < crate::rope::line_count(t)
    } else {
        line > 0
    };
    if can {
        let target = if down {
            line + 1
        } else {
            line - 1
        };
        let llen = crate::rope::line_len(t, target);
        let col = if goal <= llen {
            goal
        } else {
            llen
        };
        crate::cursor::Cursor {
            position: CharOffset((crate::rope::line_start(t, target) + col) as usize),
            goal_column: Some(goal as usize),
            ..c
        }
    } else {
        c
    }
}

/// `k` vertical steps of one cursor.
pub open spec fn vsteps_m(t: Seq<char>, c: crate::cursor::Cursor, down: bool, k: nat) -> crate::cursor::Cursor
    decreases k,
{
    if k == 0 {
        c
    } else {
        vstep_m(t, vsteps_m(t, c, down, (k - 1) as nat), down)
    }
}

/// Every cursor moved `k` lines in one direction.
pub open spec fn lines_map(t: Seq<char>, cs: Seq<crate::cursor::Cursor>, down: bool, k: nat) -> Seq<
    crate::cursor::Cursor,
> {
    Seq::new(cs.len(), |w: int| vsteps_m(t, cs[w], down, k))
}

/// One vertical step for a cursor: keep the goal column across short lines.
fn vertical_step(
    b: &crate::buffer::Buffer,
    c: crate::cursor::Cursor,
    down: bool,
) -> (r: crate::cursor::Cursor)
    requires
        c.position.0 <= rope_text(&b.text).len(),
    ensures
        r == vstep_m(rope_text(&b.text), c, down),
        r.position.0 <= rope_text(&b.text).len(),
{
    let ghost t = rope_text(&b.text);
    let tlen = crate::rope_ext::total_chars(&b.text);
    proof {
        assert(t.len() == tlen as int);
        crate::rope::lemma_line_of_bounds(t, c.position.0 as int);
        crate::rope::lemma_line_start_of_le(t, c.position.0 as int);
    }
    let pos = char_to_position(&b.text, c.position);
    let goal = match c.goal_column {
        Some(g) => g,
        None => pos.column,
    };
    let total = total_lines(&b.text);
    let mut out = c;
    if down {
        proof {
            if pos.line == usize::MAX {
                let i = c.position.0 as int;
                crate::rope::lemma_newline_count_le_len(t.take(i));
                assert(crate::rope::line_of(t, i) <= i);
                assert(i == t.len());
                assert(t.take(t.len() as int) =~= t);
            }
        }
        if pos.line < usize::MAX && pos.line + 1 < total {
            let target = pos.line + 1;
            proof {
                crate::rope_ext::lemma_line_start_mono(t, target as int);
                crate::rope::lemma_line_start_bounds(t, target as int + 1);
                crate::rope::lemma_line_start_bounds(t, target as int);
            }
            let llen = line_len_chars(&b.text, target);
            let col = if goal <= llen {
                goal
            } else {
                llen
            };
            let start = line_start_char(&b.text, target);
            proof {
                assert(crate::rope::line_end(t, target as int) <= crate::rope::line_start(
                    t,
                    target as int + 1,
                ));
                assert(start.0 as int + col as int <= t.len());
            }
            let dest = if col <= usize::MAX - start.0 {
                start.0 + col
            } else {
                usize::MAX
            };
            out.position = CharOffset(dest);
            out.goal_column = Some(goal);
        }
    } else {
        if pos.line > 0 {
            let target = pos.line - 1;
            proof {
                crate::rope_ext::lemma_line_start_mono(t, target as int);
                crate::rope::lemma_line_start_bounds(t, target as int + 1);
                crate::rope::lemma_line_start_bounds(t, target as int);
            }
            let llen = line_len_chars(&b.text, target);
            let col = if goal <= llen {
                goal
            } else {
                llen
            };
            let start = line_start_char(&b.text, target);
            proof {
                assert(crate::rope::line_end(t, target as int) <= crate::rope::line_start(
                    t,
                    target as int + 1,
                ));
                assert(start.0 as int + col as int <= t.len());
            }
            let dest = if col <= usize::MAX - start.0 {
                start.0 + col
            } else {
                usize::MAX
            };
            out.position = CharOffset(dest);
            out.goal_column = Some(goal);
        }
    }
    out
}

/// Move every cursor `count` lines in the given direction.
#[verifier::loop_isolation(false)]
fn move_lines(state: &mut EditorState, count: usize, down: bool) -> (r: CommandResult)
    requires
        old(state).wf(),
    ensures
        final(state).wf(),
        r is Ok,
        old(state).current_target() is None ==> *final(state) == *old(state),
        old(state).current_target() is Some ==> final(state).window_cursors() == lines_map(
            old(state).target_text(),
            old(state).target_cursors(),
            down,
            count as nat,
        ),
{
    match state.edit_target() {
        Some((i, mut cs)) => {
            let ghost t0 = rope_text(&state.buffers.buffers@[i as int].text);
            let ghost cs0 = cs.all_seq();
            proof {
                assert(t0 == old(state).target_text());
                assert(cs0 == old(state).target_cursors());
            }
            let mut k: usize = 0;
            while k < count
                invariant
                    k <= count,
                    i < state.buffers.buffers@.len(),
                    cs.secondary@.len() == cs0.len() - 1,
                    cs.primary == vsteps_m(t0, cs0[0], down, k as nat),
                    cs.primary.position.0 <= t0.len(),
                    forall|q: int|
                        0 <= q < cs.secondary@.len() ==> #[trigger] cs.secondary@[q] == vsteps_m(
                            t0,
                            cs0[q + 1],
                            down,
                            k as nat,
                        ) && cs.secondary@[q].position.0 <= t0.len(),
                decreases count - k,
            {
                let ghost pre_primary = cs.primary;
                let ghost pre_sec = cs.secondary@;
                let b = &state.buffers.buffers[i];
                let c = vertical_step(b, cs.primary, down);
                cs.primary = c;
                proof {
                    assert(vsteps_m(t0, cs0[0], down, (k + 1) as nat) == vstep_m(
                        t0,
                        vsteps_m(t0, cs0[0], down, k as nat),
                        down,
                    ));
                }
                let mut j: usize = 0;
                while j < cs.secondary.len()
                    invariant
                        j <= cs.secondary@.len(),
                        i < state.buffers.buffers@.len(),
                        cs.secondary@.len() == pre_sec.len(),
                        cs.primary == vsteps_m(t0, cs0[0], down, (k + 1) as nat),
                        cs.primary.position.0 <= t0.len(),
                        forall|q: int|
                            0 <= q < j ==> #[trigger] cs.secondary@[q] == vsteps_m(
                                t0,
                                cs0[q + 1],
                                down,
                                (k + 1) as nat,
                            ) && cs.secondary@[q].position.0 <= t0.len(),
                        forall|q: int|
                            j <= q < cs.secondary@.len() ==> #[trigger] cs.secondary@[q]
                                == pre_sec[q],
                    decreases cs.secondary@.len() - j,
                {
                    proof {
                        assert(vsteps_m(t0, cs0[j as int + 1], down, (k + 1) as nat) == vstep_m(
                            t0,
                            vsteps_m(t0, cs0[j as int + 1], down, k as nat),
                            down,
                        ));
                    }
                    let cj = vertical_step(b, cs.secondary[j], down);
                    cs.secondary[j] = cj;
                    j += 1;
                }
                k += 1;
            }
            proof {
                assert forall|q: int| 0 <= q < cs.all_seq().len() implies #[trigger] cs.all_seq()[q]
                    == lines_map(t0, cs0, down, count as nat)[q] by {
                    if q > 0 {
                        assert(cs.all_seq()[q] == cs.secondary@[q - 1]);
                    }
                }
                assert(cs.all_seq() =~= lines_map(t0, cs0, down, count as nat));
            }
            let ghost final_cs = cs.all_seq();
            state.put_cursors(cs);
            proof {
                assert(state.window_cursors() == final_cs);
            }
            Ok(())
        },
        None => Ok(()),
    }
}

/// The relation `next-line` establishes between the editor before and after.
pub open spec fn next_line_post(
    pre: EditorState,
    post: EditorState,
    ctx: CommandContext,
    r: CommandResult,
) -> bool {
    &&& (post.wf())
    &&& (r is Ok)
    &&& (pre.current_target() is None ==> post == pre)
    &&& (pre.current_target() is Some ==> post.window_cursors() == lines_map(
        pre.target_text(),
        pre.target_cursors(),
        true,
        crate::registry::prefix_repeat(ctx.prefix_arg) as nat,
    ))
}

/// Move every cursor down `count` lines, remembering the goal column.
pub fn next_line(state: &mut EditorState, ctx: &CommandContext) -> (r: CommandResult)
    requires
        old(state).wf(),
    ensures
        next_line_post(*old(state), *final(state), *ctx, r),
{
    move_lines(state, ctx.repeat_count(), true)
}

/// The relation `previous-line` establishes between the editor before and after.
pub open spec fn previous_line_post(
    pre: EditorState,
    post: EditorState,
    ctx: CommandContext,
    r: CommandResult,
) -> bool {
    &&& (post.wf())
    &&& (r is Ok)
    &&& (pre.current_target() is None ==> post == pre)
    &&& (pre.current_target() is Some ==> post.window_cursors() == lines_map(
        pre.target_text(),
        pre.target_cursors(),
        false,
        crate::registry::prefix_repeat(ctx.prefix_arg) as nat,
    ))
}

/// Move every cursor up `count` lines, remembering the goal column.
pub fn previous_line(state: &mut EditorState, ctx: &CommandContext) -> (r: CommandResult)
    requires
        old(state).wf(),
    ensures
        previous_line_post(*old(state), *final(state), *ctx, r),
{
    move_lines(state, ctx.repeat_count(), false)
}

/// A cursor moved to the start of its line, with the goal column pinned there.
pub open spec fn bol_cursor(t: Seq<char>, c: crate::cursor::Cursor) -> crate::cursor::Cursor {
    let i = if c.position.0 <= t.len() {
        c.position.0 as int
    } else {
        t.len() as int
    };
    crate::cursor::Cursor {
        position: CharOffset(crate::rope::line_start(t, crate::rope::line_of(t, i)) as usize),
        goal_column: Some(0usize),
        ..c
    }
}

/// Every cursor moved to the start of its line.
pub open spec fn bol_map(t: Seq<char>, cs: Seq<crate::cursor::Cursor>) -> Seq<
    crate::cursor::Cursor,
> {
    Seq::new(cs.len(), |w: int| bol_cursor(t, cs[w]))
}

/// A cursor moved to the end of its line, before any newline.
pub open spec fn eol_cursor(t: Seq<char>, c: crate::cursor::Cursor) -> crate::cursor::Cursor {
    let i = if c.position.0 <= t.len() {
        c.position.0 as int
    } else {
        t.len() as int
    };
    crate::cursor::Cursor {
        position: CharOffset(crate::rope::line_end(t, crate::rope::line_of(t, i)) as usize),
        goal_column: None::<usize>,
        ..c
    }
}

/// Every cursor moved to the end of its line.
pub open spec fn eol_map(t: Seq<char>, cs: Seq<crate::cursor::Cursor>) -> Seq<
    crate::cursor::Cursor,
> {
    Seq::new(cs.len(), |w: int| eol_cursor(t, cs[w]))
}

/// The relation `move-beginning-of-line` establishes between the editor before and after.
pub open spec fn move_beginning_of_line_post(
    pre: EditorState,
    post: EditorState,
    ctx: CommandContext,
    r: CommandResult,
) -> bool {
    &&& (post.wf())
    &&& (r is Ok)
    &&& (pre.current_target() is None ==> post == pre)
    &&& (pre.current_target() is Some ==> post.window_cursors() == bol_map(
        pre.target_text(),
        pre.target_cursors(),
    ))
}

/// Move every cursor to the start of its line.
#[verifier::loop_isolation(false)]
pub fn move_beginning_of_line(state: &mut EditorState, ctx: &CommandContext) -> (r: CommandResult)
    requires
        old(state).wf(),
    ensures
        move_beginning_of_line_post(*old(state), *final(state), *ctx, r),
{
    match state.edit_target() {
        Some((i, mut cs)) => {
            let ghost t0 = rope_text(&state.buffers.buffers@[i as int].text);
            let ghost cs0 = cs.all_seq();
            proof {
                assert(t0 == old(state).target_text());
                assert(cs0 == old(state).target_cursors());
                assert(forall|q: int|
                    0 <= q < cs0.len() ==> (#[trigger] cs0[q]).position.0 <= t0.len());
            }
            let b = &state.buffers.buffers[i];
            let pos = char_to_position(&b.text, cs.primary.position);
            proof {
                crate::rope::lemma_line_of_bounds(t0, cs0[0].position.0 as int);
            }
            let edge = line_start_char(&b.text, pos.line);
            cs.primary.position = edge;
            cs.primary.goal_column = Some(0);
            proof {
                assert(cs.primary == bol_cursor(t0, cs0[0]));
            }
            let mut j: usize = 0;
            while j < cs.secondary.len()
                invariant
                    j <= cs.secondary@.len(),
                    i < state.buffers.buffers@.len(),
                    cs.secondary@.len() == cs0.len() - 1,
                    cs.primary == bol_cursor(t0, cs0[0]),
                    forall|q: int|
                        0 <= q < j ==> #[trigger] cs.secondary@[q] == bol_cursor(t0, cs0[q + 1]),
                    forall|q: int|
                        j <= q < cs.secondary@.len() ==> #[trigger] cs.secondary@[q] == cs0[q + 1],
                decreases cs.secondary@.len() - j,
            {
                proof {
                    crate::rope::lemma_line_of_bounds(t0, cs0[j as int + 1].position.0 as int);
                }
                let pj = char_to_position(&b.text, cs.secondary[j].position);
                let ej = line_start_char(&b.text, pj.line);
                cs.secondary[j].position = ej;
                cs.secondary[j].goal_column = Some(0);
                j += 1;
            }
            proof {
                assert forall|q: int| 0 <= q < cs.all_seq().len() implies #[trigger] cs.all_seq()[q]
                    == bol_map(t0, cs0)[q] by {
                    if q > 0 {
                        assert(cs.all_seq()[q] == cs.secondary@[q - 1]);
                    }
                }
                assert(cs.all_seq() =~= bol_map(t0, cs0));
            }
            let ghost final_cs = cs.all_seq();
            state.put_cursors(cs);
            proof {
                assert(state.window_cursors() == final_cs);
            }
            Ok(())
        },
        None => Ok(()),
    }
}

/// The relation `move-end-of-line` establishes between the editor before and after.
pub open spec fn move_end_of_line_post(
    pre: EditorState,
    post: EditorState,
    ctx: CommandContext,
    r: CommandResult,
) -> bool {
    &&& (post.wf())
    &&& (r is Ok)
    &&& (pre.current_target() is None ==> post == pre)
    &&& (pre.current_target() is Some ==> post.window_cursors() == eol_map(
        pre.target_text(),
        pre.target_cursors(),
    ))
}

/// Move every cursor to the end of its line, before any newline.
#[verifier::loop_isolation(false)]
pub fn move_end_of_line(state: &mut EditorState, ctx: &CommandContext) -> (r: CommandResult)
    requires
        old(state).wf(),
    ensures
        move_end_of_line_post(*old(state), *final(state), *ctx, r),
{
    match state.edit_target() {
        Some((i, mut cs)) => {
            let ghost t0 = rope_text(&state.buffers.buffers@[i as int].text);
            let ghost cs0 = cs.all_seq();
            proof {
                assert(t0 == old(state).target_text());
                assert(cs0 == old(state).target_cursors());
                assert(forall|q: int|
                    0 <= q < cs0.len() ==> (#[trigger] cs0[q]).position.0 <= t0.len());
            }
            let b = &state.buffers.buffers[i];
            let pos = char_to_position(&b.text, cs.primary.position);
            proof {
                crate::rope::lemma_line_of_bounds(t0, cs0[0].position.0 as int);
            }
            let edge = line_end_char(&b.text, pos.line);
            cs.primary.position = edge;
            cs.primary.goal_column = None;
            proof {
                assert(cs.primary == eol_cursor(t0, cs0[0]));
            }
            let mut j: usize = 0;
            while j < cs.secondary.len()
                invariant
                    j <= cs.secondary@.len(),
                    i < state.buffers.buffers@.len(),
                    cs.secondary@.len() == cs0.len() - 1,
                    cs.primary == eol_cursor(t0, cs0[0]),
                    forall|q: int|
                        0 <= q < j ==> #[trigger] cs.secondary@[q] == eol_cursor(t0, cs0[q + 1]),
                    forall|q: int|
                        j <= q < cs.secondary@.len() ==> #[trigger] cs.secondary@[q] == cs0[q + 1],
                decreases cs.secondary@.len() - j,
            {
                proof {
                    crate::rope::lemma_line_of_bounds(t0, cs0[j as int + 1].position.0 as int);
                }
                let pj = char_to_position(&b.text, cs.secondary[j].position);
                let ej = line_end_char(&b.text, pj.line);
                cs.secondary[j].position = ej;
                cs.secondary[j].goal_column = None;
                j += 1;
            }
            proof {
                assert forall|q: int| 0 <= q < cs.all_seq().len() implies #[trigger] cs.all_seq()[q]
                    == eol_map(t0, cs0)[q] by {
                    if q > 0 {
                        assert(cs.all_seq()[q] == cs.secondary@[q - 1]);
                    }
                }
                assert(cs.all_seq() =~= eol_map(t0, cs0));
            }
            let ghost final_cs = cs.all_seq();
            state.put_cursors(cs);
            proof {
                assert(state.window_cursors() == final_cs);
            }
            Ok(())
        },
        None => Ok(()),
    }
}

/// The relation `beginning-of-buffer` establishes between the editor before and after.
pub open spec fn beginning_of_buffer_post(
    pre: EditorState,
    post: EditorState,
    ctx: CommandContext,
    r: CommandResult,
) -> bool {
    &&& (post.wf())
    &&& (pre.current_target() is Some ==> post.window_cursors() == at_map(
            pre.target_cursors(),
            0,
        ))
}

/// Move every cursor to the start of the buffer.
#[verifier::loop_isolation(false)]
pub fn beginning_of_buffer(state: &mut EditorState, ctx: &CommandContext) -> (r: CommandResult)
    requires
        old(state).wf(),
    ensures
        beginning_of_buffer_post(*old(state), *final(state), *ctx, r),
{
    match state.edit_target() {
        Some((_, mut cs)) => {
            let ghost cs0 = cs.all_seq();
            proof {
                assert(cs0 == old(state).target_cursors());
                assert(cs.all_seq()[0] == cs.primary);
            }
            cs.primary.position = CharOffset(0);
            cs.primary.goal_column = None;
            let mut j: usize = 0;
            while j < cs.secondary.len()
                invariant
                    j <= cs.secondary@.len(),
                    cs.secondary@.len() == cs0.len() - 1,
                    cs.primary == at_map(cs0, 0)[0],
                    forall|q: int| 0 <= q < j ==> #[trigger] cs.secondary@[q] == at_map(cs0, 0)[q + 1],
                    forall|q: int|
                        j <= q < cs.secondary@.len() ==> #[trigger] cs.secondary@[q] == cs0[q + 1],
                decreases cs.secondary@.len() - j,
            {
                cs.secondary[j].position = CharOffset(0);
                cs.secondary[j].goal_column = None;
                j += 1;
            }
            proof {
                assert forall|q: int| 0 <= q < cs.all_seq().len() implies #[trigger] cs.all_seq()[q]
                    == at_map(cs0, 0)[q] by {
                    if q > 0 {
                        assert(cs.all_seq()[q] == cs.secondary@[q - 1]);
                    }
                }
                assert(cs.all_seq() =~= at_map(cs0, 0));
            }
            let ghost final_cs = cs.all_seq();
            state.put_cursors(cs);
            proof {
                assert(state.window_cursors() == final_cs);
            }
            Ok(())
        },
        None => Ok(()),
    }
}

/// The relation `end-of-buffer` establishes between the editor before and after.
pub open spec fn end_of_buffer_post(
    pre: EditorState,
    post: EditorState,
    ctx: CommandContext,
    r: CommandResult,
) -> bool {
    &&& (post.wf())
    &&& (pre.current_target() is Some ==> post.window_cursors() == at_map(
            pre.target_cursors(),
            pre.target_text().len() as int,
        ))
}

/// Move every cursor past the last char of the buffer.
#[verifier::loop_isolation(false)]
pub fn end_of_buffer(state: &mut EditorState, ctx: &CommandContext) -> (r: CommandResult)
    requires
        old(state).wf(),
    ensures
        end_of_buffer_post(*old(state), *final(state), *ctx, r),
{
    match state.edit_target() {
        Some((i, mut cs)) => {
            let ghost cs0 = cs.all_seq();
            proof {
                assert(cs0 == old(state).target_cursors());
                assert(cs.all_seq()[0] == cs.primary);
            }
            let len = state.buffers.buffers[i].len_chars();
            cs.primary.position = CharOffset(len);
            cs.primary.goal_column = None;
            let mut j: usize = 0;
            while j < cs.secondary.len()
                invariant
                    j <= cs.secondary@.len(),
                    cs.secondary@.len() == cs0.len() - 1,
                    cs.primary == at_map(cs0, len as int)[0],
                    forall|q: int|
                        0 <= q < j ==> #[trigger] cs.secondary@[q] == at_map(cs0, len as int)[q + 1],
                    forall|q: int|
                        j <= q < cs.secondary@.len() ==> #[trigger] cs.secondary@[q] == cs0[q + 1],
                decreases cs.secondary@.len() - j,
            {
                cs.secondary[j].position = CharOffset(len);
                cs.secondary[j].goal_column = None;
                j += 1;
            }
            proof {
                assert forall|q: int| 0 <= q < cs.all_seq().len() implies #[trigger] cs.all_seq()[q]
                    == at_map(cs0, len as int)[q] by {
                    if q > 0 {
                        assert(cs.all_seq()[q] == cs.secondary@[q - 1]);
                    }
                }
                assert(cs.all_seq() =~= at_map(cs0, len as int));
            }
            let ghost final_cs = cs.all_seq();
            state.put_cursors(cs);
            proof {
                assert(state.window_cursors() == final_cs);
            }
            Ok(())
        },
        None => Ok(()),
    }
}

/// One word-boundary hop from position `p`.
pub open spec fn word_step(t: Seq<char>, p: int, fwd: bool) -> int {
    if fwd {
        crate::rope_ext::fwd_word_boundary(t, p)
    } else {
        crate::rope_ext::bwd_word_boundary(t, p)
    }
}

/// `k` word-boundary hops from position `p`.
pub open spec fn word_steps(t: Seq<char>, p: int, fwd: bool, k: nat) -> int
    decreases k,
{
    if k == 0 {
        p
    } else {
        word_step(t, word_steps(t, p, fwd, (k - 1) as nat), fwd)
    }
}

/// Every cursor moved `k` word boundaries, with the goal column cleared.
pub open spec fn words_map(t: Seq<char>, cs: Seq<crate::cursor::Cursor>, fwd: bool, k: nat) -> Seq<
    crate::cursor::Cursor,
> {
    Seq::new(
        cs.len(),
        |w: int|
            crate::cursor::Cursor {
                position: CharOffset(word_steps(t, cs[w].position.0 as int, fwd, k) as usize),
                goal_column: None::<usize>,
                ..cs[w]
            },
    )
}

/// Move every cursor `count` word boundaries in a direction.
#[verifier::loop_isolation(false)]
fn move_words(state: &mut EditorState, count: usize, fwd: bool) -> (r: CommandResult)
    requires
        old(state).wf(),
    ensures
        final(state).wf(),
        r is Ok,
        old(state).current_target() is None ==> *final(state) == *old(state),
        old(state).current_target() is Some ==> final(state).window_cursors() == words_map(
            old(state).target_text(),
            old(state).target_cursors(),
            fwd,
            count as nat,
        ),
{
    match state.edit_target() {
        Some((i, mut cs)) => {
            let ghost t0 = rope_text(&state.buffers.buffers@[i as int].text);
            let ghost cs0 = cs.all_seq();
            proof {
                assert(t0 == old(state).target_text());
                assert(cs0 == old(state).target_cursors());
            }
            let b = &state.buffers.buffers[i];
            let mut k: usize = 0;
            while k < count
                invariant
                    k <= count,
                    i < state.buffers.buffers@.len(),
                    cs.secondary@.len() == cs0.len() - 1,
                    cs.primary.position.0 as int == word_steps(
                        t0,
                        cs0[0].position.0 as int,
                        fwd,
                        k as nat,
                    ),
                    cs.primary == (crate::cursor::Cursor {
                        position: cs.primary.position,
                        ..cs0[0]
                    }),
                    forall|q: int|
                        0 <= q < cs.secondary@.len() ==> (#[trigger] cs.secondary@[q]).position.0
                            as int == word_steps(t0, cs0[q + 1].position.0 as int, fwd, k as nat)
                            && cs.secondary@[q] == (crate::cursor::Cursor {
                            position: cs.secondary@[q].position,
                            ..cs0[q + 1]
                        }),
                decreases count - k,
            {
                let ghost pre_primary = cs.primary;
                let ghost pre_sec = cs.secondary@;
                let p = if fwd {
                    find_word_boundary_forward(&b.text, cs.primary.position)
                } else {
                    find_word_boundary_backward(&b.text, cs.primary.position)
                };
                cs.primary.position = p;
                proof {
                    assert(word_steps(t0, cs0[0].position.0 as int, fwd, (k + 1) as nat)
                        == word_step(
                        t0,
                        word_steps(t0, cs0[0].position.0 as int, fwd, k as nat),
                        fwd,
                    ));
                }
                let mut j: usize = 0;
                while j < cs.secondary.len()
                    invariant
                        j <= cs.secondary@.len(),
                        i < state.buffers.buffers@.len(),
                        cs.secondary@.len() == pre_sec.len(),
                        cs.primary == (crate::cursor::Cursor { position: cs.primary.position, ..pre_primary }),
                        cs.primary.position.0 as int == word_steps(
                            t0,
                            cs0[0].position.0 as int,
                            fwd,
                            (k + 1) as nat,
                        ),
                        forall|q: int|
                            0 <= q < j ==> (#[trigger] cs.secondary@[q]).position.0 as int
                                == word_steps(
                                t0,
                                cs0[q + 1].position.0 as int,
                                fwd,
                                (k + 1) as nat,
                            ) && cs.secondary@[q] == (crate::cursor::Cursor {
                                position: cs.secondary@[q].position,
                                ..pre_sec[q]
                            }),
                        forall|q: int|
                            j <= q < cs.secondary@.len() ==> #[trigger] cs.secondary@[q]
                                == pre_sec[q],
                    decreases cs.secondary@.len() - j,
                {
                    proof {
                        assert(word_steps(t0, cs0[j as int + 1].position.0 as int, fwd, (k + 1) as nat)
                            == word_step(
                            t0,
                            word_steps(t0, cs0[j as int + 1].position.0 as int, fwd, k as nat),
                            fwd,
                        ));
                    }
                    let pj = if fwd {
                        find_word_boundary_forward(&b.text, cs.secondary[j].position)
                    } else {
                        find_word_boundary_backward(&b.text, cs.secondary[j].position)
                    };
                    cs.secondary[j].position = pj;
                    j += 1;
                }
                k += 1;
            }
            cs.primary.goal_column = None;
            let ghost rounds_sec = cs.secondary@;
            let ghost rounds_primary = cs.primary;
            let mut j: usize = 0;
            while j < cs.secondary.len()
                invariant
                    j <= cs.secondary@.len(),
                    cs.secondary@.len() == rounds_sec.len(),
                    cs.primary == rounds_primary,
                    forall|q: int|
                        0 <= q < j ==> #[trigger] cs.secondary@[q] == (crate::cursor::Cursor {
                            goal_column: None::<usize>,
                            ..rounds_sec[q]
                        }),
                    forall|q: int|
                        j <= q < cs.secondary@.len() ==> #[trigger] cs.secondary@[q]
                            == rounds_sec[q],
                decreases cs.secondary@.len() - j,
            {
                cs.secondary[j].goal_column = None;
                j += 1;
            }
            proof {
                assert forall|q: int| 0 <= q < cs.all_seq().len() implies #[trigger] cs.all_seq()[q]
                    == words_map(t0, cs0, fwd, count as nat)[q] by {
                    if q > 0 {
                        assert(cs.all_seq()[q] == cs.secondary@[q - 1]);
                        assert(rounds_sec[q - 1].position.0 as int == word_steps(
                            t0,
                            cs0[q].position.0 as int,
                            fwd,
                            count as nat,
                        ));
                    }
                }
                assert(cs.all_seq() =~= words_map(t0, cs0, fwd, count as nat));
            }
            let ghost final_cs = cs.all_seq();
            state.put_cursors(cs);
            proof {
                assert(state.window_cursors() == final_cs);
            }
            Ok(())
        },
        None => Ok(()),
    }
}

/// The relation `forward-word` establishes between the editor before and after.
pub open spec fn forward_word_post(
    pre: EditorState,
    post: EditorState,
    ctx: CommandContext,
    r: CommandResult,
) -> bool {
    &&& (post.wf())
    &&& (r is Ok)
    &&& (pre.current_target() is None ==> post == pre)
    &&& (pre.current_target() is Some ==> post.window_cursors() == words_map(
        pre.target_text(),
        pre.target_cursors(),
        true,
        crate::registry::prefix_repeat(ctx.prefix_arg) as nat,
    ))
}

/// Move every cursor forward over `count` words.
pub fn forward_word(state: &mut EditorState, ctx: &CommandContext) -> (r: CommandResult)
    requires
        old(state).wf(),
    ensures
        forward_word_post(*old(state), *final(state), *ctx, r),
{
    move_words(state, ctx.repeat_count(), true)
}

/// The relation `backward-word` establishes between the editor before and after.
pub open spec fn backward_word_post(
    pre: EditorState,
    post: EditorState,
    ctx: CommandContext,
    r: CommandResult,
) -> bool {
    &&& (post.wf())
    &&& (r is Ok)
    &&& (pre.current_target() is None ==> post == pre)
    &&& (pre.current_target() is Some ==> post.window_cursors() == words_map(
        pre.target_text(),
        pre.target_cursors(),
        false,
        crate::registry::prefix_repeat(ctx.prefix_arg) as nat,
    ))
}

/// Move every cursor backward over `count` words.
pub fn backward_word(state: &mut EditorState, ctx: &CommandContext) -> (r: CommandResult)
    requires
        old(state).wf(),
    ensures
        backward_word_post(*old(state), *final(state), *ctx, r),
{
    move_words(state, ctx.repeat_count(), false)
}

/// How far one scroll command moves: the prefix count, or nearly a window.
pub open spec fn scroll_step(pre: EditorState, ctx: CommandContext) -> int {
    let h = pre.windows.windows_seq()[pre.windows.current as int].height as int;
    if !(ctx.prefix_arg is Unset) {
        crate::registry::prefix_repeat(ctx.prefix_arg)
    } else if h >= 2 {
        h - 2
    } else {
        0
    }
}

/// The relation `scroll-up-command` establishes between the editor before and after.
pub open spec fn scroll_up_command_post(
    pre: EditorState,
    post: EditorState,
    ctx: CommandContext,
    r: CommandResult,
) -> bool {
    &&& (post.wf())
    &&& (r is Ok)
    &&& (pre.windows.windows_seq().len() > 0 ==> ({
        let w = pre.windows.windows_seq()[pre.windows.current as int];
        let target: int = if w.scroll_line + scroll_step(pre, ctx) <= usize::MAX {
            w.scroll_line + scroll_step(pre, ctx)
        } else {
            usize::MAX as int
        };
        &&& post.windows.windows_seq()[pre.windows.current as int].scroll_line == target
        &&& post.buffers == pre.buffers
        &&& post.kill_ring == pre.kill_ring
        &&& post.message == pre.message
        &&& post.windows.windows_seq().len() == pre.windows.windows_seq().len()
        &&& post.windows.current == pre.windows.current
    }))
}

/// Scroll the window toward the end of the buffer, pulling the cursor along.
pub fn scroll_up_command(state: &mut EditorState, ctx: &CommandContext) -> (r: CommandResult)
    requires
        old(state).wf(),
    ensures
        scroll_up_command_post(*old(state), *final(state), *ctx, r),
{
    let count = ctx.repeat_count();
    let window_height: usize = match state.windows.current() {
        Some(w) => w.height as usize,
        None => {
            return Ok(());
        },
    };
    let old_scroll: usize = match state.windows.current() {
        Some(w) => w.scroll_line,
        None => 0,
    };
    let step = if ctx.prefix_arg.is_set() {
        count
    } else if window_height >= 2 {
        window_height - 2
    } else {
        0
    };
    let target = if old_scroll <= usize::MAX - step {
        old_scroll + step
    } else {
        usize::MAX
    };
    state.windows.set_current_scroll_line(target);
    match state.edit_target() {
        Some((i, mut cs)) => {
            let b = &state.buffers.buffers[i];
            let pos = char_to_position(&b.text, cs.primary.position);
            if pos.line < target {
                let dest = line_start_char(&b.text, target);
                cs.primary.position = dest;
                cs.primary.goal_column = None;
                state.put_cursors(cs);
            }
            Ok(())
        },
        None => Ok(()),
    }
}

/// The relation `scroll-down-command` establishes between the editor before and after.
pub open spec fn scroll_down_command_post(
    pre: EditorState,
    post: EditorState,
    ctx: CommandContext,
    r: CommandResult,
) -> bool {
    &&& (post.wf())
    &&& (r is Ok)
    &&& (pre.windows.windows_seq().len() > 0 ==> ({
        let w = pre.windows.windows_seq()[pre.windows.current as int];
        let target: int = if w.scroll_line >= scroll_step(pre, ctx) {
            w.scroll_line - scroll_step(pre, ctx)
        } else {
            0
        };
        &&& post.windows.windows_seq()[pre.windows.current as int].scroll_line == target
        &&& post.buffers == pre.buffers
        &&& post.kill_ring == pre.kill_ring
        &&& post.message == pre.message
        &&& post.windows.windows_seq().len() == pre.windows.windows_seq().len()
        &&& post.windows.current == pre.windows.current
    }))
}

/// Scroll the window toward the start of the buffer, pulling the cursor
/// along.
pub fn scroll_down_command(state: &mut EditorState, ctx: &CommandContext) -> (r: CommandResult)
    requires
        old(state).wf(),
    ensures
        scroll_down_command_post(*old(state), *final(state), *ctx, r),
{
    let count = ctx.repeat_count();
    let window_height: usize = match state.windows.current() {
        Some(w) => w.height as usize,
        None => {
            return Ok(());
        },
    };
    let old_scroll: usize = match state.windows.current() {
        Some(w) => w.scroll_line,
        None => 0,
    };
    let step = if ctx.prefix_arg.is_set() {
        count
    } else if window_height >= 2 {
        window_height - 2
    } else {
        0
    };
    let target = if old_scroll >= step {
        old_scroll - step
    } else {
        0
    };
    state.windows.set_current_scroll_line(target);
    let visible_end = if window_height >= 2 && target <= usize::MAX - (window_height - 2) {
        target + (window_height - 2)
    } else {
        target
    };
    match state.edit_target() {
        Some((i, mut cs)) => {
            let b = &state.buffers.buffers[i];
            let pos = char_to_position(&b.text, cs.primary.position);
            if pos.line > visible_end {
                let dest = line_start_char(&b.text, visible_end);
                cs.primary.position = dest;
                cs.primary.goal_column = None;
                state.put_cursors(cs);
            }
            Ok(())
        },
        None => Ok(()),
    }
}

/// The relation `recenter-top-bottom` establishes between the editor before and after.
pub open spec fn recenter_top_bottom_post(
    pre: EditorState,
    post: EditorState,
    ctx: CommandContext,
    r: CommandResult,
) -> bool {
    &&& (post.wf())
    &&& (r is Ok)
    &&& (pre.current_target() is None ==> post == pre)
    &&& (pre.current_target() is Some ==> ({
        let t = pre.target_text();
        let w = pre.windows.windows_seq()[pre.windows.current as int];
        let half = (w.height as int) / 2;
        let line = crate::rope::line_of(t, pre.target_cursors()[0].position.0 as int);
        let dest: int = if line >= half {
            line - half
        } else {
            0
        };
        post.windows.windows_seq() == pre.windows.windows_seq().update(
            pre.windows.current as int,
            crate::window_mgr::Window { scroll_line: dest as usize, ..w },
        ) && post.buffers == pre.buffers && post.kill_ring == pre.kill_ring && post.message
            == pre.message
    }))
}

/// Scroll so the cursor's line sits in the middle of the window.
pub fn recenter_top_bottom(state: &mut EditorState, ctx: &CommandContext) -> (r: CommandResult)
    requires
        old(state).wf(),
    ensures
        recenter_top_bottom_post(*old(state), *final(state), *ctx, r),
{
    let window_height: usize = match state.windows.current() {
        Some(w) => w.height as usize,
        None => {
            return Ok(());
        },
    };
    match state.edit_target() {
        Some((i, cs)) => {
            let b = &state.buffers.buffers[i];
            let pos = char_to_position(&b.text, cs.primary.position);
            let half = window_height / 2;
            let line = if pos.line >= half {
                pos.line - half
            } else {
                0
            };
            state.windows.set_current_scroll_line(line);
            Ok(())
        },
        None => Ok(()),
    }
}

/// The line a prefix argument names, clamped to the text: arguments count
/// lines from one.
pub open spec fn goto_line_target(t: Seq<char>, p: crate::registry::PrefixArg) -> int {
    let c: int = match p {
        crate::registry::PrefixArg::Unset => 1int,
        crate::registry::PrefixArg::Universal(n) => n as int,
        crate::registry::PrefixArg::Negative => -1int,
        crate::registry::PrefixArg::Raw(n) => n as int,
    };
    let line: int = if c >= 1 {
        c - 1
    } else {
        0
    };
    let maxl = crate::rope::line_count(t) - 1;
    if line <= maxl {
        line
    } else {
        maxl
    }
}

/// Every cursor jumped to the start of the named line.
pub open spec fn goto_map(
    t: Seq<char>,
    cs: Seq<crate::cursor::Cursor>,
    p: crate::registry::PrefixArg,
) -> Seq<crate::cursor::Cursor> {
    Seq::new(
        cs.len(),
        |w: int|
            crate::cursor::Cursor {
                position: CharOffset(crate::rope::line_start(t, goto_line_target(t, p)) as usize),
                goal_column: None::<usize>,
                ..cs[w]
            },
    )
}

/// The relation `goto-line` establishes between the editor before and after.
pub open spec fn goto_line_post(
    pre: EditorState,
    post: EditorState,
    ctx: CommandContext,
    r: CommandResult,
) -> bool {
    &&& (post.wf())
    &&& (r is Ok)
    &&& (ctx.prefix_arg is Unset ==> post == pre)
    &&& (pre.current_target() is None ==> post == pre)
    &&& (!(ctx.prefix_arg is Unset) && pre.current_target() is Some ==> post.window_cursors()
        == goto_map(pre.target_text(), pre.target_cursors(), ctx.prefix_arg))
}

/// Jump every cursor to the start of the line the prefix argument names.
#[verifier::loop_isolation(false)]
pub fn goto_line(state: &mut EditorState, ctx: &CommandContext) -> (r: CommandResult)
    requires
        old(state).wf(),
    ensures
        goto_line_post(*old(state), *final(state), *ctx, r),
{
    if !ctx.prefix_arg.is_set() {
        return Ok(());
    }
    let c = ctx.count();
    let line: usize = if c >= 1 {
        (c - 1) as usize
    } else {
        0
    };
    match state.edit_target() {
        Some((i, mut cs)) => {
            let ghost t0 = rope_text(&state.buffers.buffers@[i as int].text);
            let ghost cs0 = cs.all_seq();
            proof {
                assert(t0 == old(state).target_text());
                assert(cs0 == old(state).target_cursors());
            }
            let b = &state.buffers.buffers[i];
            let total = total_lines(&b.text);
            proof {
                crate::rope::lemma_newline_count_nonneg(rope_text(&b.text));
            }
            let max_line = if total >= 1 {
                total - 1
            } else {
                0
            };
            let target = if line <= max_line {
                line
            } else {
                max_line
            };
            proof {
                assert(target as int == goto_line_target(t0, ctx.prefix_arg));
            }
            let dest = line_start_char(&b.text, target);
            cs.primary.position = dest;
            cs.primary.goal_column = None;
            proof {
                assert(cs.primary == goto_map(t0, cs0, ctx.prefix_arg)[0]);
            }
            let ghost pre_sec = cs.secondary@;
            let mut j: usize = 0;
            while j < cs.secondary.len()
                invariant
                    j <= pre_sec.len(),
                    cs.secondary@.len() == pre_sec.len(),
                    cs.primary == goto_map(t0, cs0, ctx.prefix_arg)[0],
                    forall|q: int|
                        0 <= q < j ==> #[trigger] cs.secondary@[q] == goto_map(
                            t0,
                            cs0,
                            ctx.prefix_arg,
                        )[q + 1],
                    forall|q: int| j <= q < pre_sec.len() ==> #[trigger] cs.secondary@[q]
                        == pre_sec[q],
                decreases pre_sec.len() - j,
            {
                cs.secondary[j].position = dest;
                cs.secondary[j].goal_column = None;
                j += 1;
            }
            proof {
                assert forall|q: int| 0 <= q < cs.all_seq().len() implies #[trigger] cs.all_seq()[q]
                    == goto_map(t0, cs0, ctx.prefix_arg)[q] by {
                    if q > 0 {
                        assert(cs.all_seq()[q] == cs.secondary@[q - 1]);
                    }
                }
                assert(cs.all_seq() =~= goto_map(t0, cs0, ctx.prefix_arg));
            }
            let ghost final_cs = cs.all_seq();
            state.put_cursors(cs);
            proof {
                assert(state.window_cursors() == final_cs);
            }
            Ok(())
        },
        None => Ok(()),
    }
}

/// Drop a mark at every cursor that has none active, so motion extends a
/// A cursor with a mark made active at its point where none is active.
pub open spec fn shift_marked_cursor(c: crate::cursor::Cursor) -> crate::cursor::Cursor {
    if c.mark_active {
        c
    } else {
        crate::cursor::Cursor { mark: Some(c.position), mark_active: true, ..c }
    }
}

/// Every cursor with a mark made active for shift selection.
pub open spec fn shift_marked(cs: Seq<crate::cursor::Cursor>) -> Seq<crate::cursor::Cursor> {
    Seq::new(cs.len(), |w: int| shift_marked_cursor(cs[w]))
}

/// selection.
#[verifier::loop_isolation(false)]
fn ensure_mark_for_shift_select(state: &mut EditorState)
    requires
        old(state).wf(),
    ensures
        final(state).wf(),
        old(state).current_target() is None ==> *final(state) == *old(state),
        old(state).current_target() is Some ==> final(state).window_cursors() == shift_marked(
            old(state).target_cursors(),
        ),
        final(state).buffers == old(state).buffers,
        final(state).message == old(state).message,
        final(state).kill_ring == old(state).kill_ring,
        final(state).minibuffer == old(state).minibuffer,
        final(state).keymap == old(state).keymap,
        final(state).last_command == old(state).last_command,
        final(state).prefix_arg == old(state).prefix_arg,
        final(state).pending_io == old(state).pending_io,
        final(state).windows.current == old(state).windows.current,
        final(state).windows.windows_seq().len() == old(state).windows.windows_seq().len(),
        final(state).command_registry == old(state).command_registry,
        final(state).current_target() == old(state).current_target(),
{
    match state.edit_target() {
        Some((_, mut cs)) => {
            let ghost cs0 = cs.all_seq();
            proof {
                assert(cs0 == old(state).target_cursors());
            }
            if !cs.primary.mark_active {
                let p0 = cs.primary.position;
                cs.primary.set_mark(p0);
            }
            proof {
                assert(cs.primary == shift_marked_cursor(cs0[0]));
            }
            let ghost pre_sec = cs.secondary@;
            let mut j: usize = 0;
            while j < cs.secondary.len()
                invariant
                    j <= pre_sec.len(),
                    cs.secondary@.len() == pre_sec.len(),
                    cs.primary == shift_marked_cursor(cs0[0]),
                    forall|q: int|
                        0 <= q < j ==> #[trigger] cs.secondary@[q] == shift_marked_cursor(
                            pre_sec[q],
                        ),
                    forall|q: int| j <= q < pre_sec.len() ==> #[trigger] cs.secondary@[q]
                        == pre_sec[q],
                decreases pre_sec.len() - j,
            {
                if !cs.secondary[j].mark_active {
                    let pj = cs.secondary[j].position;
                    let mut cj = cs.secondary[j];
                    cj.set_mark(pj);
                    cs.secondary[j] = cj;
                }
                j += 1;
            }
            proof {
                assert forall|q: int| 0 <= q < cs.all_seq().len() implies #[trigger] cs.all_seq()[q]
                    == shift_marked(cs0)[q] by {
                    if q > 0 {
                        assert(cs.all_seq()[q] == cs.secondary@[q - 1]);
                        assert(cs0[q] == pre_sec[q - 1]);
                    }
                }
                assert(cs.all_seq() =~= shift_marked(cs0));
            }
            let ghost final_cs = cs.all_seq();
            state.put_cursors(cs);
            proof {
                assert(state.window_cursors() == final_cs);
            }
        },
        None => {},
    }
}

/// The relation `forward-char-shift` establishes between the editor before and after.
pub open spec fn forward_char_shift_post(
    pre: EditorState,
    post: EditorState,
    ctx: CommandContext,
    r: CommandResult,
) -> bool {
    &&& (post.wf())
    &&& exists|mid: EditorState|
        {
            &&& #[trigger] forward_char_post(mid, post, ctx, r)
            &&& mid.buffers == pre.buffers
            &&& mid.current_target() == pre.current_target()
            &&& (pre.current_target() is Some ==> mid.target_text() == pre.target_text()
                && mid.window_cursors() == shift_marked(pre.target_cursors()))
            &&& (pre.current_target() is None ==> mid == pre)
        }
}

pub fn forward_char_shift(state: &mut EditorState, ctx: &CommandContext) -> (r: CommandResult)
    requires
        old(state).wf(),
    ensures
        forward_char_shift_post(*old(state), *final(state), *ctx, r),
{
    ensure_mark_for_shift_select(state);
    let ghost mid = *state;
    let r = forward_char(state, ctx);
    proof {
        assert(forward_char_post(mid, *state, *ctx, r));
    }
    r
}

/// The relation `backward-char-shift` establishes between the editor before and after.
pub open spec fn backward_char_shift_post(
    pre: EditorState,
    post: EditorState,
    ctx: CommandContext,
    r: CommandResult,
) -> bool {
    &&& (post.wf())
    &&& exists|mid: EditorState|
        {
            &&& #[trigger] backward_char_post(mid, post, ctx, r)
            &&& mid.buffers == pre.buffers
            &&& mid.current_target() == pre.current_target()
            &&& (pre.current_target() is Some ==> mid.target_text() == pre.target_text()
                && mid.window_cursors() == shift_marked(pre.target_cursors()))
            &&& (pre.current_target() is None ==> mid == pre)
        }
}

pub fn backward_char_shift(state: &mut EditorState, ctx: &CommandContext) -> (r: CommandResult)
    requires
        old(state).wf(),
    ensures
        backward_char_shift_post(*old(state), *final(state), *ctx, r),
{
    ensure_mark_for_shift_select(state);
    let ghost mid = *state;
    let r = backward_char(state, ctx);
    proof {
        assert(backward_char_post(mid, *state, *ctx, r));
    }
    r
}

/// The relation `next-line-shift` establishes between the editor before and after.
pub open spec fn next_line_shift_post(
    pre: EditorState,
    post: EditorState,
    ctx: CommandContext,
    r: CommandResult,
) -> bool {
    &&& (post.wf())
    &&& exists|mid: EditorState|
        {
            &&& #[trigger] next_line_post(mid, post, ctx, r)
            &&& mid.buffers == pre.buffers
            &&& mid.current_target() == pre.current_target()
            &&& (pre.current_target() is Some ==> mid.target_text() == pre.target_text()
                && mid.window_cursors() == shift_marked(pre.target_cursors()))
            &&& (pre.current_target() is None ==> mid == pre)
        }
}

pub fn next_line_shift(state: &mut EditorState, ctx: &CommandContext) -> (r: CommandResult)
    requires
        old(state).wf(),
    ensures
        next_line_shift_post(*old(state), *final(state), *ctx, r),
{
    ensure_mark_for_shift_select(state);
    let ghost mid = *state;
    let r = next_line(state, ctx);
    proof {
        assert(next_line_post(mid, *state, *ctx, r));
    }
    r
}

/// The relation `previous-line-shift` establishes between the editor before and after.
pub open spec fn previous_line_shift_post(
    pre: EditorState,
    post: EditorState,
    ctx: CommandContext,
    r: CommandResult,
) -> bool {
    &&& (post.wf())
    &&& exists|mid: EditorState|
        {
            &&& #[trigger] previous_line_post(mid, post, ctx, r)
            &&& mid.buffers == pre.buffers
            &&& mid.current_target() == pre.current_target()
            &&& (pre.current_target() is Some ==> mid.target_text() == pre.target_text()
                && mid.window_cursors() == shift_marked(pre.target_cursors()))
            &&& (pre.current_target() is None ==> mid == pre)
        }
}

pub fn previous_line_shift(state: &mut EditorState, ctx: &CommandContext) -> (r: CommandResult)
    requires
        old(state).wf(),
    ensures
        previous_line_shift_post(*old(state), *final(state), *ctx, r),
{
    ensure_mark_for_shift_select(state);
    let ghost mid = *state;
    let r = previous_line(state, ctx);
    proof {
        assert(previous_line_post(mid, *state, *ctx, r));
    }
    r
}

/// The relation `forward-word-shift` establishes between the editor before and after.
pub open spec fn forward_word_shift_post(
    pre: EditorState,
    post: EditorState,
    ctx: CommandContext,
    r: CommandResult,
) -> bool {
    &&& (post.wf())
    &&& exists|mid: EditorState|
        {
            &&& #[trigger] forward_word_post(mid, post, ctx, r)
            &&& mid.buffers == pre.buffers
            &&& mid.current_target() == pre.current_target()
            &&& (pre.current_target() is Some ==> mid.target_text() == pre.target_text()
                && mid.window_cursors() == shift_marked(pre.target_cursors()))
            &&& (pre.current_target() is None ==> mid == pre)
        }
}

pub fn forward_word_shift(state: &mut EditorState, ctx: &CommandContext) -> (r: CommandResult)
    requires
        old(state).wf(),
    ensures
        forward_word_shift_post(*old(state), *final(state), *ctx, r),
{
    ensure_mark_for_shift_select(state);
    let ghost mid = *state;
    let r = forward_word(state, ctx);
    proof {
        assert(forward_word_post(mid, *state, *ctx, r));
    }
    r
}

/// The relation `backward-word-shift` establishes between the editor before and after.
pub open spec fn backward_word_shift_post(
    pre: EditorState,
    post: EditorState,
    ctx: CommandContext,
    r: CommandResult,
) -> bool {
    &&& (post.wf())
    &&& exists|mid: EditorState|
        {
            &&& #[trigger] backward_word_post(mid, post, ctx, r)
            &&& mid.buffers == pre.buffers
            &&& mid.current_target() == pre.current_target()
            &&& (pre.current_target() is Some ==> mid.target_text() == pre.target_text()
                && mid.window_cursors() == shift_marked(pre.target_cursors()))
            &&& (pre.current_target() is None ==> mid == pre)
        }
}

pub fn backward_word_shift(state: &mut EditorState, ctx: &CommandContext) -> (r: CommandResult)
    requires
        old(state).wf(),
    ensures
        backward_word_shift_post(*old(state), *final(state), *ctx, r),
{
    ensure_mark_for_shift_select(state);
    let ghost mid = *state;
    let r = backward_word(state, ctx);
    proof {
        assert(backward_word_post(mid, *state, *ctx, r));
    }
    r
}

/// The relation `move-beginning-of-line-shift` establishes between the editor before and after.
pub open spec fn move_beginning_of_line_shift_post(
    pre: EditorState,
    post: EditorState,
    ctx: CommandContext,
    r: CommandResult,
) -> bool {
    &&& (post.wf())
    &&& exists|mid: EditorState|
        {
            &&& #[trigger] move_beginning_of_line_post(mid, post, ctx, r)
            &&& mid.buffers == pre.buffers
            &&& mid.current_target() == pre.current_target()
            &&& (pre.current_target() is Some ==> mid.target_text() == pre.target_text()
                && mid.window_cursors() == shift_marked(pre.target_cursors()))
            &&& (pre.current_target() is None ==> mid == pre)
        }
}

pub fn move_beginning_of_line_shift(state: &mut EditorState, ctx: &CommandContext) -> (r: CommandResult)
    requires
        old(state).wf(),
    ensures
        move_beginning_of_line_shift_post(*old(state), *final(state), *ctx, r),
{
    ensure_mark_for_shift_select(state);
    let ghost mid = *state;
    let r = move_beginning_of_line(state, ctx);
    proof {
        assert(move_beginning_of_line_post(mid, *state, *ctx, r));
    }
    r
}

/// The relation `move-end-of-line-shift` establishes between the editor before and after.
pub open spec fn move_end_of_line_shift_post(
    pre: EditorState,
    post: EditorState,
    ctx: CommandContext,
    r: CommandResult,
) -> bool {
    &&& (post.wf())
    &&& exists|mid: EditorState|
        {
            &&& #[trigger] move_end_of_line_post(mid, post, ctx, r)
            &&& mid.buffers == pre.buffers
            &&& mid.current_target() == pre.current_target()
            &&& (pre.current_target() is Some ==> mid.target_text() == pre.target_text()
                && mid.window_cursors() == shift_marked(pre.target_cursors()))
            &&& (pre.current_target() is None ==> mid == pre)
        }
}

pub fn move_end_of_line_shift(state: &mut EditorState, ctx: &CommandContext) -> (r: CommandResult)
    requires
        old(state).wf(),
    ensures
        move_end_of_line_shift_post(*old(state), *final(state), *ctx, r),
{
    ensure_mark_for_shift_select(state);
    let ghost mid = *state;
    let r = move_end_of_line(state, ctx);
    proof {
        assert(move_end_of_line_post(mid, *state, *ctx, r));
    }
    r
}

/// The relation `beginning-of-buffer-shift` establishes between the editor before and after.
pub open spec fn beginning_of_buffer_shift_post(
    pre: EditorState,
    post: EditorState,
    ctx: CommandContext,
    r: CommandResult,
) -> bool {
    &&& (post.wf())
    &&& exists|mid: EditorState|
        {
            &&& #[trigger] beginning_of_buffer_post(mid, post, ctx, r)
            &&& mid.buffers == pre.buffers
            &&& mid.current_target() == pre.current_target()
            &&& (pre.current_target() is Some ==> mid.target_text() == pre.target_text()
                && mid.window_cursors() == shift_marked(pre.target_cursors()))
            &&& (pre.current_target() is None ==> mid == pre)
        }
}

pub fn beginning_of_buffer_shift(state: &mut EditorState, ctx: &CommandContext) -> (r: CommandResult)
    requires
        old(state).wf(),
    ensures
        beginning_of_buffer_shift_post(*old(state), *final(state), *ctx, r),
{
    ensure_mark_for_shift_select(state);
    let ghost mid = *state;
    let r = beginning_of_buffer(state, ctx);
    proof {
        assert(beginning_of_buffer_post(mid, *state, *ctx, r));
    }
    r
}

/// The relation `end-of-buffer-shift` establishes between the editor before and after.
pub open spec fn end_of_buffer_shift_post(
    pre: EditorState,
    post: EditorState,
    ctx: CommandContext,
    r: CommandResult,
) -> bool {
    &&& (post.wf())
    &&& exists|mid: EditorState|
        {
            &&& #[trigger] end_of_buffer_post(mid, post, ctx, r)
            &&& mid.buffers == pre.buffers
            &&& mid.current_target() == pre.current_target()
            &&& (pre.current_target() is Some ==> mid.target_text() == pre.target_text()
                && mid.window_cursors() == shift_marked(pre.target_cursors()))
            &&& (pre.current_target() is None ==> mid == pre)
        }
}

pub fn end_of_buffer_shift(state: &mut EditorState, ctx: &CommandContext) -> (r: CommandResult)
    requires
        old(state).wf(),
    ensures
        end_of_buffer_shift_post(*old(state), *final(state), *ctx, r),
{
    ensure_mark_for_shift_select(state);
    let ghost mid = *state;
    let r = end_of_buffer(state, ctx);
    proof {
        assert(end_of_buffer_post(mid, *state, *ctx, r));
    }
    r
}

} // verus!
