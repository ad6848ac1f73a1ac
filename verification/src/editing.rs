//! Editing commands: insertion, deletion, marks, undo, and multi-cursor
//! spawning.
use vstd::prelude::*;
use vstd::string::StrSliceExecFns;

use crate::buffer::Buffer;
use crate::buffer_mgr::lemma_buffers_wf_update;
use crate::cursor::Cursor;
use crate::cursor::CursorSet;
use crate::cursor::cursor_bounded;
use crate::editor::EditorState;
use crate::mark::Mark;
use crate::position::CharOffset;
use crate::registry::CommandContext;
use crate::registry::CommandError;
use crate::registry::CommandResult;
use crate::rope::rope_text;
use crate::rope::rope_len_chars;
use crate::rope::rope_char;
use crate::rope_ext::find_word_boundary_backward;
use crate::rope_ext::find_word_boundary_forward;

verus! {

/// The cursors' live regions, one per cursor that has one.
#[verifier::loop_isolation(false)]
pub fn active_regions(cs: &CursorSet) -> (r: Vec<
    (crate::cursor::CursorId, CharOffset, CharOffset),
>)
    ensures
        r@ == crate::kill_yank::region_ops(cs.all_seq()),
{
    let all = cs.all_cursors();
    let mut out: Vec<(crate::cursor::CursorId, CharOffset, CharOffset)> = Vec::new();
    let mut i: usize = 0;
    proof {
        assert(all@.skip(0) =~= all@);
        assert(out@ + crate::kill_yank::region_ops(all@.skip(0)) =~= crate::kill_yank::region_ops(
            all@,
        ));
    }
    while i < all.len()
        invariant
            i <= all@.len(),
            crate::kill_yank::region_ops(all@) == out@ + crate::kill_yank::region_ops(
                all@.skip(i as int),
            ),
        decreases all@.len() - i,
    {
        let ghost pre = out@;
        proof {
            assert(all@.skip(i as int)[0] == all@[i as int]);
            assert(all@.skip(i as int).drop_first() =~= all@.skip(i as int + 1));
        }
        match all[i].region() {
            Some((start, end)) => {
                out.push((all[i].id, start, end));
                proof {
                    assert(pre + (seq![(all@[i as int].id, start, end)]
                        + crate::kill_yank::region_ops(all@.skip(i as int + 1))) =~= out@
                        + crate::kill_yank::region_ops(all@.skip(i as int + 1)));
                }
            },
            None => {},
        }
        i += 1;
    }
    proof {
        assert(all@.skip(all@.len() as int) =~= Seq::<crate::cursor::Cursor>::empty());
        assert(out@ + crate::kill_yank::region_ops(all@.skip(all@.len() as int)) =~= out@);
    }
    out
}

/// One forward-deletion round over a cursor set: the text it leaves.
pub open spec fn del_fwd_round_text(t: Seq<char>, cs: Seq<Cursor>) -> Seq<char> {
    crate::buffer::del_fwd_text(t, crate::cursor::sort_desc(crate::cursor::positions_of(cs)))
}

/// One forward-deletion round over a cursor set: the cursors it leaves.
pub open spec fn del_fwd_round_cursors(t: Seq<char>, cs: Seq<Cursor>) -> Seq<Cursor> {
    crate::cursor::sort_merge_m(
        crate::buffer::del_fwd_cursors(
            cs,
            t,
            crate::cursor::sort_desc(crate::cursor::positions_of(cs)),
        ),
    )
}

/// The text after `n` forward-deletion rounds.
pub open spec fn iter_del_fwd_text(t: Seq<char>, cs: Seq<Cursor>, n: nat) -> Seq<char>
    decreases n,
{
    if n == 0 {
        t
    } else {
        iter_del_fwd_text(del_fwd_round_text(t, cs), del_fwd_round_cursors(t, cs), (n - 1) as nat)
    }
}

/// The cursors after `n` forward-deletion rounds.
pub open spec fn iter_del_fwd_cursors(t: Seq<char>, cs: Seq<Cursor>, n: nat) -> Seq<Cursor>
    decreases n,
{
    if n == 0 {
        cs
    } else {
        iter_del_fwd_cursors(
            del_fwd_round_text(t, cs),
            del_fwd_round_cursors(t, cs),
            (n - 1) as nat,
        )
    }
}

/// One backward-deletion round over a cursor set: the text it leaves.
pub open spec fn del_bwd_round_text(t: Seq<char>, cs: Seq<Cursor>) -> Seq<char> {
    crate::buffer::del_bwd_text(t, crate::cursor::sort_desc(crate::cursor::positions_of(cs)))
}

/// One backward-deletion round over a cursor set: the cursors it leaves.
pub open spec fn del_bwd_round_cursors(t: Seq<char>, cs: Seq<Cursor>) -> Seq<Cursor> {
    crate::cursor::sort_merge_m(
        crate::buffer::del_bwd_cursors(
            cs,
            t,
            crate::cursor::sort_desc(crate::cursor::positions_of(cs)),
        ),
    )
}

/// The text after `n` backward-deletion rounds.
pub open spec fn iter_del_bwd_text(t: Seq<char>, cs: Seq<Cursor>, n: nat) -> Seq<char>
    decreases n,
{
    if n == 0 {
        t
    } else {
        iter_del_bwd_text(del_bwd_round_text(t, cs), del_bwd_round_cursors(t, cs), (n - 1) as nat)
    }
}

/// The cursors after `n` backward-deletion rounds.
pub open spec fn iter_del_bwd_cursors(t: Seq<char>, cs: Seq<Cursor>, n: nat) -> Seq<Cursor>
    decreases n,
{
    if n == 0 {
        cs
    } else {
        iter_del_bwd_cursors(
            del_bwd_round_text(t, cs),
            del_bwd_round_cursors(t, cs),
            (n - 1) as nat,
        )
    }
}

/// One insertion round of `s` at every cursor: the text it leaves.
pub open spec fn ins_round_text(t: Seq<char>, cs: Seq<Cursor>, s: Seq<char>) -> Seq<char> {
    crate::buffer::splice_descending(
        t,
        crate::cursor::sort_desc(crate::cursor::positions_of(cs)),
        s,
    )
}

/// One insertion round of `s` at every cursor: the cursors it leaves.
pub open spec fn ins_round_cursors(t: Seq<char>, cs: Seq<Cursor>, s: Seq<char>) -> Seq<Cursor> {
    crate::cursor::sort_merge_m(
        crate::buffer::advance_all(
            crate::buffer::insert_chain(
                cs,
                t,
                crate::cursor::sort_desc(crate::cursor::positions_of(cs)),
                s,
            ),
            s.len() as int,
        ),
    )
}

/// The text after `n` insertion rounds of `s`.
pub open spec fn iter_ins_text(t: Seq<char>, cs: Seq<Cursor>, s: Seq<char>, n: nat) -> Seq<char>
    decreases n,
{
    if n == 0 {
        t
    } else {
        iter_ins_text(ins_round_text(t, cs, s), ins_round_cursors(t, cs, s), s, (n - 1) as nat)
    }
}

/// The cursors after `n` insertion rounds of `s`.
pub open spec fn iter_ins_cursors(t: Seq<char>, cs: Seq<Cursor>, s: Seq<char>, n: nat) -> Seq<
    Cursor,
>
    decreases n,
{
    if n == 0 {
        cs
    } else {
        iter_ins_cursors(ins_round_text(t, cs, s), ins_round_cursors(t, cs, s), s, (n - 1) as nat)
    }
}

/// Delete every live region as one undo group; true when any region existed.
pub fn delete_region_if_active(b: &mut Buffer, cs: &mut CursorSet) -> (r: bool)
    requires
        old(cs).bounded(rope_text(&old(b).text).len() as int),
        old(b).wf(),
        !old(b).read_only,
    ensures
        final(b).wf(),
        final(cs).bounded(rope_text(&final(b).text).len() as int),
        final(b).id == old(b).id,
        final(b).read_only == old(b).read_only,
        r == (crate::kill_yank::region_ops(old(cs).all_seq()).len() > 0),
        r ==> rope_text(&final(b).text) == crate::buffer::del_regions_text(
            rope_text(&old(b).text),
            crate::buffer::sort_desc_regions(
                crate::buffer::keep_regions(crate::kill_yank::region_ops(old(cs).all_seq())),
            ),
        ),
        !r ==> *final(b) == *old(b) && *final(cs) == *old(cs),
{
    let regions = active_regions(cs);
    if regions.len() == 0 {
        return false;
    }
    let _ = b.delete_regions(cs, regions);
    cs.deactivate_all_marks();
    proof {
        assert forall|i: int| 0 <= i < cs.all_seq().len() implies cursor_bounded(
            #[trigger] cs.all_seq()[i],
            rope_text(&b.text).len() as int,
        ) by {}
    }
    true
}

/// Delete forward `count` times.
#[verifier::loop_isolation(false)]
fn repeat_delete_forward(b: &mut Buffer, cs: &mut CursorSet, count: usize)
    requires
        old(cs).bounded(rope_text(&old(b).text).len() as int),
        old(b).wf(),
        !old(b).read_only,
    ensures
        final(b).wf(),
        final(cs).bounded(rope_text(&final(b).text).len() as int),
        final(b).id == old(b).id,
        final(b).read_only == old(b).read_only,
        rope_text(&final(b).text) == iter_del_fwd_text(
            rope_text(&old(b).text),
            old(cs).all_seq(),
            count as nat,
        ),
        final(cs).all_seq() == iter_del_fwd_cursors(
            rope_text(&old(b).text),
            old(cs).all_seq(),
            count as nat,
        ),
{
    let mut k: usize = 0;
    while k < count
        invariant
            k <= count,
            cs.bounded(rope_text(&b.text).len() as int),
            b.wf(),
            b.id == old(b).id,
            b.read_only == old(b).read_only,
            iter_del_fwd_text(rope_text(&b.text), cs.all_seq(), (count - k) as nat) == iter_del_fwd_text(
                rope_text(&old(b).text),
                old(cs).all_seq(),
                count as nat,
            ),
            iter_del_fwd_cursors(rope_text(&b.text), cs.all_seq(), (count - k) as nat) == iter_del_fwd_cursors(
                rope_text(&old(b).text),
                old(cs).all_seq(),
                count as nat,
            ),
        decreases count - k,
    {
        let _ = b.delete_char_forward(cs);
        k += 1;
    }
}

/// Delete backward `count` times.
#[verifier::loop_isolation(false)]
fn repeat_delete_backward(b: &mut Buffer, cs: &mut CursorSet, count: usize)
    requires
        old(cs).bounded(rope_text(&old(b).text).len() as int),
        old(b).wf(),
        !old(b).read_only,
    ensures
        final(b).wf(),
        final(cs).bounded(rope_text(&final(b).text).len() as int),
        final(b).id == old(b).id,
        final(b).read_only == old(b).read_only,
        rope_text(&final(b).text) == iter_del_bwd_text(
            rope_text(&old(b).text),
            old(cs).all_seq(),
            count as nat,
        ),
        final(cs).all_seq() == iter_del_bwd_cursors(
            rope_text(&old(b).text),
            old(cs).all_seq(),
            count as nat,
        ),
{
    let mut k: usize = 0;
    while k < count
        invariant
            k <= count,
            cs.bounded(rope_text(&b.text).len() as int),
            b.wf(),
            b.id == old(b).id,
            b.read_only == old(b).read_only,
            iter_del_bwd_text(rope_text(&b.text), cs.all_seq(), (count - k) as nat) == iter_del_bwd_text(
                rope_text(&old(b).text),
                old(cs).all_seq(),
                count as nat,
            ),
            iter_del_bwd_cursors(rope_text(&b.text), cs.all_seq(), (count - k) as nat) == iter_del_bwd_cursors(
                rope_text(&old(b).text),
                old(cs).all_seq(),
                count as nat,
            ),
        decreases count - k,
    {
        let _ = b.delete_char_backward(cs);
        k += 1;
    }
}

/// Insert `c` `count` times at every cursor.
#[verifier::loop_isolation(false)]
fn repeat_insert_char(b: &mut Buffer, cs: &mut CursorSet, c: char, count: usize)
    requires
        old(cs).bounded(rope_text(&old(b).text).len() as int),
        old(b).wf(),
        !old(b).read_only,
    ensures
        final(b).wf(),
        final(cs).bounded(rope_text(&final(b).text).len() as int),
        final(b).id == old(b).id,
        final(b).read_only == old(b).read_only,
        rope_text(&final(b).text) == iter_ins_text(
            rope_text(&old(b).text),
            old(cs).all_seq(),
            seq![c],
            count as nat,
        ),
        final(cs).all_seq() == iter_ins_cursors(
            rope_text(&old(b).text),
            old(cs).all_seq(),
            seq![c],
            count as nat,
        ),
{
    let mut k: usize = 0;
    while k < count
        invariant
            k <= count,
            cs.bounded(rope_text(&b.text).len() as int),
            b.wf(),
            b.id == old(b).id,
            b.read_only == old(b).read_only,
            iter_ins_text(rope_text(&b.text), cs.all_seq(), seq![c], (count - k) as nat)
                == iter_ins_text(
                rope_text(&old(b).text),
                old(cs).all_seq(),
                seq![c],
                count as nat,
            ),
            iter_ins_cursors(rope_text(&b.text), cs.all_seq(), seq![c], (count - k) as nat)
                == iter_ins_cursors(
                rope_text(&old(b).text),
                old(cs).all_seq(),
                seq![c],
                count as nat,
            ),
        decreases count - k,
    {
        b.insert_char(cs, c);
        k += 1;
    }
}

/// Insert the printable character `c` at every cursor of the current window.
pub fn self_insert(state: &mut EditorState, c: char) -> (r: CommandResult)
    requires
        old(state).wf(),
    ensures
        final(state).wf(),
        r is Err <==> old(state).target_read_only(),
        old(state).target_read_only() ==> *final(state) == *old(state),
        old(state).current_target() is None ==> *final(state) == *old(state),
        old(state).current_target() is Some && !old(state).target_read_only() ==> ({
            let i = old(state).current_target().unwrap();
            let t0 = old(state).target_text();
            let cs0 = old(state).target_cursors();
            &&& rope_text(&final(state).buffers.buffers@[i].text) == ins_round_text(
                t0,
                cs0,
                seq![c],
            )
            &&& final(state).window_cursors() == ins_round_cursors(t0, cs0, seq![c])
        }),
{
    match state.edit_target() {
        Some((i, mut cs)) => {
            if state.buffers.buffers[i].read_only {
                return Err(CommandError::ReadOnly);
            }
            let ghost t0 = rope_text(&state.buffers.buffers@[i as int].text);
            let ghost cs0 = cs.all_seq();
            proof {
                assert(t0 == old(state).target_text());
                assert(cs0 == old(state).target_cursors());
            }
            let ghost pre = state.buffers.buffers@;
            let b = &mut state.buffers.buffers[i];
            b.insert_char(&mut cs, c);
            proof {
                lemma_buffers_wf_update(
                    pre,
                    i as int,
                    state.buffers.buffers@[i as int],
                    state.buffers.next_id,
                );
            }
            let ghost final_cs = cs.all_seq();
            state.put_cursors(cs);
            proof {
                assert(state.window_cursors() == final_cs);
            }
            Ok(())
        },
        None => Ok(()),
    }
}

/// The relation `delete-char` establishes between the editor before and after.
pub open spec fn delete_char_post(
    pre: EditorState,
    post: EditorState,
    ctx: CommandContext,
    r: CommandResult,
) -> bool {
    &&& (post.wf())
    &&& (r is Err <==> pre.target_read_only())
    &&& (pre.target_read_only() ==> post == pre)
    &&& (pre.current_target() is None ==> post == pre)
    &&& (pre.current_target() is Some && !pre.target_read_only() ==> ({
            let i = pre.current_target().unwrap();
            let t0 = pre.target_text();
            let cs0 = pre.target_cursors();
            &&& (crate::kill_yank::region_ops(cs0).len() > 0 ==> rope_text(
                &post.buffers.buffers@[i].text,
            ) == crate::buffer::del_regions_text(
                t0,
                crate::buffer::sort_desc_regions(
                    crate::buffer::keep_regions(crate::kill_yank::region_ops(cs0)),
                ),
            ))
            &&& (crate::kill_yank::region_ops(cs0).len() == 0 ==> ({
                &&& rope_text(&post.buffers.buffers@[i].text) == iter_del_fwd_text(
                    t0,
                    cs0,
                    crate::registry::prefix_repeat(ctx.prefix_arg) as nat,
                )
                &&& post.window_cursors() == iter_del_fwd_cursors(
                    t0,
                    cs0,
                    crate::registry::prefix_repeat(ctx.prefix_arg) as nat,
                )
            }))
        }))
}

/// Delete the live regions, or the char after each cursor, `count` times.
pub fn delete_char(state: &mut EditorState, ctx: &CommandContext) -> (r: CommandResult)
    requires
        old(state).wf(),
    ensures
        delete_char_post(*old(state), *final(state), *ctx, r),
{
    let count = ctx.repeat_count();
    match state.edit_target() {
        Some((i, mut cs)) => {
            if state.buffers.buffers[i].read_only {
                return Err(CommandError::ReadOnly);
            }
            let ghost t0 = rope_text(&state.buffers.buffers@[i as int].text);
            let ghost cs0 = cs.all_seq();
            proof {
                assert(t0 == old(state).target_text());
                assert(cs0 == old(state).target_cursors());
            }
            let ghost pre = state.buffers.buffers@;
            let b = &mut state.buffers.buffers[i];
            if !delete_region_if_active(b, &mut cs) {
                repeat_delete_forward(b, &mut cs, count);
            }
            proof {
                lemma_buffers_wf_update(
                    pre,
                    i as int,
                    state.buffers.buffers@[i as int],
                    state.buffers.next_id,
                );
            }
            let ghost final_cs = cs.all_seq();
            state.put_cursors(cs);
            proof {
                assert(state.window_cursors() == final_cs);
            }
            Ok(())
        },
        None => Ok(()),
    }
}

/// The relation `delete-backward-char` establishes between the editor before and after.
pub open spec fn delete_backward_char_post(
    pre: EditorState,
    post: EditorState,
    ctx: CommandContext,
    r: CommandResult,
) -> bool {
    &&& (post.wf())
    &&& (r is Err <==> pre.target_read_only())
    &&& (pre.target_read_only() ==> post == pre)
    &&& (pre.current_target() is None ==> post == pre)
    &&& (pre.current_target() is Some && !pre.target_read_only() ==> ({
            let i = pre.current_target().unwrap();
            let t0 = pre.target_text();
            let cs0 = pre.target_cursors();
            &&& (crate::kill_yank::region_ops(cs0).len() > 0 ==> rope_text(
                &post.buffers.buffers@[i].text,
            ) == crate::buffer::del_regions_text(
                t0,
                crate::buffer::sort_desc_regions(
                    crate::buffer::keep_regions(crate::kill_yank::region_ops(cs0)),
                ),
            ))
            &&& (crate::kill_yank::region_ops(cs0).len() == 0 ==> ({
                &&& rope_text(&post.buffers.buffers@[i].text) == iter_del_bwd_text(
                    t0,
                    cs0,
                    crate::registry::prefix_repeat(ctx.prefix_arg) as nat,
                )
                &&& post.window_cursors() == iter_del_bwd_cursors(
                    t0,
                    cs0,
                    crate::registry::prefix_repeat(ctx.prefix_arg) as nat,
                )
            }))
        }))
}

/// Delete the live regions, or the char before each cursor, `count` times.
pub fn delete_backward_char(state: &mut EditorState, ctx: &CommandContext) -> (r: CommandResult)
    requires
        old(state).wf(),
    ensures
        delete_backward_char_post(*old(state), *final(state), *ctx, r),
{
    let count = ctx.repeat_count();
    match state.edit_target() {
        Some((i, mut cs)) => {
            if state.buffers.buffers[i].read_only {
                return Err(CommandError::ReadOnly);
            }
            let ghost t0 = rope_text(&state.buffers.buffers@[i as int].text);
            let ghost cs0 = cs.all_seq();
            proof {
                assert(t0 == old(state).target_text());
                assert(cs0 == old(state).target_cursors());
            }
            let ghost pre = state.buffers.buffers@;
            let b = &mut state.buffers.buffers[i];
            if !delete_region_if_active(b, &mut cs) {
                repeat_delete_backward(b, &mut cs, count);
            }
            proof {
                lemma_buffers_wf_update(
                    pre,
                    i as int,
                    state.buffers.buffers@[i as int],
                    state.buffers.next_id,
                );
            }
            let ghost final_cs = cs.all_seq();
            state.put_cursors(cs);
            proof {
                assert(state.window_cursors() == final_cs);
            }
            Ok(())
        },
        None => Ok(()),
    }
}

/// The relation `newline` establishes between the editor before and after.
pub open spec fn newline_post(
    pre: EditorState,
    post: EditorState,
    ctx: CommandContext,
    r: CommandResult,
) -> bool {
    &&& (post.wf())
    &&& (r is Err <==> pre.target_read_only())
    &&& (pre.target_read_only() ==> post == pre)
    &&& (pre.current_target() is None ==> post == pre)
    &&& (pre.current_target() is Some && !pre.target_read_only() ==> ({
            let i = pre.current_target().unwrap();
            let t0 = pre.target_text();
            let cs0 = pre.target_cursors();
            &&& rope_text(&post.buffers.buffers@[i].text) == iter_ins_text(
                t0,
                cs0,
                seq!['\n'],
                crate::registry::prefix_repeat(ctx.prefix_arg) as nat,
            )
            &&& post.window_cursors() == iter_ins_cursors(
                t0,
                cs0,
                seq!['\n'],
                crate::registry::prefix_repeat(ctx.prefix_arg) as nat,
            )
        }))
}

/// Insert a newline at every cursor, `count` times.
pub fn newline(state: &mut EditorState, ctx: &CommandContext) -> (r: CommandResult)
    requires
        old(state).wf(),
    ensures
        newline_post(*old(state), *final(state), *ctx, r),
{
    let count = ctx.repeat_count();
    match state.edit_target() {
        Some((i, mut cs)) => {
            if state.buffers.buffers[i].read_only {
                return Err(CommandError::ReadOnly);
            }
            let ghost t0 = rope_text(&state.buffers.buffers@[i as int].text);
            let ghost cs0 = cs.all_seq();
            proof {
                assert(t0 == old(state).target_text());
                assert(cs0 == old(state).target_cursors());
            }
            let ghost pre = state.buffers.buffers@;
            let b = &mut state.buffers.buffers[i];
            repeat_insert_char(b, &mut cs, '\n', count);
            proof {
                lemma_buffers_wf_update(
                    pre,
                    i as int,
                    state.buffers.buffers@[i as int],
                    state.buffers.next_id,
                );
            }
            let ghost final_cs = cs.all_seq();
            state.put_cursors(cs);
            proof {
                assert(state.window_cursors() == final_cs);
            }
            Ok(())
        },
        None => Ok(()),
    }
}

/// The relation `open-line` establishes between the editor before and after.
pub open spec fn open_line_post(
    pre: EditorState,
    post: EditorState,
    ctx: CommandContext,
    r: CommandResult,
) -> bool {
    &&& (post.wf())
    &&& (r is Err <==> pre.target_read_only())
    &&& (pre.target_read_only() ==> post == pre)
    &&& (pre.current_target() is None ==> post == pre)
    &&& (pre.current_target() is Some && !pre.target_read_only() ==> ({
            let i = pre.current_target().unwrap();
            let t0 = pre.target_text();
            let cs0 = pre.target_cursors();
            let back: int = if cs0[0].position.0 <= rope_text(&post.buffers.buffers@[i].text).len() {
                cs0[0].position.0 as int
            } else {
                rope_text(&post.buffers.buffers@[i].text).len() as int
            };
            &&& rope_text(&post.buffers.buffers@[i].text) == iter_ins_text(
                t0,
                cs0,
                seq!['\n'],
                crate::registry::prefix_repeat(ctx.prefix_arg) as nat,
            )
            &&& (forall|w: int|
                0 <= w < post.window_cursors().len() ==> (#[trigger] post.window_cursors()[w]).position.0 == back)
        }))
}

/// Insert a newline after the point without moving it.
#[verifier::loop_isolation(false)]
pub fn open_line(state: &mut EditorState, ctx: &CommandContext) -> (r: CommandResult)
    requires
        old(state).wf(),
    ensures
        open_line_post(*old(state), *final(state), *ctx, r),
{
    let count = ctx.repeat_count();
    match state.edit_target() {
        Some((i, mut cs)) => {
            if state.buffers.buffers[i].read_only {
                return Err(CommandError::ReadOnly);
            }
            let ghost t0 = rope_text(&state.buffers.buffers@[i as int].text);
            let ghost cs0 = cs.all_seq();
            proof {
                assert(t0 == old(state).target_text());
                assert(cs0 == old(state).target_cursors());
                assert(cs0[0] == cs.primary);
            }
            let original_pos = cs.primary.position;
            let ghost pre = state.buffers.buffers@;
            let b = &mut state.buffers.buffers[i];
            repeat_insert_char(b, &mut cs, '\n', count);
            let blen = rope_len_chars(&b.text);
            let back = if original_pos.0 <= blen {
                original_pos
            } else {
                CharOffset(blen)
            };
            cs.primary.position = back;
            let mut j: usize = 0;
            while j < cs.secondary.len()
                invariant
                    j <= cs.secondary@.len(),
                    cs.primary.position == back,
                    forall|w: int| 0 <= w < j ==> (#[trigger] cs.secondary@[w]).position == back,
                decreases cs.secondary@.len() - j,
            {
                cs.secondary[j].position = back;
                j += 1;
            }
            proof {
                lemma_buffers_wf_update(
                    pre,
                    i as int,
                    state.buffers.buffers@[i as int],
                    state.buffers.next_id,
                );
                assert forall|w: int| 0 <= w < cs.all_seq().len() implies (
                #[trigger] cs.all_seq()[w]).position == back by {
                    if w > 0 {
                        assert(cs.all_seq()[w] == cs.secondary@[w - 1]);
                    }
                }
            }
            let ghost final_cs = cs.all_seq();
            state.put_cursors(cs);
            proof {
                assert(state.window_cursors() == final_cs);
            }
            Ok(())
        },
        None => Ok(()),
    }
}

/// The relation `transpose-chars` establishes between the editor before and after.
pub open spec fn transpose_chars_post(
    pre: EditorState,
    post: EditorState,
    ctx: CommandContext,
    r: CommandResult,
) -> bool {
    &&& (post.wf())
    &&& (r is Err <==> pre.target_read_only())
    &&& (pre.target_read_only() ==> post == pre)
    &&& (pre.current_target() is None ==> post == pre)
    &&& (pre.current_target() is Some && !pre.target_read_only() ==> ({
            let i = pre.current_target().unwrap();
            let t0 = pre.target_text();
            let cs0 = pre.target_cursors();
            let p = cs0[0].position.0 as int;
            let first: int = if p == 0 {
                0
            } else if p >= t0.len() {
                t0.len() - 2
            } else {
                p - 1
            };
            &&& (t0.len() < 2 ==> rope_text(&post.buffers.buffers@[i].text) == t0)
            &&& (t0.len() >= 2 ==> rope_text(&post.buffers.buffers@[i].text) == t0.update(
                first,
                t0[first + 1],
            ).update(first + 1, t0[first]))
        }))
}

/// Swap the two chars around the point and land after them.
#[verifier::loop_isolation(false)]
pub fn transpose_chars(state: &mut EditorState, ctx: &CommandContext) -> (r: CommandResult)
    requires
        old(state).wf(),
    ensures
        transpose_chars_post(*old(state), *final(state), *ctx, r),
{
    match state.edit_target() {
        Some((i, mut cs)) => {
            if state.buffers.buffers[i].read_only {
                return Err(CommandError::ReadOnly);
            }
            let ghost t0 = rope_text(&state.buffers.buffers@[i as int].text);
            let ghost cs0 = cs.all_seq();
            proof {
                assert(t0 == old(state).target_text());
                assert(cs0 == old(state).target_cursors());
                assert(cs0[0] == cs.primary);
            }
            let pos = cs.primary.position.0;
            let ghost pre = state.buffers.buffers@;
            let b = &mut state.buffers.buffers[i];
            let len = rope_len_chars(&b.text);
            if len < 2 {
                return Ok(());
            }
            let first: usize;
            let second: usize;
            if pos == 0 {
                first = 0;
                second = 1;
            } else if pos >= len {
                first = len - 2;
                second = len - 1;
            } else {
                first = pos - 1;
                second = pos;
            }
            let c1 = rope_char(&b.text, first);
            let c2 = rope_char(&b.text, second);
            crate::rope::rope_remove(&mut b.text, first, second + 1);
            let swapped = crate::chars::char_to_string(c2).concat(
                crate::chars::char_to_string(c1).as_str(),
            );
            crate::rope::rope_insert(&mut b.text, first, swapped.as_str());
            proof {
                assert(rope_text(&b.text) =~= t0.update(first as int, t0[first + 1]).update(
                    first + 1,
                    t0[first as int],
                ));
            }
            b.modified = true;
            let new_len = rope_len_chars(&b.text);
            let landing = if second + 1 <= new_len {
                second + 1
            } else {
                new_len
            };
            cs.primary.position = CharOffset(landing);
            proof {
                lemma_buffers_wf_update(
                    pre,
                    i as int,
                    state.buffers.buffers@[i as int],
                    state.buffers.next_id,
                );
            }
            state.put_cursors(cs);
            Ok(())
        },
        None => Ok(()),
    }
}

/// The relation `set-mark-command` establishes between the editor before and after.
pub open spec fn set_mark_command_post(
    pre: EditorState,
    post: EditorState,
    ctx: CommandContext,
    r: CommandResult,
) -> bool {
    &&& (post.wf())
    &&& (post.message matches Some(m) && m@ == "Mark set"@)
    &&& (pre.current_target() is Some ==> ({
            let cs0 = pre.target_cursors();
            &&& post.window_cursors().len() == cs0.len()
            &&& (forall|w: int|
                0 <= w < cs0.len() ==> #[trigger] post.window_cursors()[w] == (Cursor {
                    mark: Some(cs0[w].position),
                    mark_active: true,
                    ..cs0[w]
                }))
        }))
}

/// Drop a mark at every cursor and remember the primary's position in the
/// buffer's mark ring.
pub fn set_mark_command(state: &mut EditorState, ctx: &CommandContext) -> (r: CommandResult)
    requires
        old(state).wf(),
    ensures
        set_mark_command_post(*old(state), *final(state), *ctx, r),
{
    match state.edit_target() {
        Some((i, mut cs)) => {
            let ghost cs0 = cs.all_seq();
            proof {
                assert(cs0 == old(state).target_cursors());
                assert(cs0[0] == cs.primary);
            }
            let p0 = cs.primary.position;
            cs.primary.set_mark(p0);
            let mut j: usize = 0;
            #[verifier::loop_isolation(false)]
            while j < cs.secondary.len()
                invariant
                    j <= cs.secondary@.len(),
                    cs.secondary@.len() == cs0.len() - 1,
                    cs.primary == (Cursor { mark: Some(cs0[0].position), mark_active: true, ..cs0[0] }),
                    forall|w: int|
                        0 <= w < j ==> #[trigger] cs.secondary@[w] == (Cursor {
                            mark: Some(cs0[w + 1].position),
                            mark_active: true,
                            ..cs0[w + 1]
                        }),
                    forall|w: int| j <= w < cs.secondary@.len() ==> #[trigger] cs.secondary@[w] == cs0[w + 1],
                decreases cs.secondary@.len() - j,
            {
                let pj = cs.secondary[j].position;
                cs.secondary[j].set_mark(pj);
                j += 1;
            }
            proof {
                assert forall|w: int| 0 <= w < cs.all_seq().len() implies #[trigger] cs.all_seq()[w]
                    == (Cursor { mark: Some(cs0[w].position), mark_active: true, ..cs0[w] }) by {
                    if w > 0 {
                        assert(cs.all_seq()[w] == cs.secondary@[w - 1]);
                    }
                }
            }
            let ghost pre = state.buffers.buffers@;
            let b = &mut state.buffers.buffers[i];
            b.mark_ring.push(Mark::new(p0));
            proof {
                lemma_buffers_wf_update(
                    pre,
                    i as int,
                    state.buffers.buffers@[i as int],
                    state.buffers.next_id,
                );
            }
            let ghost final_cs = cs.all_seq();
            state.put_cursors(cs);
            proof {
                assert(state.window_cursors() == final_cs);
            }
        },
        None => {},
    }
    state.message = Some("Mark set".to_owned());
    Ok(())
}

/// The relation `exchange-point-and-mark` establishes between the editor before and after.
pub open spec fn exchange_point_and_mark_post(
    pre: EditorState,
    post: EditorState,
    ctx: CommandContext,
    r: CommandResult,
) -> bool {
    &&& (post.wf())
    &&& (r is Ok)
    &&& (pre.current_target() is None ==> post == pre)
    &&& (pre.current_target() is Some ==> post.window_cursors() == Seq::new(
            pre.target_cursors().len(),
            |w: int| exchange_m(pre.target_cursors()[w]),
        ))
}

/// Swap every cursor's point with its mark.
#[verifier::loop_isolation(false)]
pub fn exchange_point_and_mark(state: &mut EditorState, ctx: &CommandContext) -> (r: CommandResult)
    requires
        old(state).wf(),
    ensures
        exchange_point_and_mark_post(*old(state), *final(state), *ctx, r),
{
    match state.edit_target() {
        Some((_, mut cs)) => {
            let ghost cs0 = cs.all_seq();
            proof {
                assert(cs0 == old(state).target_cursors());
            }
            cs.primary.exchange_point_and_mark();
            proof {
                assert(cs.primary == exchange_m(cs0[0]));
            }
            let ghost pre_sec = cs.secondary@;
            let mut j: usize = 0;
            while j < cs.secondary.len()
                invariant
                    j <= pre_sec.len(),
                    cs.secondary@.len() == pre_sec.len(),
                    cs.primary == exchange_m(cs0[0]),
                    forall|w: int|
                        0 <= w < j ==> #[trigger] cs.secondary@[w] == exchange_m(pre_sec[w]),
                    forall|w: int| j <= w < pre_sec.len() ==> #[trigger] cs.secondary@[w]
                        == pre_sec[w],
                decreases pre_sec.len() - j,
            {
                let mut cj = cs.secondary[j];
                cj.exchange_point_and_mark();
                cs.secondary[j] = cj;
                j += 1;
            }
            let ghost final_cs = cs.all_seq();
            proof {
                assert forall|w: int| 0 <= w < cs0.len() implies final_cs[w] == exchange_m(
                    cs0[w],
                ) by {
                    if w > 0 {
                        assert(final_cs[w] == cs.secondary@[w - 1]);
                        assert(cs0[w] == pre_sec[w - 1]);
                    }
                }
                assert(final_cs =~= Seq::new(cs0.len(), |w: int| exchange_m(cs0[w])));
            }
            state.put_cursors(cs);
            proof {
                assert(state.window_cursors() == final_cs);
            }
            Ok(())
        },
        None => Ok(()),
    }
}

/// Point and mark swapped where a mark exists; otherwise the cursor as it is.
pub open spec fn exchange_m(c: Cursor) -> Cursor {
    match c.mark {
        Some(m) => Cursor { position: m, mark: Some(c.position), ..c },
        None => c,
    }
}

/// The relation `mark-whole-buffer` establishes between the editor before and after.
pub open spec fn mark_whole_buffer_post(
    pre: EditorState,
    post: EditorState,
    ctx: CommandContext,
    r: CommandResult,
) -> bool {
    &&& (post.wf())
    &&& (pre.current_target() is Some ==> ({
            let t0 = pre.target_text();
            &&& post.window_cursors()[0].position.0 == t0.len()
            &&& post.window_cursors()[0].mark == Some(CharOffset(0))
            &&& post.window_cursors()[0].mark_active
        }))
}

/// Put the point at the end of the buffer with a mark at the start.
pub fn mark_whole_buffer(state: &mut EditorState, ctx: &CommandContext) -> (r: CommandResult)
    requires
        old(state).wf(),
    ensures
        mark_whole_buffer_post(*old(state), *final(state), *ctx, r),
{
    match state.edit_target() {
        Some((i, mut cs)) => {
            let p0 = cs.primary.position;
            let ghost pre = state.buffers.buffers@;
            let b = &mut state.buffers.buffers[i];
            b.mark_ring.push(Mark::new(p0));
            let len = rope_len_chars(&b.text);
            proof {
                lemma_buffers_wf_update(
                    pre,
                    i as int,
                    state.buffers.buffers@[i as int],
                    state.buffers.next_id,
                );
            }
            cs.primary.position = CharOffset(len);
            cs.primary.set_mark(CharOffset(0));
            let ghost final_cs = cs.all_seq();
            state.put_cursors(cs);
            proof {
                assert(state.window_cursors() == final_cs);
                assert(final_cs[0] == cs.primary);
            }
            Ok(())
        },
        None => Ok(()),
    }
}

/// The relation `undo-command` establishes between the editor before and after.
pub open spec fn undo_command_post(
    pre: EditorState,
    post: EditorState,
    ctx: CommandContext,
    r: CommandResult,
) -> bool {
    &&& (post.wf())
    &&& (pre.current_target() is Some ==> ({
            let i = pre.current_target().unwrap();
            let t0 = pre.target_text();
            let f = crate::undo::flush_m(pre.buffers.buffers@[i].undo_tree.model());
            let idx = crate::undo::effective_index(f);
            &&& (idx > 0 ==> rope_text(&post.buffers.buffers@[i].text)
                == crate::buffer::apply_undo_text(
                t0,
                crate::undo::to_undo_edits(crate::undo::edits_inverse_m(f.entries[idx - 1].edits)),
            ) && (post.message matches Some(m) && m@ == "Undo!"@))
            &&& (idx <= 0 ==> rope_text(&post.buffers.buffers@[i].text) == t0 && (post.message matches Some(m) && m@ == "No further undo information"@))
        }))
}

/// Undo one step on the current buffer.
pub fn undo_command(state: &mut EditorState, ctx: &CommandContext) -> (r: CommandResult)
    requires
        old(state).wf(),
    ensures
        undo_command_post(*old(state), *final(state), *ctx, r),
{
    match state.edit_target() {
        Some((i, mut cs)) => {
            let ghost t0 = rope_text(&state.buffers.buffers@[i as int].text);
            proof {
                assert(t0 == old(state).target_text());
            }
            let ghost pre = state.buffers.buffers@;
            let b = &mut state.buffers.buffers[i];
            let did = b.undo(&mut cs);
            proof {
                lemma_buffers_wf_update(
                    pre,
                    i as int,
                    state.buffers.buffers@[i as int],
                    state.buffers.next_id,
                );
            }
            state.put_cursors(cs);
            if did {
                state.message = Some("Undo!".to_owned());
            } else {
                state.message = Some("No further undo information".to_owned());
            }
            Ok(())
        },
        None => Ok(()),
    }
}

/// The relation `redo-command` establishes between the editor before and after.
pub open spec fn redo_command_post(
    pre: EditorState,
    post: EditorState,
    ctx: CommandContext,
    r: CommandResult,
) -> bool {
    &&& (post.wf())
    &&& (pre.current_target() is Some ==> ({
            let i = pre.current_target().unwrap();
            let t0 = pre.target_text();
            let cleared = crate::undo::TreeM {
                undo_index: None,
                ..pre.buffers.buffers@[i].undo_tree.model()
            };
            let f = crate::undo::flush_m(cleared);
            let idx = crate::undo::effective_index(f);
            &&& (idx > 0 ==> rope_text(&post.buffers.buffers@[i].text)
                == crate::buffer::apply_undo_text(
                t0,
                crate::undo::to_undo_edits(crate::undo::edits_inverse_m(f.entries[idx - 1].edits)),
            ) && (post.message matches Some(m) && m@ == "Redo!"@))
            &&& (idx <= 0 ==> rope_text(&post.buffers.buffers@[i].text) == t0 && (post.message matches Some(m) && m@ == "No further redo information"@))
        }))
}

/// Redo one step on the current buffer.
pub fn redo_command(state: &mut EditorState, ctx: &CommandContext) -> (r: CommandResult)
    requires
        old(state).wf(),
    ensures
        redo_command_post(*old(state), *final(state), *ctx, r),
{
    match state.edit_target() {
        Some((i, mut cs)) => {
            let ghost t0 = rope_text(&state.buffers.buffers@[i as int].text);
            proof {
                assert(t0 == old(state).target_text());
            }
            let ghost pre = state.buffers.buffers@;
            let b = &mut state.buffers.buffers[i];
            let did = b.redo(&mut cs);
            proof {
                lemma_buffers_wf_update(
                    pre,
                    i as int,
                    state.buffers.buffers@[i as int],
                    state.buffers.next_id,
                );
            }
            state.put_cursors(cs);
            if did {
                state.message = Some("Redo!".to_owned());
            } else {
                state.message = Some("No further redo information".to_owned());
            }
            Ok(())
        },
        None => Ok(()),
    }
}

/// The relation `keyboard-quit` establishes between the editor before and after.
pub open spec fn keyboard_quit_post(
    pre: EditorState,
    post: EditorState,
    ctx: CommandContext,
    r: CommandResult,
) -> bool {
    &&& (post.wf())
    &&& (post.message matches Some(m) && m@ == "Quit"@)
    &&& (post.minibuffer.state == crate::minibuffer::MinibufferState::Inactive)
    &&& (pre.current_target() is Some ==> post.window_cursors().len() == 1 && !post.window_cursors()[0].mark_active)
}

/// Deactivate marks, drop secondary cursors, and close the minibuffer.
pub fn keyboard_quit(state: &mut EditorState, ctx: &CommandContext) -> (r: CommandResult)
    requires
        old(state).wf(),
    ensures
        keyboard_quit_post(*old(state), *final(state), *ctx, r),
{
    match state.edit_target() {
        Some((_, mut cs)) => {
            cs.deactivate_all_marks();
            proof {
                assert(cs.all_seq()[0] == cs.primary);
                assert(!cs.primary.mark_active);
            }
            cs.remove_secondary_cursors();
            let ghost final_cs = cs.all_seq();
            proof {
                assert(final_cs.len() == 1);
                assert(final_cs[0] == cs.primary);
            }
            state.put_cursors(cs);
            proof {
                assert(state.window_cursors() == final_cs);
            }
        },
        None => {},
    }
    state.minibuffer.clear();
    state.message = Some("Quit".to_owned());
    Ok(())
}

/// Whether the word `w` occurs in the text at char position `p`.
pub open spec fn occurs_at(t: Seq<char>, w: Seq<char>, p: int) -> bool {
    0 <= p && p + w.len() <= t.len() && t.subrange(p, p + w.len()) == w
}

/// Whether the chars of `w` match the rope at position `p`.
#[verifier::loop_isolation(false)]
fn word_matches_at(b: &Buffer, w: &Vec<char>, p: usize) -> (r: bool)
    requires
        p + w@.len() <= rope_text(&b.text).len(),
    ensures
        r == occurs_at(rope_text(&b.text), w@, p as int),
{
    let rlen = rope_len_chars(&b.text);
    let n = w.len();
    let mut j: usize = 0;
    while j < n
        invariant
            j <= n,
            rlen == rope_text(&b.text).len(),
            forall|q: int| 0 <= q < j ==> rope_text(&b.text)[p + q] == w@[q],
        decreases n - j,
    {
        if rope_char(&b.text, p + j) != w[j] {
            proof {
                assert(rope_text(&b.text).subrange(p as int, p + w@.len())[j as int] != w@[j as int]);
            }
            return false;
        }
        j += 1;
    }
    proof {
        assert(rope_text(&b.text).subrange(p as int, p + w@.len()) =~= w@);
    }
    true
}

/// The relation `spawn-cursors-at-word-matches` establishes between the editor before and after.
pub open spec fn spawn_cursors_at_word_matches_post(
    pre: EditorState,
    post: EditorState,
    ctx: CommandContext,
    r: CommandResult,
) -> bool {
    &&& (post.wf())
}

/// Add a cursor at every other occurrence of the word at the primary cursor
/// (or of the live region's text), holding the same offset into the word.
#[verifier::loop_isolation(false)]
pub fn spawn_cursors_at_word_matches(state: &mut EditorState, ctx: &CommandContext) -> (r: CommandResult)
    requires
        old(state).wf(),
    ensures
        spawn_cursors_at_word_matches_post(*old(state), *final(state), *ctx, r),
{
    match state.edit_target() {
        Some((i, mut cs)) => {
            if cs.secondary.len() > 0 {
                state.put_cursors(cs);
                return Ok(());
            }
            let primary = cs.primary;
            let b = &state.buffers.buffers[i];
            let word_start: CharOffset;
            let word_end: CharOffset;
            match primary.region() {
                Some((s, e)) => {
                    word_start = s;
                    word_end = e;
                },
                None => {
                    word_start = find_word_boundary_backward(&b.text, primary.position);
                    word_end = find_word_boundary_forward(&b.text, primary.position);
                },
            }
            let len = rope_len_chars(&b.text);
            if word_start.0 >= word_end.0 || word_end.0 > len {
                state.put_cursors(cs);
                return Ok(());
            }
            let wlen = word_end.0 - word_start.0;
            let mut word: Vec<char> = Vec::new();
            let mut k: usize = word_start.0;
            while k < word_end.0
                invariant
                    word_start.0 <= k <= word_end.0,
                    word@.len() == k - word_start.0,
                decreases word_end.0 - k,
            {
                word.push(rope_char(&b.text, k));
                k += 1;
            }
            let cursor_offset = if primary.position.0 >= word_start.0 {
                primary.position.0 - word_start.0
            } else {
                0
            };
            let mut p: usize = 0;
            let mut found: Vec<CharOffset> = Vec::new();
            while p <= len - wlen
                invariant
                    word@.len() == wlen,
                    1 <= wlen <= len,
                    len == rope_text(&state.buffers.buffers@[i as int].text).len(),
                decreases len - p,
            {
                if word_matches_at(&state.buffers.buffers[i], &word, p) {
                    if p != word_start.0 {
                        let off = if cursor_offset <= wlen {
                            cursor_offset
                        } else {
                            wlen
                        };
                        if p + off <= len {
                            found.push(CharOffset(p + off));
                        }
                    }
                }
                p += 1;
            }
            let mut q: usize = 0;
            while q < found.len()
                invariant
                    q <= found@.len(),
                decreases found@.len() - q,
            {
                cs.add_cursor(found[q]);
                q += 1;
            }
            state.put_cursors(cs);
            state.message = Some("Spawned additional cursors".to_owned());
            Ok(())
        },
        None => Ok(()),
    }
}

/// The relation `clear-multiple-cursors` establishes between the editor before and after.
pub open spec fn clear_multiple_cursors_post(
    pre: EditorState,
    post: EditorState,
    ctx: CommandContext,
    r: CommandResult,
) -> bool {
    &&& (post.wf())
    &&& (pre.current_target() is Some ==> post.window_cursors().len() == 1)
}

/// Drop every secondary cursor.
pub fn clear_multiple_cursors(state: &mut EditorState, ctx: &CommandContext) -> (r: CommandResult)
    requires
        old(state).wf(),
    ensures
        clear_multiple_cursors_post(*old(state), *final(state), *ctx, r),
{
    match state.edit_target() {
        Some((_, mut cs)) => {
            cs.remove_secondary_cursors();
            let ghost final_cs = cs.all_seq();
            state.put_cursors(cs);
            proof {
                assert(state.window_cursors() == final_cs);
            }
            state.message = Some("Cleared multiple cursors".to_owned());
        },
        None => {},
    }
    Ok(())
}

} // verus!
