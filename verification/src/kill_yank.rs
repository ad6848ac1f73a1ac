//! Kill and yank commands: killing pushes removed text onto the editor's
//! kill ring, yanking inserts from it, and yank-pop rotates through it.
use vstd::prelude::*;
use vstd::string::StrSliceExecFns;
use vstd::string::StringExecFns;

use crate::buffer_mgr::lemma_buffers_wf_update;
use crate::buffer_mgr::str_eq;
use crate::cursor::Cursor;
use crate::cursor::CursorId;
use crate::editor::EditorState;
use crate::position::CharOffset;
use crate::registry::CommandContext;
use crate::registry::CommandError;
use crate::registry::CommandResult;
use crate::rope::rope_len_chars;
use crate::rope_ext::char_to_position;
use crate::rope_ext::find_word_boundary_backward;
use crate::rope_ext::find_word_boundary_forward;
use crate::rope_ext::line_end_char;
use crate::rope_ext::total_lines;

verus! {

/// The endpoint of `n` forward word motions from `p`.
pub open spec fn iter_fwd_word(t: Seq<char>, p: int, n: nat) -> int
    decreases n,
{
    if n == 0 {
        p
    } else {
        iter_fwd_word(t, crate::rope_ext::fwd_word_boundary(t, p), (n - 1) as nat)
    }
}

/// The endpoint of `n` backward word motions from `p`.
pub open spec fn iter_bwd_word(t: Seq<char>, p: int, n: nat) -> int
    decreases n,
{
    if n == 0 {
        p
    } else {
        iter_bwd_word(t, crate::rope_ext::bwd_word_boundary(t, p), (n - 1) as nat)
    }
}

/// The region each cursor kills forward: from its point to the end of the
/// `count`-th word.
pub open spec fn kill_word_regions(t: Seq<char>, cs: Seq<Cursor>, count: nat) -> Seq<
    (CursorId, CharOffset, CharOffset),
> {
    cs.map_values(
        |c: Cursor|
            (c.id, c.position, CharOffset(iter_fwd_word(t, c.position.0 as int, count) as usize)),
    )
}

/// The region each cursor kills backward: from the start of the `count`-th
/// word before it to its point.
pub open spec fn bwd_kill_regions(t: Seq<char>, cs: Seq<Cursor>, count: nat) -> Seq<
    (CursorId, CharOffset, CharOffset),
> {
    cs.map_values(
        |c: Cursor|
            (c.id, CharOffset(iter_bwd_word(t, c.position.0 as int, count) as usize), c.position),
    )
}

/// The live region of each cursor that has one, low end first.
pub open spec fn region_ops(cs: Seq<Cursor>) -> Seq<(CursorId, CharOffset, CharOffset)>
    decreases cs.len(),
{
    if cs.len() == 0 {
        Seq::empty()
    } else {
        let rest = region_ops(cs.drop_first());
        match cs[0].spec_region() {
            Some(pair) => seq![(cs[0].id, pair.0, pair.1)] + rest,
            None => rest,
        }
    }
}

/// The span between each cursor's mark and point, for every cursor with a
/// mark, active or not.
pub open spec fn mark_span_ops(cs: Seq<Cursor>) -> Seq<(CursorId, CharOffset, CharOffset)>
    decreases cs.len(),
{
    if cs.len() == 0 {
        Seq::empty()
    } else {
        let rest = mark_span_ops(cs.drop_first());
        match cs[0].mark {
            Some(m) => if m.0 < cs[0].position.0 {
                seq![(cs[0].id, m, cs[0].position)] + rest
            } else {
                seq![(cs[0].id, cs[0].position, m)] + rest
            },
            None => rest,
        }
    }
}

/// Where a kill-line that started at the end of line `l` of `t` and has
/// swallowed `extra` further lines ends.
pub open spec fn extend_kill_end(t: Seq<char>, end: int, extra: nat) -> int
    decreases extra,
{
    if extra == 0 {
        end
    } else {
        let eci = if end <= t.len() {
            end
        } else {
            t.len() as int
        };
        let l = crate::rope::line_of(t, eci);
        if l < usize::MAX && l + 1 < crate::rope::line_count(t) {
            let e2 = crate::rope::line_end(t, l + 1);
            let next = if e2 < usize::MAX {
                e2 + 1
            } else {
                e2
            };
            extend_kill_end(t, next, (extra - 1) as nat)
        } else {
            extend_kill_end(t, end, (extra - 1) as nat)
        }
    }
}

/// The region each cursor's kill-line removes: the line tail, the newline
/// itself at the end of a line, extended over `count` lines; a cursor at the
/// end of the buffer kills nothing.
pub open spec fn kill_line_regions(t: Seq<char>, cs: Seq<Cursor>, count: nat) -> Seq<
    (CursorId, CharOffset, CharOffset),
>
    decreases cs.len(),
{
    if cs.len() == 0 {
        Seq::empty()
    } else {
        let rest = kill_line_regions(t, cs.drop_first(), count);
        let c = cs[0];
        let pos = c.position.0 as int;
        let pc = if pos <= t.len() {
            pos
        } else {
            t.len() as int
        };
        let eol = crate::rope::line_end(t, crate::rope::line_of(t, pc));
        if pos == eol {
            if pos < t.len() {
                seq![(c.id, c.position, CharOffset((pos + 1) as usize))] + rest
            } else {
                rest
            }
        } else {
            let extras: nat = if count >= 1 {
                (count - 1) as nat
            } else {
                0
            };
            seq![(c.id, c.position, CharOffset(extend_kill_end(t, eol, extras) as usize))] + rest
        }
    }
}

/// One insertion request per cursor, all carrying the same text.
pub open spec fn yank_texts(cs: Seq<Cursor>, text: Seq<char>) -> Seq<(CursorId, Seq<char>)> {
    cs.map_values(|c: Cursor| (c.id, text))
}

/// The text a single region op names in `t`.
pub open spec fn region_text_of(t: Seq<char>, op: (CursorId, CharOffset, CharOffset)) -> Seq<char> {
    let s0 = if op.1.0 <= t.len() {
        op.1.0 as int
    } else {
        t.len() as int
    };
    let e0 = if op.2.0 <= t.len() {
        op.2.0 as int
    } else {
        t.len() as int
    };
    if s0 < e0 {
        t.subrange(s0, e0)
    } else {
        Seq::empty()
    }
}

/// The texts the region ops name in `t`, in order.
pub open spec fn region_texts(t: Seq<char>, ops: Seq<(CursorId, CharOffset, CharOffset)>) -> Seq<
    Seq<char>,
> {
    ops.map_values(|op: (CursorId, CharOffset, CharOffset)| region_text_of(t, op))
}

/// The ring entries after saving each text as its own entry.
pub open spec fn copy_fold(entries: Seq<Seq<char>>, cap: int, texts: Seq<Seq<char>>) -> Seq<
    Seq<char>,
>
    decreases texts.len(),
{
    if texts.len() == 0 {
        entries
    } else {
        copy_fold(
            crate::kill_ring::push_entries_m(entries, cap, false, texts[0], false),
            cap,
            texts.drop_first(),
        )
    }
}

/// The removed texts of a region-deletion outcome, in deletion order.
pub open spec fn out_texts(s: Seq<(int, Seq<char>)>) -> Seq<Seq<char>> {
    s.map_values(|p: (int, Seq<char>)| p.1)
}

/// The texts of killed pairs, in order.
pub open spec fn killed_texts(v: Seq<(CursorId, String)>) -> Seq<Seq<char>> {
    v.map_values(|p: (CursorId, String)| p.1@)
}

/// Push each killed text onto the kill ring, appending (or for backward
/// kills, prepending) to the newest entry while a kill chain is running.
#[verifier::loop_isolation(false)]
fn push_killed(state: &mut EditorState, killed: Vec<(CursorId, String)>, prepend: bool)
    requires
        old(state).wf(),
    ensures
        final(state).wf(),
        final(state).buffers == old(state).buffers,
        final(state).windows == old(state).windows,
        final(state).kill_ring.entries_seq() == crate::kill_ring::killed_fold(
            old(state).kill_ring.entries_seq(),
            old(state).kill_ring.cap(),
            old(state).kill_ring.spec_last_was_kill(),
            killed_texts(killed@),
            prepend,
        ),
        final(state).kill_ring.spec_last_was_kill(),
        final(state).kill_ring.cap() == old(state).kill_ring.cap(),
        final(state).kill_ring.pointer() == if crate::kill_ring::any_nonempty(
            killed_texts(killed@),
        ) {
            0int
        } else {
            old(state).kill_ring.pointer()
        },
        final(state).message == old(state).message,
        final(state).minibuffer == old(state).minibuffer,
{
    let ghost km = killed_texts(killed@);
    let n = killed.len();
    let mut i: usize = 0;
    proof {
        assert(km.skip(0) =~= km);
    }
    while i < n
        invariant
            i <= n,
            n == km.len(),
            km == killed_texts(killed@),
            state.kill_ring.wf(),
            crate::kill_ring::killed_fold(
                state.kill_ring.entries_seq(),
                state.kill_ring.cap(),
                state.kill_ring.spec_last_was_kill(),
                km.skip(i as int),
                prepend,
            ) == crate::kill_ring::killed_fold(
                old(state).kill_ring.entries_seq(),
                old(state).kill_ring.cap(),
                old(state).kill_ring.spec_last_was_kill(),
                km,
                prepend,
            ),
            state.kill_ring.cap() == old(state).kill_ring.cap(),
            state.kill_ring.pointer() == if crate::kill_ring::any_nonempty(km.take(i as int)) {
                0int
            } else {
                old(state).kill_ring.pointer()
            },
            state.buffers == old(state).buffers,
            state.windows == old(state).windows,
            state.minibuffer == old(state).minibuffer,
            state.message == old(state).message,
            state.keymap == old(state).keymap,
        decreases n - i,
    {
        proof {
            assert(km.skip(i as int)[0] == km[i as int]);
            assert(km[i as int] == killed@[i as int].1@);
            assert(km.skip(i as int).drop_first() =~= km.skip(i as int + 1));
            assert(km.take(i as int + 1) =~= km.take(i as int).push(km[i as int]));
        }
        let text = killed[i].1.clone();
        if text.as_str().unicode_len() > 0 {
            if prepend {
                state.kill_ring.push_prepend(text);
            } else {
                let chained = state.kill_ring.last_was_kill();
                state.kill_ring.push(text, chained);
            }
            proof {
                assert(crate::kill_ring::any_nonempty(km.take(i as int + 1))) by {
                    assert(km.take(i as int + 1)[i as int].len() > 0);
                }
            }
        } else {
            proof {
                if crate::kill_ring::any_nonempty(km.take(i as int + 1)) {
                    let w = choose|w: int|
                        0 <= w < km.take(i as int + 1).len() && (#[trigger] km.take(
                            i as int + 1,
                        )[w]).len() > 0;
                    assert(w < i ==> km.take(i as int)[w].len() > 0);
                }
            }
        }
        i += 1;
    }
    proof {
        assert(km.skip(n as int) =~= Seq::<Seq<char>>::empty());
        assert(km.take(n as int) =~= km);
    }
    state.kill_ring.set_last_was_kill(true);
}

/// The relation `kill-line` establishes between the editor before and after.
pub open spec fn kill_line_post(
    pre: EditorState,
    post: EditorState,
    ctx: CommandContext,
    r: CommandResult,
) -> bool {
    &&& (post.wf())
    &&& (r is Err <==> pre.target_read_only())
    &&& (pre.target_read_only() ==> post == pre)
    &&& (pre.current_target() is None ==> post == pre)
    &&& (pre.current_target() is Some && !pre.target_read_only() ==> ({
            let i = pre.current_target().unwrap();
            let t0 = pre.target_text();
            let cs0 = pre.target_cursors();
            let ops = crate::buffer::sort_desc_regions(
                crate::buffer::keep_regions(
                    kill_line_regions(t0, cs0, crate::registry::prefix_repeat(ctx.prefix_arg) as nat),
                ),
            );
            &&& crate::rope::rope_text(&post.buffers.buffers@[i].text)
                == crate::buffer::del_regions_text(t0, ops)
            &&& post.window_cursors() == crate::cursor::sort_merge_m(
                crate::buffer::del_regs_cursors(cs0, t0, ops),
            )
            &&& post.kill_ring.entries_seq() == crate::kill_ring::killed_fold(
                pre.kill_ring.entries_seq(),
                pre.kill_ring.cap(),
                pre.kill_ring.spec_last_was_kill(),
                out_texts(crate::buffer::del_regions_out(t0, ops)),
                false,
            )
            &&& post.kill_ring.spec_last_was_kill()
        }))
}

/// Kill from each cursor to the end of its line; at the end of a line the
/// newline itself is killed. A prefix argument kills that many whole lines.
#[verifier::loop_isolation(false)]
pub fn kill_line(state: &mut EditorState, ctx: &CommandContext) -> (r: CommandResult)
    requires
        old(state).wf(),
    ensures
        kill_line_post(*old(state), *final(state), *ctx, r),
{
    let count = ctx.repeat_count();
    match state.edit_target() {
        Some((i, mut cs)) => {
            if state.buffers.buffers[i].read_only {
                return Err(CommandError::ReadOnly);
            }
            let ghost t0 = crate::rope::rope_text(&state.buffers.buffers@[i as int].text);
            let ghost cs0 = cs.all_seq();
            proof {
                assert(t0 == old(state).target_text());
                assert(cs0 == old(state).target_cursors());
            }
            let all = cs.all_cursors();
            let mut regions: Vec<(CursorId, CharOffset, CharOffset)> = Vec::new();
            let mut k: usize = 0;
            proof {
                assert(all@.skip(0) =~= all@);
                assert(regions@ + kill_line_regions(t0, all@.skip(0), count as nat)
                    =~= kill_line_regions(t0, all@, count as nat));
            }
            while k < all.len()
                invariant
                    k <= all@.len(),
                    kill_line_regions(t0, all@, count as nat) == regions@ + kill_line_regions(
                        t0,
                        all@.skip(k as int),
                        count as nat,
                    ),
                decreases all@.len() - k,
            {
                let ghost pre_regs = regions@;
                proof {
                    assert(all@.skip(k as int)[0] == all@[k as int]);
                    assert(all@.skip(k as int).drop_first() =~= all@.skip(k as int + 1));
                }
                let b = &state.buffers.buffers[i];
                let blen = rope_len_chars(&b.text);
                let pos = all[k].position;
                let position = char_to_position(&b.text, pos);
                let eol = line_end_char(&b.text, position.line);
                proof {
                    crate::rope::lemma_line_of_bounds(t0, if pos.0 <= t0.len() {
                        pos.0 as int
                    } else {
                        t0.len() as int
                    });
                }
                if pos.0 == eol.0 {
                    if pos.0 < blen {
                        regions.push((all[k].id, pos, CharOffset(pos.0 + 1)));
                        proof {
                            assert(pre_regs + (seq![
                                (all@[k as int].id, pos, CharOffset((pos.0 + 1) as usize)),
                            ] + kill_line_regions(t0, all@.skip(k as int + 1), count as nat))
                                =~= regions@ + kill_line_regions(
                                t0,
                                all@.skip(k as int + 1),
                                count as nat,
                            ));
                        }
                    }
                } else {
                    let ghost extras: nat = if count >= 1 {
                        (count - 1) as nat
                    } else {
                        0
                    };
                    let mut end = eol;
                    let mut extra: usize = 1;
                    proof {
                        if count >= 1 {
                            assert(extend_kill_end(t0, end.0 as int, (count - extra) as nat)
                                == extend_kill_end(t0, eol.0 as int, extras));
                        }
                    }
                    while extra < count
                        invariant
                            1 <= extra,
                            extra <= count || extra == 1,
                            count == 0 ==> end == eol,
                            count >= 1 ==> extend_kill_end(
                                t0,
                                end.0 as int,
                                (count - extra) as nat,
                            ) == extend_kill_end(t0, eol.0 as int, extras),
                        decreases count - extra,
                    {
                        let b2 = &state.buffers.buffers[i];
                        let epos = char_to_position(&b2.text, end);
                        let total = total_lines(&b2.text);
                        proof {
                            crate::rope::lemma_line_of_bounds(t0, if end.0 <= t0.len() {
                                end.0 as int
                            } else {
                                t0.len() as int
                            });
                        }
                        if epos.line < usize::MAX && epos.line + 1 < total {
                            let e2 = line_end_char(&b2.text, epos.line + 1);
                            end = if e2.0 < usize::MAX {
                                CharOffset(e2.0 + 1)
                            } else {
                                e2
                            };
                        }
                        extra += 1;
                    }
                    proof {
                        if count >= 1 {
                            assert(extend_kill_end(t0, end.0 as int, 0) == end.0 as int);
                        } else {
                            assert(end.0 as int == extend_kill_end(t0, eol.0 as int, extras));
                        }
                        assert(end.0 as int == extend_kill_end(t0, eol.0 as int, extras));
                    }
                    regions.push((all[k].id, pos, end));
                    proof {
                        assert(pre_regs + (seq![(all@[k as int].id, pos, end)]
                            + kill_line_regions(t0, all@.skip(k as int + 1), count as nat))
                            =~= regions@ + kill_line_regions(
                            t0,
                            all@.skip(k as int + 1),
                            count as nat,
                        ));
                    }
                }
                k += 1;
            }
            proof {
                assert(all@.skip(all@.len() as int) =~= Seq::<Cursor>::empty());
                assert(regions@ + kill_line_regions(
                    t0,
                    all@.skip(all@.len() as int),
                    count as nat,
                ) =~= regions@);
                assert(all@ == cs0);
                assert(regions@ == kill_line_regions(
                    t0,
                    cs0,
                    crate::registry::prefix_repeat(ctx.prefix_arg) as nat,
                ));
            }
            let ghost pre = state.buffers.buffers@;
            let b = &mut state.buffers.buffers[i];
            let killed = b.delete_regions(&mut cs, regions);
            proof {
                lemma_buffers_wf_update(
                    pre,
                    i as int,
                    state.buffers.buffers@[i as int],
                    state.buffers.next_id,
                );
                assert(killed_texts(killed@) =~= out_texts(crate::buffer::results_m(killed@)));
            }
            let ghost final_cs = cs.all_seq();
            state.put_cursors(cs);
            proof {
                assert(state.windows.windows_seq()[state.windows.current as int].cursors.all_seq()
                    == final_cs);
            }
            push_killed(state, killed, false);
            proof {
                assert(state.window_cursors() == final_cs);
            }
            Ok(())
        },
        None => Ok(()),
    }
}

/// The relation `kill-word` establishes between the editor before and after.
pub open spec fn kill_word_post(
    pre: EditorState,
    post: EditorState,
    ctx: CommandContext,
    r: CommandResult,
) -> bool {
    &&& (post.wf())
    &&& (r is Err <==> pre.target_read_only())
    &&& (pre.target_read_only() ==> post == pre)
    &&& (pre.current_target() is None ==> post == pre)
    &&& (pre.current_target() is Some && !pre.target_read_only() ==> ({
            let i = pre.current_target().unwrap();
            let t0 = pre.target_text();
            let cs0 = pre.target_cursors();
            let ops = crate::buffer::sort_desc_regions(
                crate::buffer::keep_regions(
                    kill_word_regions(t0, cs0, crate::registry::prefix_repeat(ctx.prefix_arg) as nat),
                ),
            );
            &&& crate::rope::rope_text(&post.buffers.buffers@[i].text)
                == crate::buffer::del_regions_text(t0, ops)
            &&& post.window_cursors() == crate::cursor::sort_merge_m(
                crate::buffer::del_regs_cursors(cs0, t0, ops),
            )
            &&& post.kill_ring.entries_seq() == crate::kill_ring::killed_fold(
                pre.kill_ring.entries_seq(),
                pre.kill_ring.cap(),
                pre.kill_ring.spec_last_was_kill(),
                out_texts(crate::buffer::del_regions_out(t0, ops)),
                false,
            )
            &&& post.kill_ring.spec_last_was_kill()
        }))
}

/// Kill from each cursor to the end of the `count`-th word after it.
#[verifier::loop_isolation(false)]
pub fn kill_word(state: &mut EditorState, ctx: &CommandContext) -> (r: CommandResult)
    requires
        old(state).wf(),
    ensures
        kill_word_post(*old(state), *final(state), *ctx, r),
{
    let count = ctx.repeat_count();
    match state.edit_target() {
        Some((i, mut cs)) => {
            if state.buffers.buffers[i].read_only {
                return Err(CommandError::ReadOnly);
            }
            let ghost t0 = crate::rope::rope_text(&state.buffers.buffers@[i as int].text);
            let ghost cs0 = cs.all_seq();
            proof {
                assert(t0 == old(state).target_text());
                assert(cs0 == old(state).target_cursors());
            }
            let all = cs.all_cursors();
            let mut regions: Vec<(CursorId, CharOffset, CharOffset)> = Vec::new();
            let mut k: usize = 0;
            proof {
                assert(regions@ =~= kill_word_regions(t0, all@.take(0), count as nat));
            }
            while k < all.len()
                invariant
                    k <= all@.len(),
                    regions@ == kill_word_regions(t0, all@.take(k as int), count as nat),
                decreases all@.len() - k,
            {
                let start = all[k].position;
                let mut end = start;
                let mut n: usize = 0;
                while n < count
                    invariant
                        n <= count,
                        iter_fwd_word(t0, end.0 as int, (count - n) as nat) == iter_fwd_word(
                            t0,
                            start.0 as int,
                            count as nat,
                        ),
                    decreases count - n,
                {
                    end = find_word_boundary_forward(&state.buffers.buffers[i].text, end);
                    n += 1;
                }
                regions.push((all[k].id, start, end));
                proof {
                    assert(regions@ =~= kill_word_regions(t0, all@.take(k as int + 1), count as nat));
                }
                k += 1;
            }
            proof {
                assert(all@.take(all@.len() as int) =~= all@);
                assert(all@ == cs0);
                assert(regions@ == kill_word_regions(
                    t0,
                    cs0,
                    crate::registry::prefix_repeat(ctx.prefix_arg) as nat,
                ));
            }
            let ghost pre = state.buffers.buffers@;
            let ghost regm = regions@;
            let ghost pre_cs = cs.all_seq();
            let b = &mut state.buffers.buffers[i];
            proof {
                assert(crate::rope::rope_text(&pre[i as int].text) == t0);
                assert(pre_cs == cs0);
            }
            let killed = b.delete_regions(&mut cs, regions);
            proof {
                lemma_buffers_wf_update(
                    pre,
                    i as int,
                    state.buffers.buffers@[i as int],
                    state.buffers.next_id,
                );
                assert(killed_texts(killed@) =~= out_texts(crate::buffer::results_m(killed@)));
                assert(cs.all_seq() == crate::cursor::sort_merge_m(
                    crate::buffer::del_regs_cursors(
                        cs0,
                        t0,
                        crate::buffer::sort_desc_regions(crate::buffer::keep_regions(regm)),
                    ),
                ));
                assert(cs.all_seq() == crate::cursor::sort_merge_m(
                    crate::buffer::del_regs_cursors(
                        cs0,
                        t0,
                        crate::buffer::sort_desc_regions(
                            crate::buffer::keep_regions(
                                kill_word_regions(
                                    t0,
                                    cs0,
                                    crate::registry::prefix_repeat(ctx.prefix_arg) as nat,
                                ),
                            ),
                        ),
                    ),
                ));
            }
            let ghost final_cs = cs.all_seq();
            state.put_cursors(cs);
            proof {
                assert(state.windows.windows_seq()[state.windows.current as int].cursors.all_seq()
                    == final_cs);
            }
            push_killed(state, killed, false);
            proof {
                assert(state.window_cursors() == final_cs);
            }
            Ok(())
        },
        None => Ok(()),
    }
}

/// The relation `backward-kill-word` establishes between the editor before and after.
pub open spec fn backward_kill_word_post(
    pre: EditorState,
    post: EditorState,
    ctx: CommandContext,
    r: CommandResult,
) -> bool {
    &&& (post.wf())
    &&& (r is Err <==> pre.target_read_only())
    &&& (pre.target_read_only() ==> post == pre)
    &&& (pre.current_target() is None ==> post == pre)
    &&& (pre.current_target() is Some && !pre.target_read_only() ==> ({
            let i = pre.current_target().unwrap();
            let t0 = pre.target_text();
            let cs0 = pre.target_cursors();
            let ops = crate::buffer::sort_desc_regions(
                crate::buffer::keep_regions(
                    bwd_kill_regions(t0, cs0, crate::registry::prefix_repeat(ctx.prefix_arg) as nat),
                ),
            );
            &&& crate::rope::rope_text(&post.buffers.buffers@[i].text)
                == crate::buffer::del_regions_text(t0, ops)
            &&& post.window_cursors() == crate::cursor::sort_merge_m(
                crate::buffer::del_regs_cursors(cs0, t0, ops),
            )
            &&& post.kill_ring.entries_seq() == crate::kill_ring::killed_fold(
                pre.kill_ring.entries_seq(),
                pre.kill_ring.cap(),
                pre.kill_ring.spec_last_was_kill(),
                out_texts(crate::buffer::del_regions_out(t0, ops)),
                true,
            )
            &&& post.kill_ring.spec_last_was_kill()
        }))
}

/// Kill from the start of the `count`-th word before each cursor up to it.
#[verifier::loop_isolation(false)]
pub fn backward_kill_word(state: &mut EditorState, ctx: &CommandContext) -> (r: CommandResult)
    requires
        old(state).wf(),
    ensures
        backward_kill_word_post(*old(state), *final(state), *ctx, r),
{
    let count = ctx.repeat_count();
    match state.edit_target() {
        Some((i, mut cs)) => {
            if state.buffers.buffers[i].read_only {
                return Err(CommandError::ReadOnly);
            }
            let ghost t0 = crate::rope::rope_text(&state.buffers.buffers@[i as int].text);
            let ghost cs0 = cs.all_seq();
            proof {
                assert(t0 == old(state).target_text());
                assert(cs0 == old(state).target_cursors());
            }
            let all = cs.all_cursors();
            let mut regions: Vec<(CursorId, CharOffset, CharOffset)> = Vec::new();
            let mut k: usize = 0;
            proof {
                assert(regions@ =~= bwd_kill_regions(t0, all@.take(0), count as nat));
            }
            while k < all.len()
                invariant
                    k <= all@.len(),
                    regions@ == bwd_kill_regions(t0, all@.take(k as int), count as nat),
                decreases all@.len() - k,
            {
                let end = all[k].position;
                let mut start = end;
                let mut n: usize = 0;
                while n < count
                    invariant
                        n <= count,
                        iter_bwd_word(t0, start.0 as int, (count - n) as nat) == iter_bwd_word(
                            t0,
                            end.0 as int,
                            count as nat,
                        ),
                    decreases count - n,
                {
                    start = find_word_boundary_backward(&state.buffers.buffers[i].text, start);
                    n += 1;
                }
                regions.push((all[k].id, start, end));
                proof {
                    assert(regions@ =~= bwd_kill_regions(t0, all@.take(k as int + 1), count as nat));
                }
                k += 1;
            }
            proof {
                assert(all@.take(all@.len() as int) =~= all@);
                assert(all@ == cs0);
                assert(regions@ == bwd_kill_regions(
                    t0,
                    cs0,
                    crate::registry::prefix_repeat(ctx.prefix_arg) as nat,
                ));
            }
            let ghost pre = state.buffers.buffers@;
            let b = &mut state.buffers.buffers[i];
            let killed = b.delete_regions(&mut cs, regions);
            proof {
                lemma_buffers_wf_update(
                    pre,
                    i as int,
                    state.buffers.buffers@[i as int],
                    state.buffers.next_id,
                );
                assert(killed_texts(killed@) =~= out_texts(crate::buffer::results_m(killed@)));
            }
            let ghost final_cs = cs.all_seq();
            state.put_cursors(cs);
            proof {
                assert(state.windows.windows_seq()[state.windows.current as int].cursors.all_seq()
                    == final_cs);
            }
            push_killed(state, killed, true);
            proof {
                assert(state.window_cursors() == final_cs);
            }
            Ok(())
        },
        None => Ok(()),
    }
}

/// The relation `kill-region` establishes between the editor before and after.
pub open spec fn kill_region_post(
    pre: EditorState,
    post: EditorState,
    ctx: CommandContext,
    r: CommandResult,
) -> bool {
    &&& (post.wf())
    &&& (r is Err <==> pre.target_read_only())
    &&& (pre.target_read_only() ==> post == pre)
    &&& (pre.current_target() is None ==> post == pre)
    &&& (pre.current_target() is Some && !pre.target_read_only() ==> ({
            let i = pre.current_target().unwrap();
            let t0 = pre.target_text();
            let cs0 = pre.target_cursors();
            let ops = crate::buffer::sort_desc_regions(
                crate::buffer::keep_regions(region_ops(cs0)),
            );
            &&& crate::rope::rope_text(&post.buffers.buffers@[i].text)
                == crate::buffer::del_regions_text(t0, ops)
            &&& post.kill_ring.entries_seq() == crate::kill_ring::killed_fold(
                pre.kill_ring.entries_seq(),
                pre.kill_ring.cap(),
                pre.kill_ring.spec_last_was_kill(),
                out_texts(crate::buffer::del_regions_out(t0, ops)),
                false,
            )
            &&& post.kill_ring.spec_last_was_kill()
            &&& (forall|w: int|
                0 <= w < post.window_cursors().len() ==> !(
                #[trigger] post.window_cursors()[w]).mark_active)
        }))
}

/// Kill every live region.
pub fn kill_region(state: &mut EditorState, ctx: &CommandContext) -> (r: CommandResult)
    requires
        old(state).wf(),
    ensures
        kill_region_post(*old(state), *final(state), *ctx, r),
{
    match state.edit_target() {
        Some((i, mut cs)) => {
            if state.buffers.buffers[i].read_only {
                return Err(CommandError::ReadOnly);
            }
            let ghost t0 = crate::rope::rope_text(&state.buffers.buffers@[i as int].text);
            let ghost cs0 = cs.all_seq();
            proof {
                assert(t0 == old(state).target_text());
                assert(cs0 == old(state).target_cursors());
            }
            let regions = crate::editing::active_regions(&cs);
            let ghost pre = state.buffers.buffers@;
            let b = &mut state.buffers.buffers[i];
            let killed = b.delete_regions(&mut cs, regions);
            proof {
                lemma_buffers_wf_update(
                    pre,
                    i as int,
                    state.buffers.buffers@[i as int],
                    state.buffers.next_id,
                );
                assert(killed_texts(killed@) =~= out_texts(crate::buffer::results_m(killed@)));
            }
            cs.deactivate_all_marks();
            let ghost final_cs = cs.all_seq();
            state.put_cursors(cs);
            proof {
                assert(state.windows.windows_seq()[state.windows.current as int].cursors.all_seq()
                    == final_cs);
            }
            push_killed(state, killed, false);
            proof {
                assert(state.window_cursors() == final_cs);
            }
            Ok(())
        },
        None => Ok(()),
    }
}

/// The relation `copy-region-as-kill` establishes between the editor before and after.
pub open spec fn copy_region_as_kill_post(
    pre: EditorState,
    post: EditorState,
    ctx: CommandContext,
    r: CommandResult,
) -> bool {
    &&& (post.wf())
    &&& (r is Ok)
    &&& (pre.current_target() is Some ==> ({
            let i = pre.current_target().unwrap();
            let t0 = pre.target_text();
            let cs0 = pre.target_cursors();
            &&& crate::rope::rope_text(&post.buffers.buffers@[i].text) == t0
            &&& (region_ops(cs0).len() > 0 ==> post.kill_ring.entries_seq() == copy_fold(
                pre.kill_ring.entries_seq(),
                pre.kill_ring.cap(),
                region_texts(t0, region_ops(cs0)),
            ))
            &&& (region_ops(cs0).len() == 0 ==> post.kill_ring == pre.kill_ring)
        }))
}

/// Save every live region to the kill ring without deleting it.
#[verifier::loop_isolation(false)]
pub fn copy_region_as_kill(state: &mut EditorState, ctx: &CommandContext) -> (r: CommandResult)
    requires
        old(state).wf(),
    ensures
        copy_region_as_kill_post(*old(state), *final(state), *ctx, r),
{
    match state.edit_target() {
        Some((i, mut cs)) => {
            let ghost t0 = crate::rope::rope_text(&state.buffers.buffers@[i as int].text);
            let ghost cs0 = cs.all_seq();
            proof {
                assert(t0 == old(state).target_text());
                assert(cs0 == old(state).target_cursors());
            }
            let regions = crate::editing::active_regions(&cs);
            let mut copies: Vec<(CursorId, String)> = Vec::new();
            let mut k: usize = 0;
            proof {
                assert(killed_texts(copies@) =~= region_texts(t0, regions@.take(0)));
            }
            while k < regions.len()
                invariant
                    k <= regions@.len(),
                    i < state.buffers.buffers@.len(),
                    crate::rope::rope_text(&state.buffers.buffers@[i as int].text) == t0,
                    killed_texts(copies@) == region_texts(t0, regions@.take(k as int)),
                decreases regions@.len() - k,
            {
                let b = &state.buffers.buffers[i];
                let text = b.slice(regions[k].1, regions[k].2);
                let ghost pre_c = copies@;
                copies.push((regions[k].0, text));
                proof {
                    assert forall|w: int| 0 <= w < k + 1 implies killed_texts(copies@)[w]
                        == region_texts(t0, regions@.take(k as int + 1))[w] by {
                        assert(killed_texts(copies@)[w] == copies@[w].1@);
                        if w < k {
                            assert(copies@[w] == pre_c[w]);
                            assert(killed_texts(pre_c)[w] == pre_c[w].1@);
                            assert(killed_texts(pre_c)[w] == region_texts(
                                t0,
                                regions@.take(k as int),
                            )[w]);
                        }
                        assert(region_texts(t0, regions@.take(k as int + 1))[w] == region_text_of(
                            t0,
                            regions@.take(k as int + 1)[w],
                        ));
                    }
                    assert(killed_texts(copies@) =~= region_texts(
                        t0,
                        regions@.take(k as int + 1),
                    ));
                }
                k += 1;
            }
            proof {
                assert(regions@.take(regions@.len() as int) =~= regions@);
            }
            if copies.len() == 0 {
                state.put_cursors(cs);
                return Ok(());
            }
            let ghost ring0_entries = state.kill_ring.entries_seq();
            let ghost ring0_cap = state.kill_ring.cap();
            let ghost cm = killed_texts(copies@);
            let mut k: usize = 0;
            proof {
                assert(cm.skip(0) =~= cm);
            }
            while k < copies.len()
                invariant
                    k <= copies@.len(),
                    cm == killed_texts(copies@),
                    state.kill_ring.wf(),
                    state.kill_ring.cap() == ring0_cap,
                    copy_fold(state.kill_ring.entries_seq(), ring0_cap, cm.skip(k as int))
                        == copy_fold(ring0_entries, ring0_cap, cm),
                    state.buffers == old(state).buffers,
                    state.windows == old(state).windows,
                    state.minibuffer == old(state).minibuffer,
                    state.keymap == old(state).keymap,
                decreases copies@.len() - k,
            {
                proof {
                    assert(cm.skip(k as int)[0] == cm[k as int]);
                    assert(cm[k as int] == copies@[k as int].1@);
                    assert(cm.skip(k as int).drop_first() =~= cm.skip(k as int + 1));
                }
                let text = copies[k].1.clone();
                state.kill_ring.push(text, false);
                k += 1;
            }
            proof {
                assert(cm.skip(copies@.len() as int) =~= Seq::<Seq<char>>::empty());
            }
            cs.deactivate_all_marks();
            state.put_cursors(cs);
            state.message = Some("Region saved".to_owned());
            Ok(())
        },
        None => Ok(()),
    }
}

/// The relation `yank` establishes between the editor before and after.
pub open spec fn yank_post(
    pre: EditorState,
    post: EditorState,
    ctx: CommandContext,
    r: CommandResult,
) -> bool {
    &&& (post.wf())
    &&& (r is Err <==> pre.target_read_only())
    &&& (pre.target_read_only() ==> post == pre)
    &&& (pre.current_target() is None ==> post == pre)
    &&& (pre.current_target() is Some && !pre.target_read_only() ==> ({
            let i = pre.current_target().unwrap();
            let t0 = pre.target_text();
            let cs0 = pre.target_cursors();
            &&& (pre.kill_ring.entries_seq().len() == 0 ==> ({
                &&& crate::rope::rope_text(&post.buffers.buffers@[i].text) == t0
                &&& post.kill_ring == pre.kill_ring
                &&& post.windows == pre.windows
                &&& post.message matches Some(m) && m@ == "Kill ring is empty"@
            }))
            &&& (pre.kill_ring.entries_seq().len() > 0 ==> ({
                let top = pre.kill_ring.entries_seq()[0];
                let ops = crate::buffer::sort_desc_ops(
                    crate::buffer::collect_ins_ops(cs0, yank_texts(cs0, top)),
                );
                &&& crate::rope::rope_text(&post.buffers.buffers@[i].text)
                    == crate::buffer::ins_ops_text(t0, ops)
                &&& post.kill_ring.entries_seq() == pre.kill_ring.entries_seq()
                &&& post.kill_ring.pointer() == 0
                &&& post.window_cursors() == marked_cursors(
                    crate::cursor::sort_merge_m(crate::buffer::ins_ops_cursors(cs0, t0, ops)),
                    mark_list(cs0),
                )
            }))
        }))
}

/// Insert the newest kill at every cursor, marking where the insertion began
/// so yank-pop can replace it.
#[verifier::loop_isolation(false)]
pub fn yank(state: &mut EditorState, ctx: &CommandContext) -> (r: CommandResult)
    requires
        old(state).wf(),
    ensures
        yank_post(*old(state), *final(state), *ctx, r),
{
    match state.edit_target() {
        Some((i, mut cs)) => {
            if state.buffers.buffers[i].read_only {
                return Err(CommandError::ReadOnly);
            }
            let ghost t0 = crate::rope::rope_text(&state.buffers.buffers@[i as int].text);
            let ghost cs0 = cs.all_seq();
            proof {
                assert(t0 == old(state).target_text());
                assert(cs0 == old(state).target_cursors());
            }
            let text: String = match state.kill_ring.yank() {
                Some(s) => s.to_owned(),
                None => {
                    state.message = Some("Kill ring is empty".to_owned());
                    return Ok(());
                },
            };
            let all = cs.all_cursors();
            let mut marks: Vec<(CursorId, CharOffset)> = Vec::new();
            let mut texts: Vec<(CursorId, String)> = Vec::new();
            let mut k: usize = 0;
            proof {
                assert(crate::buffer::texts_m(texts@) =~= yank_texts(all@.take(0), text@));
                assert(marks@ =~= mark_list(all@.take(0)));
            }
            while k < all.len()
                invariant
                    k <= all@.len(),
                    crate::buffer::texts_m(texts@) == yank_texts(all@.take(k as int), text@),
                    marks@ == mark_list(all@.take(k as int)),
                decreases all@.len() - k,
            {
                let ghost pre_marks = marks@;
                marks.push((all[k].id, all[k].position));
                proof {
                    assert forall|w: int| 0 <= w < k + 1 implies marks@[w] == mark_list(
                        all@.take(k as int + 1),
                    )[w] by {
                        if w < k {
                            assert(marks@[w] == pre_marks[w]);
                            assert(pre_marks[w] == mark_list(all@.take(k as int))[w]);
                            assert(mark_list(all@.take(k as int))[w] == (
                                all@.take(k as int)[w].id,
                                all@.take(k as int)[w].position,
                            ));
                        }
                        assert(mark_list(all@.take(k as int + 1))[w] == (
                            all@.take(k as int + 1)[w].id,
                            all@.take(k as int + 1)[w].position,
                        ));
                    }
                    assert(marks@ =~= mark_list(all@.take(k as int + 1)));
                }
                let ghost pre_t = texts@;
                texts.push((all[k].id, text.clone()));
                proof {
                    assert forall|w: int| 0 <= w < k + 1 implies crate::buffer::texts_m(
                        texts@,
                    )[w] == yank_texts(all@.take(k as int + 1), text@)[w] by {
                        assert(crate::buffer::texts_m(texts@)[w] == (texts@[w].0, texts@[w].1@));
                        if w < k {
                            assert(texts@[w] == pre_t[w]);
                            assert(crate::buffer::texts_m(pre_t)[w] == (pre_t[w].0, pre_t[w].1@));
                            assert(crate::buffer::texts_m(pre_t)[w] == yank_texts(
                                all@.take(k as int),
                                text@,
                            )[w]);
                        }
                        assert(yank_texts(all@.take(k as int + 1), text@)[w] == (
                            all@.take(k as int + 1)[w].id,
                            text@,
                        ));
                    }
                    assert(crate::buffer::texts_m(texts@).len() == k + 1);
                    assert(crate::buffer::texts_m(texts@) =~= yank_texts(
                        all@.take(k as int + 1),
                        text@,
                    ));
                }
                k += 1;
            }
            proof {
                assert(all@.take(all@.len() as int) =~= all@);
                assert(all@ == cs0);
                assert(crate::buffer::texts_m(texts@) == yank_texts(
                    cs0,
                    old(state).kill_ring.entries_seq()[0],
                ));
            }
            proof {
                assert(marks@ == mark_list(cs0));
                assert(cs0.len() == 1 + cs.secondary@.len());
            }
            let ghost pre = state.buffers.buffers@;
            let b = &mut state.buffers.buffers[i];
            b.insert_at_cursors(&mut cs, texts);
            proof {
                lemma_buffers_wf_update(
                    pre,
                    i as int,
                    state.buffers.buffers@[i as int],
                    state.buffers.next_id,
                );
            }
            set_marks_by_id(&mut cs, &marks);
            let ghost final_cs = cs.all_seq();
            state.put_cursors(cs);
            proof {
                assert(state.windows.windows_seq()[state.windows.current as int].cursors.all_seq()
                    == final_cs);
            }
            state.kill_ring.reset_yank_pointer();
            proof {
                assert(state.window_cursors() == final_cs);
            }
            Ok(())
        },
        None => Ok(()),
    }
}

/// One mark entry applied to one cursor: a match on identity sets the mark.
pub open spec fn mark_step(c: Cursor, e: (CursorId, CharOffset)) -> Cursor {
    if c.id.0 == e.0.0 {
        Cursor { mark: Some(e.1), mark_active: true, ..c }
    } else {
        c
    }
}

/// The mark entries applied to one cursor, first entry first.
pub open spec fn apply_mark_list(c: Cursor, marks: Seq<(CursorId, CharOffset)>) -> Cursor
    decreases marks.len(),
{
    if marks.len() == 0 {
        c
    } else {
        mark_step(apply_mark_list(c, marks.drop_last()), marks.last())
    }
}

/// Every cursor with the mark entries applied.
pub open spec fn marked_cursors(cs: Seq<Cursor>, marks: Seq<(CursorId, CharOffset)>) -> Seq<
    Cursor,
> {
    Seq::new(cs.len(), |w: int| apply_mark_list(cs[w], marks))
}

/// Each cursor paired with its own position: where a yank begins.
pub open spec fn mark_list(cs: Seq<Cursor>) -> Seq<(CursorId, CharOffset)> {
    Seq::new(cs.len(), |w: int| (cs[w].id, cs[w].position))
}

/// Set each listed cursor's mark, matched by identity.
#[verifier::loop_isolation(false)]
fn set_marks_by_id(cs: &mut crate::cursor::CursorSet, marks: &Vec<(CursorId, CharOffset)>)
    ensures
        final(cs).all_seq() == marked_cursors(old(cs).all_seq(), marks@),
        final(cs).next_id == old(cs).next_id,
{
    let ghost m = marks@;
    let mut k: usize = 0;
    proof {
        assert(m.take(0) =~= Seq::<(CursorId, CharOffset)>::empty());
    }
    while k < marks.len()
        invariant
            k <= m.len(),
            m == marks@,
            cs.all_seq().len() == old(cs).all_seq().len(),
            cs.secondary@.len() == old(cs).secondary@.len(),
            cs.next_id == old(cs).next_id,
            forall|w: int|
                0 <= w < old(cs).all_seq().len() ==> #[trigger] cs.all_seq()[w] == apply_mark_list(
                    old(cs).all_seq()[w],
                    m.take(k as int),
                ),
        decreases m.len() - k,
    {
        let ghost e = m[k as int];
        let ghost pre_primary = cs.primary;
        let ghost pre_sec = cs.secondary@;
        let ghost pre_all = cs.all_seq();
        let (id, pos) = marks[k];
        if cs.primary.id.0 == id.0 {
            cs.primary.set_mark(pos);
        }
        proof {
            assert(cs.primary == mark_step(pre_primary, e));
        }
        let mut j: usize = 0;
        while j < cs.secondary.len()
            invariant
                j <= pre_sec.len(),
                cs.secondary@.len() == pre_sec.len(),
                cs.primary == mark_step(pre_primary, e),
                cs.next_id == old(cs).next_id,
                e == (id, pos),
                forall|w: int|
                    0 <= w < j ==> #[trigger] cs.secondary@[w] == mark_step(pre_sec[w], e),
                forall|w: int| j <= w < pre_sec.len() ==> #[trigger] cs.secondary@[w] == pre_sec[w],
            decreases pre_sec.len() - j,
        {
            if cs.secondary[j].id.0 == id.0 {
                let mut cj = cs.secondary[j];
                cj.set_mark(pos);
                cs.secondary[j] = cj;
            }
            j += 1;
        }
        proof {
            assert(m.take(k as int + 1).drop_last() =~= m.take(k as int));
            assert(m.take(k as int + 1).last() == e);
            assert forall|w: int| 0 <= w < old(cs).all_seq().len() implies cs.all_seq()[w]
                == apply_mark_list(old(cs).all_seq()[w], m.take(k as int + 1)) by {
                assert(pre_all[w] == apply_mark_list(old(cs).all_seq()[w], m.take(k as int)));
                if w == 0 {
                    assert(cs.all_seq()[0] == cs.primary);
                    assert(pre_all[0] == pre_primary);
                } else {
                    assert(cs.all_seq()[w] == cs.secondary@[w - 1]);
                    assert(pre_all[w] == pre_sec[w - 1]);
                }
            }
        }
        k += 1;
    }
    proof {
        assert(m.take(m.len() as int) =~= m);
        assert(cs.all_seq() =~= marked_cursors(old(cs).all_seq(), marks@));
    }
}

/// The relation `yank-pop` establishes between the editor before and after.
pub open spec fn yank_pop_post(
    pre: EditorState,
    post: EditorState,
    ctx: CommandContext,
    r: CommandResult,
) -> bool {
    &&& (post.wf())
    &&& (({
            let guarded = match ctx.last_command {
                Some(lc) => lc@ == "yank"@ || lc@ == "yank-pop"@,
                None => false,
            };
            !guarded ==> ({
                &&& r is Ok
                &&& post.kill_ring == pre.kill_ring
                &&& post.buffers == pre.buffers
                &&& post.message matches Some(m) && m@
                    == "Previous command was not a yank"@
            })
        }))
    &&& (({
            let guarded = match ctx.last_command {
                Some(lc) => lc@ == "yank"@ || lc@ == "yank-pop"@,
                None => false,
            };
            guarded && pre.current_target() is Some && !pre.target_read_only()
                ==> ({
                let i = pre.current_target().unwrap();
                let t0 = pre.target_text();
                let cs0 = pre.target_cursors();
                let dops = crate::buffer::sort_desc_regions(
                    crate::buffer::keep_regions(mark_span_ops(cs0)),
                );
                let t1 = crate::buffer::del_regions_text(t0, dops);
                let cs1 = crate::cursor::sort_merge_m(
                    crate::buffer::del_regs_cursors(cs0, t0, dops),
                );
                &&& (pre.kill_ring.entries_seq().len() == 0 ==> crate::rope::rope_text(
                    &post.buffers.buffers@[i].text,
                ) == t1 && post.kill_ring.entries_seq() == pre.kill_ring.entries_seq())
                &&& (pre.kill_ring.entries_seq().len() > 0 ==> ({
                    let p2 = crate::kill_ring::yank_step(
                        pre.kill_ring.pointer(),
                        pre.kill_ring.entries_seq().len() as int,
                    );
                    let e = pre.kill_ring.entries_seq()[p2];
                    &&& post.kill_ring.entries_seq() == pre.kill_ring.entries_seq()
                    &&& post.kill_ring.pointer() == p2
                    &&& crate::rope::rope_text(&post.buffers.buffers@[i].text)
                        == crate::buffer::ins_ops_text(
                        t1,
                        crate::buffer::sort_desc_ops(
                            crate::buffer::collect_ins_ops(cs1, yank_texts(cs1, e)),
                        ),
                    )
                }))
            })
        }))
}

/// Replace the last yank with the next older kill-ring entry. Refused unless
/// the previous command was a yank or yank-pop: then nothing moves and the
/// message says so.
#[verifier::loop_isolation(false)]
pub fn yank_pop(state: &mut EditorState, ctx: &CommandContext) -> (r: CommandResult)
    requires
        old(state).wf(),
    ensures
        yank_pop_post(*old(state), *final(state), *ctx, r),
{
    let guarded = match ctx.last_command {
        Some(lc) => str_eq(lc, "yank") || str_eq(lc, "yank-pop"),
        None => false,
    };
    if !guarded {
        state.message = Some("Previous command was not a yank".to_owned());
        return Ok(());
    }
    match state.edit_target() {
        Some((i, mut cs)) => {
            if state.buffers.buffers[i].read_only {
                return Err(CommandError::ReadOnly);
            }
            let ghost t0 = crate::rope::rope_text(&state.buffers.buffers@[i as int].text);
            let ghost cs0 = cs.all_seq();
            proof {
                assert(t0 == old(state).target_text());
                assert(cs0 == old(state).target_cursors());
            }
            let all = cs.all_cursors();
            let mut regions: Vec<(CursorId, CharOffset, CharOffset)> = Vec::new();
            let mut k: usize = 0;
            proof {
                assert(all@.skip(0) =~= all@);
                assert(regions@ + mark_span_ops(all@.skip(0)) =~= mark_span_ops(all@));
            }
            while k < all.len()
                invariant
                    k <= all@.len(),
                    mark_span_ops(all@) == regions@ + mark_span_ops(all@.skip(k as int)),
                decreases all@.len() - k,
            {
                let ghost pre_regs = regions@;
                proof {
                    assert(all@.skip(k as int)[0] == all@[k as int]);
                    assert(all@.skip(k as int).drop_first() =~= all@.skip(k as int + 1));
                }
                match all[k].mark {
                    Some(m) => {
                        if m.0 < all[k].position.0 {
                            regions.push((all[k].id, m, all[k].position));
                        } else {
                            regions.push((all[k].id, all[k].position, m));
                        }
                        proof {
                            assert(pre_regs + (seq![regions@[regions@.len() - 1]] + mark_span_ops(
                                all@.skip(k as int + 1),
                            )) =~= regions@ + mark_span_ops(all@.skip(k as int + 1)));
                        }
                    },
                    None => {},
                }
                k += 1;
            }
            proof {
                assert(all@.skip(all@.len() as int) =~= Seq::<Cursor>::empty());
                assert(regions@ + mark_span_ops(all@.skip(all@.len() as int)) =~= regions@);
                assert(all@ == cs0);
                assert(regions@ == mark_span_ops(cs0));
            }
            let ghost pre = state.buffers.buffers@;
            let b = &mut state.buffers.buffers[i];
            let _ = b.delete_regions(&mut cs, regions);
            proof {
                lemma_buffers_wf_update(
                    pre,
                    i as int,
                    state.buffers.buffers@[i as int],
                    state.buffers.next_id,
                );
            }
            let ghost t1 = crate::rope::rope_text(&state.buffers.buffers@[i as int].text);
            let ghost cs1 = cs.all_seq();
            let text: String = match state.kill_ring.yank_pop() {
                Some(s) => s.to_owned(),
                None => {
                    state.put_cursors(cs);
                    return Ok(());
                },
            };
            let all2 = cs.all_cursors();
            let mut marks: Vec<(CursorId, CharOffset)> = Vec::new();
            let mut texts: Vec<(CursorId, String)> = Vec::new();
            let mut k: usize = 0;
            proof {
                assert(crate::buffer::texts_m(texts@) =~= yank_texts(all2@.take(0), text@));
            }
            while k < all2.len()
                invariant
                    k <= all2@.len(),
                    crate::buffer::texts_m(texts@) == yank_texts(all2@.take(k as int), text@),
                decreases all2@.len() - k,
            {
                marks.push((all2[k].id, all2[k].position));
                let ghost pre_t = texts@;
                texts.push((all2[k].id, text.clone()));
                proof {
                    assert forall|w: int| 0 <= w < k + 1 implies crate::buffer::texts_m(
                        texts@,
                    )[w] == yank_texts(all2@.take(k as int + 1), text@)[w] by {
                        assert(crate::buffer::texts_m(texts@)[w] == (texts@[w].0, texts@[w].1@));
                        if w < k {
                            assert(texts@[w] == pre_t[w]);
                            assert(crate::buffer::texts_m(pre_t)[w] == (pre_t[w].0, pre_t[w].1@));
                            assert(crate::buffer::texts_m(pre_t)[w] == yank_texts(
                                all2@.take(k as int),
                                text@,
                            )[w]);
                        }
                        assert(yank_texts(all2@.take(k as int + 1), text@)[w] == (
                            all2@.take(k as int + 1)[w].id,
                            text@,
                        ));
                    }
                    assert(crate::buffer::texts_m(texts@).len() == k + 1);
                    assert(crate::buffer::texts_m(texts@) =~= yank_texts(
                        all2@.take(k as int + 1),
                        text@,
                    ));
                }
                k += 1;
            }
            proof {
                assert(all2@.take(all2@.len() as int) =~= all2@);
                assert(all2@ == cs1);
            }
            let ghost pre2 = state.buffers.buffers@;
            let b = &mut state.buffers.buffers[i];
            b.insert_at_cursors(&mut cs, texts);
            proof {
                lemma_buffers_wf_update(
                    pre2,
                    i as int,
                    state.buffers.buffers@[i as int],
                    state.buffers.next_id,
                );
            }
            set_marks_by_id(&mut cs, &marks);
            state.put_cursors(cs);
            Ok(())
        },
        None => Ok(()),
    }
}

} // verus!
