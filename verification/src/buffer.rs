//! The buffer: a rope of text together with its mark ring, undo history, and
//! the multi-cursor mutations every editing command goes through.
use vstd::prelude::*;
use vstd::string::StrSliceExecFns;

use crate::cursor::Cursor;
use crate::cursor::CursorId;
use crate::cursor::find_by_id_m;
use crate::cursor::CursorSet;
use crate::cursor::cursor_after_delete;
use crate::cursor::cursor_after_insert;
use crate::cursor::cursor_bounded;
use crate::cursor::sort_merge_m;
use crate::cursor::positions_of;
use crate::cursor::sort_desc;
use crate::cursor::sorted_strict;
use crate::cursor::lemma_sort_desc_max;
use crate::mark::MarkRing;
use crate::position::CharOffset;
use crate::rope::rope_text;
use crate::rope::rope_insert;
use crate::rope::rope_remove;
use crate::rope::rope_len_chars;
use crate::rope::rope_new;
use crate::rope::rope_from_str;
use crate::undo::UndoTree;

verus! {

/// Identity of a buffer, unique within a `BufferManager`.
#[derive(Debug, Clone, Copy, PartialEq, Eq, Structural, Hash)]
pub struct BufferId(pub u64);

impl BufferId {
    pub fn new(raw: u64) -> (r: BufferId)
        ensures
            r.0 == raw,
    {
        BufferId(raw)
    }
}

/// The buffer's editing mode tag.
#[derive(Debug, Clone, Copy, PartialEq, Eq, Structural)]
pub enum BufferMode {
    Fundamental,
    Text,
    ReadOnly,
}

/// A text buffer. Cursors live in windows, not here: every mutation takes the
/// caller's `CursorSet`, so several windows can edit one buffer each with
/// their own cursors.
#[derive(Debug)]
pub struct Buffer {
    pub id: BufferId,
    pub name: String,
    pub file_path: Option<String>,
    pub text: ropey::Rope,
    pub mark_ring: MarkRing,
    pub modified: bool,
    pub read_only: bool,
    pub mode: BufferMode,
    pub undo_tree: UndoTree,
}

/// `s` spliced into `t` at `p`, clamped to the end of `t`.
pub open spec fn splice_at(t: Seq<char>, p: int, s: Seq<char>) -> Seq<char> {
    let i = if p <= t.len() {
        p
    } else {
        t.len() as int
    };
    t.take(i) + s + t.skip(i)
}

/// `s` spliced into `t` at each position of `ps` in turn; `ps` descending
/// keeps later (lower) positions valid.
pub open spec fn splice_descending(t: Seq<char>, ps: Seq<usize>, s: Seq<char>) -> Seq<char>
    decreases ps.len(),
{
    if ps.len() == 0 {
        t
    } else {
        splice_descending(splice_at(t, ps[0] as int, s), ps.drop_first(), s)
    }
}

proof fn lemma_splice_snoc(t: Seq<char>, ps: Seq<usize>, p: usize, s: Seq<char>)
    ensures
        splice_descending(t, ps.push(p), s) == splice_at(splice_descending(t, ps, s), p as int, s),
    decreases ps.len(),
{
    if ps.len() == 0 {
        let single = ps.push(p);
        assert(single[0] == p);
        assert(single.drop_first() =~= Seq::<usize>::empty());
        assert(splice_descending(t, single, s) == splice_descending(
            splice_at(t, p as int, s),
            single.drop_first(),
            s,
        ));
        assert(splice_descending(splice_at(t, p as int, s), Seq::<usize>::empty(), s) == splice_at(
            t,
            p as int,
            s,
        ));
        assert(splice_descending(t, ps, s) == t);
    } else {
        assert(ps.push(p)[0] == ps[0]);
        assert(ps.push(p).drop_first() =~= ps.drop_first().push(p));
        lemma_splice_snoc(splice_at(t, ps[0] as int, s), ps.drop_first(), p, s);
    }
}

/// Every cursor and mark adjusted for an insertion of `len` chars at `at`.
pub open spec fn adjust_all_insert(cs: Seq<Cursor>, at: int, len: int) -> Seq<Cursor> {
    cs.map_values(|c: Cursor| cursor_after_insert(c, at, len))
}

/// Every cursor and mark adjusted for the deletion of `[start, end)`.
pub open spec fn adjust_all_delete(cs: Seq<Cursor>, start: int, end: int) -> Seq<Cursor> {
    cs.map_values(|c: Cursor| cursor_after_delete(c, start, end))
}

/// Every cursor advanced by `len` with its mark deactivated, as after an
/// insertion at each cursor.
pub open spec fn advance_all(cs: Seq<Cursor>, len: int) -> Seq<Cursor> {
    cs.map_values(
        |c: Cursor|
            Cursor {
                position: CharOffset((c.position.0 + len) as usize),
                mark_active: false,
                ..c
            },
    )
}

/// The cursors threaded through the descending insertion run: each splice of
/// `s` at a (clamped) position shifts them as `cursor_after_insert` says.
pub open spec fn insert_chain(cs: Seq<Cursor>, t: Seq<char>, ps: Seq<usize>, s: Seq<char>) -> Seq<
    Cursor,
>
    decreases ps.len(),
{
    if ps.len() == 0 {
        cs
    } else {
        let at = if ps[0] <= t.len() {
            ps[0] as int
        } else {
            t.len() as int
        };
        insert_chain(
            adjust_all_insert(cs, at, s.len() as int),
            splice_at(t, ps[0] as int, s),
            ps.drop_first(),
            s,
        )
    }
}

/// The undo history threaded through the descending insertion run: one
/// recorded insertion per (clamped) position.
pub open spec fn record_insert_run(
    m: crate::undo::TreeM,
    t: Seq<char>,
    ps: Seq<usize>,
    s: Seq<char>,
) -> crate::undo::TreeM
    decreases ps.len(),
{
    if ps.len() == 0 {
        m
    } else {
        let at = if ps[0] <= t.len() {
            ps[0] as int
        } else {
            t.len() as int
        };
        record_insert_run(
            crate::undo::record_insert_m(m, at, s),
            splice_at(t, ps[0] as int, s),
            ps.drop_first(),
            s,
        )
    }
}

/// The whole undo-history transition of `insert_string`: an optional boundary
/// around a newline-bearing insert, the cursor snapshot, and one batch of
/// recorded insertions.
pub open spec fn tree_after_insert_string(
    m: crate::undo::TreeM,
    snapshot: Seq<Cursor>,
    t: Seq<char>,
    ps: Seq<usize>,
    s: Seq<char>,
) -> crate::undo::TreeM {
    let has_nl = has_newline(s);
    let m1 = if has_nl {
        crate::undo::break_coalesce_m(m)
    } else {
        m
    };
    let m2 = if m1.pending_cursors is None {
        crate::undo::TreeM { pending_cursors: Some(snapshot), ..m1 }
    } else {
        m1
    };
    let m3 = crate::undo::TreeM { batch_depth: m2.batch_depth + 1, ..m2 };
    let m4 = record_insert_run(m3, t, ps, s);
    let m5 = crate::undo::end_batch_m(m4);
    if has_nl {
        crate::undo::break_coalesce_m(m5)
    } else {
        m5
    }
}

/// Whether some char of `s` is a newline.
pub open spec fn has_newline(s: Seq<char>) -> bool {
    exists|i: int| 0 <= i < s.len() && s[i] == '\n'
}

fn str_has_newline(s: &str) -> (r: bool)
    ensures
        r == has_newline(s@),
{
    let n = s.unicode_len();
    let mut i: usize = 0;
    while i < n
        invariant
            i <= n,
            n == s@.len(),
            forall|j: int| 0 <= j < i ==> s@[j] != '\n',
        decreases n - i,
    {
        if s.get_char(i) == '\n' {
            return true;
        }
        i += 1;
    }
    false
}

impl Buffer {
    /// The buffer's text as a char sequence.
    pub open spec fn text_of(self) -> Seq<char> {
        rope_text(&self.text)
    }

    /// The buffer is consistent: its undo history is sound and no batch is
    /// left open.
    pub open spec fn wf(self) -> bool {
        &&& UndoTree::wf_m(self.undo_tree.model())
        &&& self.undo_tree.model().batch_depth == 0
    }

    /// An empty buffer. The caller assigns the identity; `BufferManager::add`
    /// replaces it with a fresh one.
    pub fn new(name: &str) -> (r: Buffer)
        ensures
            r.text_of() == Seq::<char>::empty(),
            r.name@ == name@,
            r.file_path is None,
            !r.modified,
            !r.read_only,
            r.wf(),
    {
        Buffer {
            id: BufferId(0),
            name: name.to_owned(),
            file_path: None,
            text: rope_new(),
            mark_ring: MarkRing::new(16),
            modified: false,
            read_only: false,
            mode: BufferMode::Fundamental,
            undo_tree: UndoTree::new(10000),
        }
    }

    /// A buffer holding `content`.
    pub fn from_string(name: &str, content: &str) -> (r: Buffer)
        ensures
            r.text_of() == content@,
            r.name@ == name@,
            r.file_path is None,
            !r.modified,
            !r.read_only,
            r.wf(),
    {
        Buffer {
            id: BufferId(0),
            name: name.to_owned(),
            file_path: None,
            text: rope_from_str(content),
            mark_ring: MarkRing::new(16),
            modified: false,
            read_only: false,
            mode: BufferMode::Fundamental,
            undo_tree: UndoTree::new(10000),
        }
    }

    pub fn len_chars(&self) -> (r: usize)
        ensures
            r == self.text_of().len(),
    {
        rope_len_chars(&self.text)
    }

    pub fn len_lines(&self) -> (r: usize)
        ensures
            r == crate::rope::line_count(self.text_of()),
    {
        crate::rope::rope_len_lines(&self.text)
    }

    pub fn is_empty(&self) -> (r: bool)
        ensures
            r == (self.text_of().len() == 0),
    {
        rope_len_chars(&self.text) == 0
    }

    /// The text of `[start, end)`, clamped to the buffer; empty when the
    /// clamped range is empty or inverted.
    pub fn slice(&self, start: CharOffset, end: CharOffset) -> (r: String)
        ensures
            ({
                let t = self.text_of();
                let s = if start.0 <= t.len() {
                    start.0 as int
                } else {
                    t.len() as int
                };
                let e = if end.0 <= t.len() {
                    end.0 as int
                } else {
                    t.len() as int
                };
                if s < e {
                    r@ == t.subrange(s, e)
                } else {
                    r@ == Seq::<char>::empty()
                }
            }),
    {
        let len = rope_len_chars(&self.text);
        let s = if start.0 <= len {
            start.0
        } else {
            len
        };
        let e = if end.0 <= len {
            end.0
        } else {
            len
        };
        if s < e {
            crate::rope::rope_slice_string(&self.text, s, e)
        } else {
            proof {
                vstd::string::axiom_str_literal_len("");
            }
            String::new()
        }
    }

    /// The text of line `line_idx`, including its terminating newline, or
    /// nothing for a line index past the end.
    pub fn line(&self, line_idx: usize) -> (r: Option<String>)
        ensures
            ({
                let t = self.text_of();
                match r {
                    Some(l) => line_idx < crate::rope::line_count(t) && l@ == t.subrange(
                        crate::rope::line_start(t, line_idx as int),
                        crate::rope::line_start(t, line_idx as int + 1),
                    ),
                    None => line_idx >= crate::rope::line_count(t),
                }
            }),
    {
        let ghost t = self.text_of();
        let total = crate::rope::rope_len_lines(&self.text);
        if line_idx >= total {
            return None;
        }
        let start = crate::rope::rope_line_to_char(&self.text, line_idx);
        let nxt = crate::rope::rope_line_to_char(&self.text, line_idx + 1);
        proof {
            crate::rope::lemma_line_start_bounds(t, line_idx as int);
            crate::rope::lemma_line_start_bounds(t, line_idx as int + 1);
            crate::rope_ext::lemma_line_start_mono(t, line_idx as int);
        }
        Some(crate::rope::rope_slice_string(&self.text, start, nxt))
    }

    pub fn add_undo_boundary(&mut self)
        ensures
            final(self).undo_tree.model() == crate::undo::break_coalesce_m(
                old(self).undo_tree.model(),
            ),
            *final(self) == (Buffer { undo_tree: final(self).undo_tree, ..*old(self) }),
            old(self).wf() ==> final(self).wf(),
    {
        self.undo_tree.add_boundary();
    }

    pub fn break_undo_coalesce(&mut self)
        ensures
            final(self).undo_tree.model() == crate::undo::break_coalesce_m(
                old(self).undo_tree.model(),
            ),
            *final(self) == (Buffer { undo_tree: final(self).undo_tree, ..*old(self) }),
            old(self).wf() ==> final(self).wf(),
    {
        self.undo_tree.break_coalesce();
    }

    pub fn set_undo_cursors(&mut self, cursors: &CursorSet)
        ensures
            *final(self) == (Buffer { undo_tree: final(self).undo_tree, ..*old(self) }),
            old(self).wf() ==> final(self).wf(),
    {
        let snapshot = cursors.clone();
        self.undo_tree.set_cursors_before(snapshot);
    }

    /// Insert `c` at every cursor.
    pub fn insert_char(&mut self, cursors: &mut CursorSet, c: char)
        requires
            old(cursors).bounded(rope_text(&old(self).text).len() as int),
            old(self).wf(),
        ensures
            final(self).wf(),
            final(cursors).bounded(rope_text(&final(self).text).len() as int),
            !old(self).read_only ==> rope_text(&final(self).text) == splice_descending(
                rope_text(&old(self).text),
                sort_desc(positions_of(old(cursors).all_seq())),
                seq![c],
            ),
            !old(self).read_only ==> final(cursors).all_seq() == sort_merge_m(
                advance_all(
                    insert_chain(
                        old(cursors).all_seq(),
                        rope_text(&old(self).text),
                        sort_desc(positions_of(old(cursors).all_seq())),
                        seq![c],
                    ),
                    1,
                ),
            ),
            !old(self).read_only ==> final(self).undo_tree.model() == tree_after_insert_string(
                old(self).undo_tree.model(),
                old(cursors).all_seq(),
                rope_text(&old(self).text),
                sort_desc(positions_of(old(cursors).all_seq())),
                seq![c],
            ),
            !old(self).read_only ==> final(self).modified,
            old(self).read_only ==> *final(self) == *old(self) && *final(cursors) == *old(cursors),
            final(self).read_only == old(self).read_only,
            final(self).id == old(self).id,
            sorted_strict(final(cursors).all_seq()) || old(self).read_only,
    {
        let s = crate::chars::char_to_string(c);
        self.insert_string(cursors, s.as_str());
    }

    /// Insert `s` at every cursor, highest position first so pending
    /// positions stay valid; afterwards every cursor has advanced past its
    /// insertion, marks are deactivated, and colliding cursors are merged.
    /// A read-only buffer is left untouched.
    #[verifier::loop_isolation(false)]
    pub fn insert_string(&mut self, cursors: &mut CursorSet, s: &str)
        requires
            old(cursors).bounded(rope_text(&old(self).text).len() as int),
            old(self).wf(),
        ensures
            final(self).wf(),
            final(cursors).bounded(rope_text(&final(self).text).len() as int),
            !old(self).read_only && s@.len() > 0 ==> rope_text(&final(self).text)
                == splice_descending(
                rope_text(&old(self).text),
                sort_desc(positions_of(old(cursors).all_seq())),
                s@,
            ),
            !old(self).read_only && s@.len() > 0 ==> final(cursors).all_seq() == sort_merge_m(
                advance_all(
                    insert_chain(
                        old(cursors).all_seq(),
                        rope_text(&old(self).text),
                        sort_desc(positions_of(old(cursors).all_seq())),
                        s@,
                    ),
                    s@.len() as int,
                ),
            ),
            !old(self).read_only && s@.len() > 0 ==> final(self).undo_tree.model()
                == tree_after_insert_string(
                old(self).undo_tree.model(),
                old(cursors).all_seq(),
                rope_text(&old(self).text),
                sort_desc(positions_of(old(cursors).all_seq())),
                s@,
            ),
            !old(self).read_only && s@.len() > 0 ==> final(self).modified,
            old(self).read_only || s@.len() == 0 ==> *final(self) == *old(self) && *final(cursors)
                == *old(cursors),
            final(self).read_only == old(self).read_only,
            final(self).id == old(self).id,
            sorted_strict(final(cursors).all_seq()) || old(self).read_only || s@.len() == 0,
    {
        if self.read_only || s.unicode_len() == 0 {
            return ;
        }
        let ghost t0 = rope_text(&self.text);
        let ghost slen = s@.len() as int;
        let is_newline = str_has_newline(s);
        if is_newline {
            self.undo_tree.add_boundary();
        }
        let ghost m1 = self.undo_tree.model();
        let snapshot = cursors.clone();
        proof {
            assert(snapshot.all_seq() =~= old(cursors).all_seq());
        }
        self.undo_tree.set_cursors_before(snapshot);
        let ghost m2 = self.undo_tree.model();
        let positions = cursors.positions_descending();
        let ghost ps = sort_desc(positions_of(old(cursors).all_seq()));
        proof {
            lemma_sort_desc_max(positions_of(old(cursors).all_seq()));
            assert(ps.len() == old(cursors).all_seq().len());
        }
        let char_count = s.unicode_len();
        self.undo_tree.begin_batch();
        let ghost m3 = self.undo_tree.model();
        let n = positions.len();
        let len0 = rope_len_chars(&self.text);
        let ghost pbound = t0.len() as int;
        let mut k: usize = 0;
        proof {
            assert(ps.take(0) =~= Seq::<usize>::empty());
            assert(ps.skip(0) =~= ps);
            assert forall|i: int| 0 <= i < cursors.all_seq().len() implies (
            #[trigger] cursors.all_seq()[i]).position.0 <= ps[0] by {
                assert(positions_of(old(cursors).all_seq())[i] == old(cursors).all_seq()[i].position.0);
            }
        }
        while k < n
            invariant
                k <= n,
                n == ps.len(),
                n >= 1,
                crate::cursor::positions_of_offsets(positions@) == ps,
                rope_text(&self.text) == splice_descending(t0, ps.take(k as int), s@),
                insert_chain(cursors.all_seq(), rope_text(&self.text), ps.skip(k as int), s@)
                    == insert_chain(old(cursors).all_seq(), t0, ps, s@),
                record_insert_run(self.undo_tree.model(), rope_text(&self.text), ps.skip(k as int), s@)
                    == record_insert_run(m3, t0, ps, s@),
                rope_text(&self.text).len() <= usize::MAX,
                k == 0 ==> pbound == rope_text(&self.text).len(),
                k >= 1 ==> pbound == rope_text(&self.text).len() - slen,
                self.undo_tree.model().batch_depth == 1,
                UndoTree::wf_m(self.undo_tree.model()),
                self.read_only == old(self).read_only,
                self.modified == old(self).modified,
                self.id == old(self).id,
                self.name == old(self).name,
                self.file_path == old(self).file_path,
                self.mark_ring == old(self).mark_ring,
                self.mode == old(self).mode,
                cursors.all_seq().len() == old(cursors).all_seq().len(),
                forall|i: int|
                    0 <= i < cursors.all_seq().len() ==> (#[trigger] cursors.all_seq()[i]).position.0
                        <= pbound,
                k == 0 ==> (forall|i: int|
                    0 <= i < cursors.all_seq().len() ==> (#[trigger] cursors.all_seq()[i]).position.0
                        <= ps[0]),
                forall|i: int|
                    0 <= i < cursors.all_seq().len() ==> ((#[trigger] cursors.all_seq()[i]).mark
                        is Some ==> cursors.all_seq()[i].mark.unwrap().0 <= rope_text(
                        &self.text,
                    ).len()),
            decreases n - k,
        {
            let pos = positions[k];
            proof {
                assert(crate::cursor::positions_of_offsets(positions@)[k as int]
                    == positions@[k as int].0);
            }
            let cur_len = rope_len_chars(&self.text);
            let char_idx = if pos.0 <= cur_len {
                pos.0
            } else {
                cur_len
            };
            rope_insert(&mut self.text, char_idx, s);
            let new_len = rope_len_chars(&self.text);
            proof {
                assert(rope_text(&self.text) =~= splice_at(
                    splice_descending(t0, ps.take(k as int), s@),
                    ps[k as int] as int,
                    s@,
                ));
                assert(ps.take(k as int + 1) =~= ps.take(k as int).push(ps[k as int]));
                lemma_splice_snoc(t0, ps.take(k as int), ps[k as int], s@);
            }
            self.undo_tree.record_insert(CharOffset(char_idx), s.to_owned());
            let ghost pre_seq = cursors.all_seq();
            proof {
                if k == 0 {
                    assert forall|i: int| 0 <= i < pre_seq.len() implies (
                    #[trigger] pre_seq[i]).position.0 <= char_idx by {}
                }
                assert(crate::cursor::insert_shift_fits(pre_seq, char_count as int));
            }
            cursors.adjust_positions_after_insert(CharOffset(char_idx), char_count);
            proof {
                assert(cursors.all_seq() =~= adjust_all_insert(
                    pre_seq,
                    char_idx as int,
                    char_count as int,
                )) by {
                    assert forall|w: int| 0 <= w < pre_seq.len() implies adjust_all_insert(
                        pre_seq,
                        char_idx as int,
                        char_count as int,
                    )[w] == cursors.all_seq()[w] by {
                        assert(adjust_all_insert(pre_seq, char_idx as int, char_count as int)[w]
                            == cursor_after_insert(pre_seq[w], char_idx as int, char_count as int));
                    }
                }
                assert(ps.skip(k as int)[0] == ps[k as int]);
                assert(ps.skip(k as int).drop_first() =~= ps.skip(k as int + 1));
                let newb: int = if k == 0 {
                    pbound
                } else {
                    pbound + slen
                };
                assert forall|i: int| 0 <= i < cursors.all_seq().len() implies (
                #[trigger] cursors.all_seq()[i]).position.0 <= newb && (cursors.all_seq()[i].mark
                    is Some ==> cursors.all_seq()[i].mark.unwrap().0 <= rope_text(
                    &self.text,
                ).len()) by {
                    assert(cursors.all_seq()[i] == crate::cursor::cursor_after_insert(
                        pre_seq[i],
                        char_idx as int,
                        char_count as int,
                    ));
                    if k == 0 {
                        assert(pre_seq[i].position.0 <= char_idx);
                    }
                }
            }
            proof {
                pbound = if k == 0 {
                    pbound
                } else {
                    pbound + slen
                };
            }
            k += 1;
        }
        let ghost m4 = self.undo_tree.model();
        self.undo_tree.end_batch();
        proof {
            assert(ps.take(n as int) =~= ps);
            assert(ps.skip(n as int) =~= Seq::<usize>::empty());
            assert(m4 == record_insert_run(m3, t0, ps, s@));
            let ghost chain = insert_chain(old(cursors).all_seq(), t0, ps, s@);
            assert(cursors.all_seq() == chain);
        }
        let final_len = rope_len_chars(&self.text);
        let ghost pre_adv = cursors.all_seq();
        let p0 = cursors.primary.position.0;
        proof {
            assert(pre_adv[0] == cursors.primary);
        }
        cursors.primary.position = CharOffset(p0 + char_count);
        cursors.primary.mark_active = false;
        let mut j: usize = 0;
        while j < cursors.secondary.len()
            invariant
                j <= cursors.secondary@.len(),
                cursors.secondary@.len() == pre_adv.len() - 1,
                cursors.primary.position.0 <= final_len,
                cursors.primary == (crate::cursor::Cursor {
                    position: CharOffset((pre_adv[0].position.0 + char_count) as usize),
                    mark_active: false,
                    ..pre_adv[0]
                }),
                cursors.primary.mark == pre_adv[0].mark,
                forall|i: int|
                    0 <= i < j ==> #[trigger] cursors.secondary@[i] == (crate::cursor::Cursor {
                        position: CharOffset((pre_adv[i + 1].position.0 + char_count) as usize),
                        mark_active: false,
                        ..pre_adv[i + 1]
                    }),
                forall|i: int|
                    j <= i < cursors.secondary@.len() ==> #[trigger] cursors.secondary@[i]
                        == pre_adv[i + 1],
            decreases cursors.secondary@.len() - j,
        {
            proof {
                assert(pre_adv[j + 1].position.0 <= pbound);
            }
            let pj = cursors.secondary[j].position.0;
            cursors.secondary[j].position = CharOffset(pj + char_count);
            cursors.secondary[j].mark_active = false;
            j += 1;
        }
        self.modified = true;
        let ghost post_adv = cursors.all_seq();
        proof {
            assert forall|i: int| 0 <= i < post_adv.len() implies cursor_bounded(
                #[trigger] post_adv[i],
                rope_text(&self.text).len() as int,
            ) by {
                if i > 0 {
                    assert(post_adv[i] == cursors.secondary@[i - 1]);
                }
            }
            let ghost chain = insert_chain(old(cursors).all_seq(), t0, ps, s@);
            assert(post_adv =~= advance_all(chain, s@.len() as int)) by {
                assert forall|w: int| 0 <= w < chain.len() implies advance_all(
                    chain,
                    s@.len() as int,
                )[w] == post_adv[w] by {
                    assert(advance_all(chain, s@.len() as int)[w] == Cursor {
                        position: CharOffset((chain[w].position.0 + s@.len()) as usize),
                        mark_active: false,
                        ..chain[w]
                    });
                    if w == 0 {
                        assert(post_adv[0] == cursors.primary);
                        assert(pre_adv[0] == chain[0]);
                    } else {
                        assert(post_adv[w] == cursors.secondary@[w - 1]);
                        assert(pre_adv[w] == chain[w]);
                    }
                }
            }
        }
        cursors.sort_and_merge();
        proof {
            assert forall|i: int| 0 <= i < cursors.all_seq().len() implies cursor_bounded(
                #[trigger] cursors.all_seq()[i],
                rope_text(&self.text).len() as int,
            ) by {
                assert(post_adv.contains(cursors.all_seq()[i]));
                let w = choose|w: int| 0 <= w < post_adv.len() && post_adv[w] == cursors.all_seq()[i];
                assert(cursor_bounded(post_adv[w], rope_text(&self.text).len() as int));
            }
        }
        if is_newline {
            self.undo_tree.add_boundary();
        }
    }
}


/// The text after deleting, for each position in turn, the char there (when
/// the position is still in bounds).
pub open spec fn del_fwd_text(t: Seq<char>, ps: Seq<usize>) -> Seq<char>
    decreases ps.len(),
{
    if ps.len() == 0 {
        t
    } else {
        let t1 = if ps[0] < t.len() {
            t.take(ps[0] as int) + t.skip(ps[0] as int + 1)
        } else {
            t
        };
        del_fwd_text(t1, ps.drop_first())
    }
}

/// The cursors threaded through the forward-deletion run.
pub open spec fn del_fwd_cursors(cs: Seq<Cursor>, t: Seq<char>, ps: Seq<usize>) -> Seq<Cursor>
    decreases ps.len(),
{
    if ps.len() == 0 {
        cs
    } else if ps[0] < t.len() {
        del_fwd_cursors(
            adjust_all_delete(cs, ps[0] as int, ps[0] + 1),
            t.take(ps[0] as int) + t.skip(ps[0] + 1),
            ps.drop_first(),
        )
    } else {
        del_fwd_cursors(cs, t, ps.drop_first())
    }
}

/// The undo history threaded through the forward-deletion run.
pub open spec fn del_fwd_tree(m: crate::undo::TreeM, t: Seq<char>, ps: Seq<usize>) -> crate::undo::TreeM
    decreases ps.len(),
{
    if ps.len() == 0 {
        m
    } else if ps[0] < t.len() {
        del_fwd_tree(
            crate::undo::record_delete_m(m, ps[0] as int, seq![t[ps[0] as int]]),
            t.take(ps[0] as int) + t.skip(ps[0] + 1),
            ps.drop_first(),
        )
    } else {
        del_fwd_tree(m, t, ps.drop_first())
    }
}

/// The cursors threaded through the backward-deletion run.
pub open spec fn del_bwd_cursors(cs: Seq<Cursor>, t: Seq<char>, ps: Seq<usize>) -> Seq<Cursor>
    decreases ps.len(),
{
    if ps.len() == 0 {
        cs
    } else if 0 < ps[0] && ps[0] <= t.len() {
        del_bwd_cursors(
            adjust_all_delete(cs, ps[0] - 1, ps[0] as int),
            t.take(ps[0] - 1) + t.skip(ps[0] as int),
            ps.drop_first(),
        )
    } else {
        del_bwd_cursors(cs, t, ps.drop_first())
    }
}

/// The undo history threaded through the backward-deletion run.
pub open spec fn del_bwd_tree(m: crate::undo::TreeM, t: Seq<char>, ps: Seq<usize>) -> crate::undo::TreeM
    decreases ps.len(),
{
    if ps.len() == 0 {
        m
    } else if 0 < ps[0] && ps[0] <= t.len() {
        del_bwd_tree(
            crate::undo::record_delete_m(m, ps[0] - 1, seq![t[ps[0] - 1]]),
            t.take(ps[0] - 1) + t.skip(ps[0] as int),
            ps.drop_first(),
        )
    } else {
        del_bwd_tree(m, t, ps.drop_first())
    }
}

/// The last char such a deletion run removes, if any position was in bounds.
pub open spec fn del_fwd_last(t: Seq<char>, ps: Seq<usize>) -> Option<char>
    decreases ps.len(),
{
    if ps.len() == 0 {
        None
    } else {
        let c = if ps[0] < t.len() {
            Some(t[ps[0] as int])
        } else {
            None::<char>
        };
        let t1 = if ps[0] < t.len() {
            t.take(ps[0] as int) + t.skip(ps[0] as int + 1)
        } else {
            t
        };
        let rest = del_fwd_last(t1, ps.drop_first());
        if rest is Some {
            rest
        } else {
            c
        }
    }
}

/// The text after deleting, for each position in turn, the char before it
/// (when there is one).
pub open spec fn del_bwd_text(t: Seq<char>, ps: Seq<usize>) -> Seq<char>
    decreases ps.len(),
{
    if ps.len() == 0 {
        t
    } else {
        let t1 = if 0 < ps[0] && ps[0] <= t.len() {
            t.take(ps[0] as int - 1) + t.skip(ps[0] as int)
        } else {
            t
        };
        del_bwd_text(t1, ps.drop_first())
    }
}

/// The last char such a backward run removes, if any.
pub open spec fn del_bwd_last(t: Seq<char>, ps: Seq<usize>) -> Option<char>
    decreases ps.len(),
{
    if ps.len() == 0 {
        None
    } else {
        let c = if 0 < ps[0] && ps[0] <= t.len() {
            Some(t[ps[0] as int - 1])
        } else {
            None::<char>
        };
        let t1 = if 0 < ps[0] && ps[0] <= t.len() {
            t.take(ps[0] as int - 1) + t.skip(ps[0] as int)
        } else {
            t
        };
        let rest = del_bwd_last(t1, ps.drop_first());
        if rest is Some {
            rest
        } else {
            c
        }
    }
}

impl Buffer {
    /// Delete the char at each cursor, highest position first. Returns the
    /// last char removed, or nothing if every cursor sat at the end.
    #[verifier::loop_isolation(false)]
    pub fn delete_char_forward(&mut self, cursors: &mut CursorSet) -> (r: Option<char>)
        requires
            old(cursors).bounded(rope_text(&old(self).text).len() as int),
            old(self).wf(),
        ensures
            final(self).wf(),
            final(cursors).bounded(rope_text(&final(self).text).len() as int),
            old(self).read_only ==> *final(self) == *old(self) && *final(cursors) == *old(cursors)
                && r is None,
            !old(self).read_only ==> {
                &&& rope_text(&final(self).text) == del_fwd_text(
                    rope_text(&old(self).text),
                    sort_desc(positions_of(old(cursors).all_seq())),
                )
                &&& r == del_fwd_last(
                    rope_text(&old(self).text),
                    sort_desc(positions_of(old(cursors).all_seq())),
                )
                &&& final(cursors).all_seq() == sort_merge_m(
                    del_fwd_cursors(
                        old(cursors).all_seq(),
                        rope_text(&old(self).text),
                        sort_desc(positions_of(old(cursors).all_seq())),
                    ),
                )
                &&& final(self).undo_tree.model() == crate::undo::end_batch_m(
                    del_fwd_tree(
                        crate::undo::TreeM {
                            batch_depth: old(self).undo_tree.model().batch_depth + 1,
                            ..old(self).undo_tree.model()
                        },
                        rope_text(&old(self).text),
                        sort_desc(positions_of(old(cursors).all_seq())),
                    ),
                )
                &&& (r is Some ==> final(self).modified)
                &&& sorted_strict(final(cursors).all_seq())
            },
            final(self).read_only == old(self).read_only,
            final(self).id == old(self).id,
    {
        if self.read_only {
            return None;
        }
        let ghost t0 = rope_text(&self.text);
        let positions = cursors.positions_descending();
        let ghost ps = sort_desc(positions_of(old(cursors).all_seq()));
        let mut deleted: Option<char> = None;
        self.undo_tree.begin_batch();
        let ghost m3 = self.undo_tree.model();
        let n = positions.len();
        let mut k: usize = 0;
        proof {
            assert(ps.skip(0) =~= ps);
        }
        while k < n
            invariant
                k <= n,
                n == ps.len(),
                crate::cursor::positions_of_offsets(positions@) == ps,
                del_fwd_text(t0, ps) == del_fwd_text(rope_text(&self.text), ps.skip(k as int)),
                del_fwd_cursors(cursors.all_seq(), rope_text(&self.text), ps.skip(k as int))
                    == del_fwd_cursors(old(cursors).all_seq(), t0, ps),
                del_fwd_tree(self.undo_tree.model(), rope_text(&self.text), ps.skip(k as int))
                    == del_fwd_tree(m3, t0, ps),
                del_fwd_last(t0, ps) == ({
                    let rest = del_fwd_last(rope_text(&self.text), ps.skip(k as int));
                    if rest is Some {
                        rest
                    } else {
                        deleted
                    }
                }),
                self.undo_tree.model().batch_depth == 1,
                UndoTree::wf_m(self.undo_tree.model()),
                self.read_only == old(self).read_only,
                self.id == old(self).id,
                self.name == old(self).name,
                self.file_path == old(self).file_path,
                self.mark_ring == old(self).mark_ring,
                self.mode == old(self).mode,
                self.modified == (old(self).modified || deleted is Some),
                cursors.all_seq().len() == old(cursors).all_seq().len(),
                forall|i: int|
                    0 <= i < cursors.all_seq().len() ==> cursor_bounded(
                        #[trigger] cursors.all_seq()[i],
                        rope_text(&self.text).len() as int,
                    ),
            decreases n - k,
        {
            let pos = positions[k];
            proof {
                assert(crate::cursor::positions_of_offsets(positions@)[k as int]
                    == positions@[k as int].0);
                assert(ps.skip(k as int)[0] == ps[k as int]);
                assert(ps.skip(k as int).drop_first() =~= ps.skip(k as int + 1));
            }
            let cur_len = rope_len_chars(&self.text);
            if pos.0 < cur_len {
                let c = crate::rope::rope_char(&self.text, pos.0);
                deleted = Some(c);
                let ctext = crate::chars::char_to_string(c);
                self.undo_tree.record_delete(pos, ctext);
                crate::rope::rope_remove(&mut self.text, pos.0, pos.0 + 1);
                self.modified = true;
                let ghost pre_seq = cursors.all_seq();
                cursors.adjust_positions_after_delete(pos, CharOffset(pos.0 + 1));
                proof {
                    assert(cursors.all_seq() =~= adjust_all_delete(
                        pre_seq,
                        pos.0 as int,
                        pos.0 + 1,
                    )) by {
                        assert forall|w: int| 0 <= w < pre_seq.len() implies adjust_all_delete(
                            pre_seq,
                            pos.0 as int,
                            pos.0 + 1,
                        )[w] == cursors.all_seq()[w] by {
                            assert(adjust_all_delete(pre_seq, pos.0 as int, pos.0 + 1)[w]
                                == cursor_after_delete(pre_seq[w], pos.0 as int, pos.0 + 1));
                        }
                    }
                    assert forall|i: int| 0 <= i < cursors.all_seq().len() implies cursor_bounded(
                        #[trigger] cursors.all_seq()[i],
                        rope_text(&self.text).len() as int,
                    ) by {}
                }
            }
            k += 1;
        }
        self.undo_tree.end_batch();
        proof {
            assert(ps.skip(n as int) =~= Seq::<usize>::empty());
            assert(cursors.all_seq() == del_fwd_cursors(old(cursors).all_seq(), t0, ps));
        }
        let ghost pre_sort = cursors.all_seq();
        cursors.sort_and_merge();
        proof {
            assert forall|i: int| 0 <= i < cursors.all_seq().len() implies cursor_bounded(
                #[trigger] cursors.all_seq()[i],
                rope_text(&self.text).len() as int,
            ) by {
                assert(pre_sort.contains(cursors.all_seq()[i]));
                let w = choose|w: int| 0 <= w < pre_sort.len() && pre_sort[w] == cursors.all_seq()[i];
                assert(cursor_bounded(pre_sort[w], rope_text(&self.text).len() as int));
            }
        }
        deleted
    }

    /// Delete the char before each cursor, highest position first. Returns
    /// the last char removed, or nothing if every cursor sat at the start.
    #[verifier::loop_isolation(false)]
    pub fn delete_char_backward(&mut self, cursors: &mut CursorSet) -> (r: Option<char>)
        requires
            old(cursors).bounded(rope_text(&old(self).text).len() as int),
            old(self).wf(),
        ensures
            final(self).wf(),
            final(cursors).bounded(rope_text(&final(self).text).len() as int),
            old(self).read_only ==> *final(self) == *old(self) && *final(cursors) == *old(cursors)
                && r is None,
            !old(self).read_only ==> {
                &&& rope_text(&final(self).text) == del_bwd_text(
                    rope_text(&old(self).text),
                    sort_desc(positions_of(old(cursors).all_seq())),
                )
                &&& r == del_bwd_last(
                    rope_text(&old(self).text),
                    sort_desc(positions_of(old(cursors).all_seq())),
                )
                &&& final(cursors).all_seq() == sort_merge_m(
                    del_bwd_cursors(
                        old(cursors).all_seq(),
                        rope_text(&old(self).text),
                        sort_desc(positions_of(old(cursors).all_seq())),
                    ),
                )
                &&& final(self).undo_tree.model() == crate::undo::end_batch_m(
                    del_bwd_tree(
                        crate::undo::TreeM {
                            batch_depth: old(self).undo_tree.model().batch_depth + 1,
                            ..old(self).undo_tree.model()
                        },
                        rope_text(&old(self).text),
                        sort_desc(positions_of(old(cursors).all_seq())),
                    ),
                )
                &&& (r is Some ==> final(self).modified)
                &&& sorted_strict(final(cursors).all_seq())
            },
            final(self).read_only == old(self).read_only,
            final(self).id == old(self).id,
    {
        if self.read_only {
            return None;
        }
        let ghost t0 = rope_text(&self.text);
        let positions = cursors.positions_descending();
        let ghost ps = sort_desc(positions_of(old(cursors).all_seq()));
        let mut deleted: Option<char> = None;
        self.undo_tree.begin_batch();
        let ghost m3 = self.undo_tree.model();
        let n = positions.len();
        let mut k: usize = 0;
        proof {
            assert(ps.skip(0) =~= ps);
        }
        while k < n
            invariant
                k <= n,
                n == ps.len(),
                crate::cursor::positions_of_offsets(positions@) == ps,
                del_bwd_text(t0, ps) == del_bwd_text(rope_text(&self.text), ps.skip(k as int)),
                del_bwd_cursors(cursors.all_seq(), rope_text(&self.text), ps.skip(k as int))
                    == del_bwd_cursors(old(cursors).all_seq(), t0, ps),
                del_bwd_tree(self.undo_tree.model(), rope_text(&self.text), ps.skip(k as int))
                    == del_bwd_tree(m3, t0, ps),
                del_bwd_last(t0, ps) == ({
                    let rest = del_bwd_last(rope_text(&self.text), ps.skip(k as int));
                    if rest is Some {
                        rest
                    } else {
                        deleted
                    }
                }),
                self.undo_tree.model().batch_depth == 1,
                UndoTree::wf_m(self.undo_tree.model()),
                self.read_only == old(self).read_only,
                self.id == old(self).id,
                self.name == old(self).name,
                self.file_path == old(self).file_path,
                self.mark_ring == old(self).mark_ring,
                self.mode == old(self).mode,
                self.modified == (old(self).modified || deleted is Some),
                cursors.all_seq().len() == old(cursors).all_seq().len(),
                forall|i: int|
                    0 <= i < cursors.all_seq().len() ==> cursor_bounded(
                        #[trigger] cursors.all_seq()[i],
                        rope_text(&self.text).len() as int,
                    ),
            decreases n - k,
        {
            let pos = positions[k];
            proof {
                assert(crate::cursor::positions_of_offsets(positions@)[k as int]
                    == positions@[k as int].0);
                assert(ps.skip(k as int)[0] == ps[k as int]);
                assert(ps.skip(k as int).drop_first() =~= ps.skip(k as int + 1));
            }
            let cur_len = rope_len_chars(&self.text);
            if pos.0 > 0 && pos.0 <= cur_len {
                let char_idx = pos.0 - 1;
                let c = crate::rope::rope_char(&self.text, char_idx);
                deleted = Some(c);
                let ctext = crate::chars::char_to_string(c);
                self.undo_tree.record_delete(CharOffset(char_idx), ctext);
                crate::rope::rope_remove(&mut self.text, char_idx, char_idx + 1);
                self.modified = true;
                let ghost pre_seq = cursors.all_seq();
                cursors.adjust_positions_after_delete(CharOffset(char_idx), pos);
                proof {
                    assert(cursors.all_seq() =~= adjust_all_delete(
                        pre_seq,
                        char_idx as int,
                        pos.0 as int,
                    )) by {
                        assert forall|w: int| 0 <= w < pre_seq.len() implies adjust_all_delete(
                            pre_seq,
                            char_idx as int,
                            pos.0 as int,
                        )[w] == cursors.all_seq()[w] by {
                            assert(adjust_all_delete(pre_seq, char_idx as int, pos.0 as int)[w]
                                == cursor_after_delete(pre_seq[w], char_idx as int, pos.0 as int));
                        }
                    }
                    assert forall|i: int| 0 <= i < cursors.all_seq().len() implies cursor_bounded(
                        #[trigger] cursors.all_seq()[i],
                        rope_text(&self.text).len() as int,
                    ) by {}
                }
            }
            k += 1;
        }
        self.undo_tree.end_batch();
        proof {
            assert(ps.skip(n as int) =~= Seq::<usize>::empty());
            assert(cursors.all_seq() == del_bwd_cursors(old(cursors).all_seq(), t0, ps));
        }
        let ghost pre_sort = cursors.all_seq();
        cursors.sort_and_merge();
        proof {
            assert forall|i: int| 0 <= i < cursors.all_seq().len() implies cursor_bounded(
                #[trigger] cursors.all_seq()[i],
                rope_text(&self.text).len() as int,
            ) by {
                assert(pre_sort.contains(cursors.all_seq()[i]));
                let w = choose|w: int| 0 <= w < pre_sort.len() && pre_sort[w] == cursors.all_seq()[i];
                assert(cursor_bounded(pre_sort[w], rope_text(&self.text).len() as int));
            }
        }
        deleted
    }

    /// Delete `[start, end)` as one undo group of its own, returning the
    /// removed text. Inverted, empty, or read-only requests return empty text
    /// and change nothing.
    pub fn delete_region(&mut self, cursors: &mut CursorSet, start: CharOffset, end: CharOffset) -> (r: String)
        requires
            old(cursors).bounded(rope_text(&old(self).text).len() as int),
            old(self).wf(),
        ensures
            final(self).wf(),
            final(cursors).bounded(rope_text(&final(self).text).len() as int),
            ({
                let t = rope_text(&old(self).text);
                let s0 = if start.0 <= t.len() {
                    start.0 as int
                } else {
                    t.len() as int
                };
                let e0 = if end.0 <= t.len() {
                    end.0 as int
                } else {
                    t.len() as int
                };
                if old(self).read_only || start.0 >= end.0 || s0 >= e0 {
                    *final(self) == *old(self) && *final(cursors) == *old(cursors) && r@
                        == Seq::<char>::empty()
                } else {
                    &&& rope_text(&final(self).text) == t.take(s0) + t.skip(e0)
                    &&& r@ == t.subrange(s0, e0)
                    &&& final(cursors).all_seq() == sort_merge_m(
                        adjust_all_delete(old(cursors).all_seq(), start.0 as int, end.0 as int),
                    )
                    &&& final(self).undo_tree.model() == crate::undo::break_coalesce_m(
                        crate::undo::record_delete_m(
                            crate::undo::break_coalesce_m(old(self).undo_tree.model()),
                            start.0 as int,
                            t.subrange(s0, e0),
                        ),
                    )
                    &&& final(self).modified
                    &&& sorted_strict(final(cursors).all_seq())
                    &&& final(self).mark_ring.marks_seq().len() == old(
                        self,
                    ).mark_ring.marks_seq().len()
                    &&& (forall|i: int|
                        0 <= i < old(self).mark_ring.marks_seq().len() ==> (#[trigger] final(self).mark_ring.marks_seq()[i]).0.0 == crate::cursor::pos_after_delete(
                            old(self).mark_ring.marks_seq()[i].0.0 as int,
                            start.0 as int,
                            end.0 as int,
                        ))
                }
            }),
            final(self).read_only == old(self).read_only,
            final(self).id == old(self).id,
    {
        proof {
            vstd::string::axiom_str_literal_len("");
        }
        if self.read_only || start.0 >= end.0 {
            return String::new();
        }
        let len = rope_len_chars(&self.text);
        let start_idx = if start.0 <= len {
            start.0
        } else {
            len
        };
        let end_idx = if end.0 <= len {
            end.0
        } else {
            len
        };
        if start_idx >= end_idx {
            return String::new();
        }
        self.undo_tree.break_coalesce();
        let deleted = crate::rope::rope_slice_string(&self.text, start_idx, end_idx);
        let recorded = deleted.clone();
        self.undo_tree.record_delete(start, recorded);
        crate::rope::rope_remove(&mut self.text, start_idx, end_idx);
        let ghost pre_seq = cursors.all_seq();
        cursors.adjust_positions_after_delete(start, end);
        proof {
            assert(cursors.all_seq() =~= adjust_all_delete(
                pre_seq,
                start.0 as int,
                end.0 as int,
            )) by {
                assert forall|w: int| 0 <= w < pre_seq.len() implies adjust_all_delete(
                    pre_seq,
                    start.0 as int,
                    end.0 as int,
                )[w] == cursors.all_seq()[w] by {
                    assert(adjust_all_delete(pre_seq, start.0 as int, end.0 as int)[w]
                        == cursor_after_delete(pre_seq[w], start.0 as int, end.0 as int));
                }
            }
        }
        self.mark_ring.adjust_after_delete(start, end);
        self.modified = true;
        let ghost pre_sort = cursors.all_seq();
        proof {
            assert forall|i: int| 0 <= i < pre_sort.len() implies cursor_bounded(
                #[trigger] pre_sort[i],
                rope_text(&self.text).len() as int,
            ) by {}
        }
        cursors.sort_and_merge();
        proof {
            assert forall|i: int| 0 <= i < cursors.all_seq().len() implies cursor_bounded(
                #[trigger] cursors.all_seq()[i],
                rope_text(&self.text).len() as int,
            ) by {
                assert(pre_sort.contains(cursors.all_seq()[i]));
                let w = choose|w: int| 0 <= w < pre_sort.len() && pre_sort[w] == cursors.all_seq()[i];
            }
        }
        self.undo_tree.break_coalesce();
        deleted
    }
}


/// The regions worth deleting: those with `start < end`, in caller order.
pub open spec fn keep_regions(v: Seq<(CursorId, CharOffset, CharOffset)>) -> Seq<
    (CursorId, CharOffset, CharOffset),
>
    decreases v.len(),
{
    if v.len() == 0 {
        Seq::empty()
    } else if v[0].1.0 < v[0].2.0 {
        seq![v[0]] + keep_regions(v.drop_first())
    } else {
        keep_regions(v.drop_first())
    }
}

/// A region inserted before the first one whose start is not smaller.
pub open spec fn insert_desc_region(
    s: Seq<(CursorId, CharOffset, CharOffset)>,
    x: (CursorId, CharOffset, CharOffset),
) -> Seq<(CursorId, CharOffset, CharOffset)>
    decreases s.len(),
{
    if s.len() == 0 {
        seq![x]
    } else if x.1.0 >= s[0].1.0 {
        seq![x] + s
    } else {
        seq![s[0]] + insert_desc_region(s.drop_first(), x)
    }
}

/// The regions sorted by start, high to low.
pub open spec fn sort_desc_regions(s: Seq<(CursorId, CharOffset, CharOffset)>) -> Seq<
    (CursorId, CharOffset, CharOffset),
>
    decreases s.len(),
{
    if s.len() == 0 {
        Seq::empty()
    } else {
        insert_desc_region(sort_desc_regions(s.drop_first()), s[0])
    }
}

/// One region deletion, clamped to the text.
pub open spec fn del_region_step(t: Seq<char>, start: int, end: int) -> Seq<char> {
    let s0 = if start <= t.len() {
        start
    } else {
        t.len() as int
    };
    let e0 = if end <= t.len() {
        end
    } else {
        t.len() as int
    };
    if s0 < e0 {
        t.take(s0) + t.skip(e0)
    } else {
        t
    }
}

/// The text after deleting each region in turn.
pub open spec fn del_regions_text(
    t: Seq<char>,
    ops: Seq<(CursorId, CharOffset, CharOffset)>,
) -> Seq<char>
    decreases ops.len(),
{
    if ops.len() == 0 {
        t
    } else {
        del_regions_text(
            del_region_step(t, ops[0].1.0 as int, ops[0].2.0 as int),
            ops.drop_first(),
        )
    }
}

/// The text each region deletion removes, with its cursor, in deletion order.
pub open spec fn del_regions_out(
    t: Seq<char>,
    ops: Seq<(CursorId, CharOffset, CharOffset)>,
) -> Seq<(int, Seq<char>)>
    decreases ops.len(),
{
    if ops.len() == 0 {
        Seq::empty()
    } else {
        let start = ops[0].1.0 as int;
        let end = ops[0].2.0 as int;
        let s0 = if start <= t.len() {
            start
        } else {
            t.len() as int
        };
        let e0 = if end <= t.len() {
            end
        } else {
            t.len() as int
        };
        if s0 < e0 {
            seq![(ops[0].0.0 as int, t.subrange(s0, e0))] + del_regions_out(
                t.take(s0) + t.skip(e0),
                ops.drop_first(),
            )
        } else {
            del_regions_out(t, ops.drop_first())
        }
    }
}

/// The cursors threaded through the region-deletion run.
pub open spec fn del_regs_cursors(
    cs: Seq<Cursor>,
    t: Seq<char>,
    ops: Seq<(CursorId, CharOffset, CharOffset)>,
) -> Seq<Cursor>
    decreases ops.len(),
{
    if ops.len() == 0 {
        cs
    } else {
        let start = ops[0].1.0 as int;
        let end = ops[0].2.0 as int;
        let s0 = if start <= t.len() {
            start
        } else {
            t.len() as int
        };
        let e0 = if end <= t.len() {
            end
        } else {
            t.len() as int
        };
        if s0 < e0 {
            del_regs_cursors(
                adjust_all_delete(cs, start, end),
                t.take(s0) + t.skip(e0),
                ops.drop_first(),
            )
        } else {
            del_regs_cursors(cs, t, ops.drop_first())
        }
    }
}

/// The undo history threaded through the region-deletion run.
pub open spec fn del_regs_tree(
    m: crate::undo::TreeM,
    t: Seq<char>,
    ops: Seq<(CursorId, CharOffset, CharOffset)>,
) -> crate::undo::TreeM
    decreases ops.len(),
{
    if ops.len() == 0 {
        m
    } else {
        let start = ops[0].1.0 as int;
        let end = ops[0].2.0 as int;
        let s0 = if start <= t.len() {
            start
        } else {
            t.len() as int
        };
        let e0 = if end <= t.len() {
            end
        } else {
            t.len() as int
        };
        if s0 < e0 {
            del_regs_tree(
                crate::undo::record_delete_m(m, start, t.subrange(s0, e0)),
                t.take(s0) + t.skip(e0),
                ops.drop_first(),
            )
        } else {
            del_regs_tree(m, t, ops.drop_first())
        }
    }
}

/// The cursors and removed texts, as values.
pub open spec fn results_m(v: Seq<(CursorId, String)>) -> Seq<(int, Seq<char>)> {
    v.map_values(|p: (CursorId, String)| (p.0.0 as int, p.1@))
}

proof fn lemma_insert_desc_region_at(
    s: Seq<(CursorId, CharOffset, CharOffset)>,
    x: (CursorId, CharOffset, CharOffset),
    i: int,
)
    requires
        0 <= i <= s.len(),
        forall|j: int| 0 <= j < i ==> s[j].1.0 > x.1.0,
        i < s.len() ==> x.1.0 >= s[i].1.0,
    ensures
        insert_desc_region(s, x) == s.take(i) + seq![x] + s.skip(i),
    decreases i,
{
    if i == 0 {
        assert(insert_desc_region(s, x) =~= s.take(0) + seq![x] + s.skip(0));
    } else {
        lemma_insert_desc_region_at(s.drop_first(), x, i - 1);
        assert(s.drop_first().take(i - 1) =~= s.take(i).drop_first());
        assert(s.drop_first().skip(i - 1) =~= s.skip(i));
        assert(seq![s[0]] + (s.drop_first().take(i - 1) + seq![x] + s.drop_first().skip(i - 1))
            =~= s.take(i) + seq![x] + s.skip(i));
    }
}

fn insert_desc_region_exec(
    v: &mut Vec<(CursorId, CharOffset, CharOffset)>,
    x: (CursorId, CharOffset, CharOffset),
)
    ensures
        final(v)@ == insert_desc_region(old(v)@, x),
{
    let mut i: usize = 0;
    while i < v.len() && v[i].1.0 > x.1.0
        invariant
            i <= v.len(),
            *v == *old(v),
            forall|j: int| 0 <= j < i ==> (#[trigger] v@[j]).1.0 > x.1.0,
        decreases v.len() - i,
    {
        i += 1;
    }
    proof {
        lemma_insert_desc_region_at(v@, x, i as int);
    }
    v.insert(i, x);
    proof {
        assert(v@ =~= old(v)@.take(i as int) + seq![x] + old(v)@.skip(i as int));
    }
}

fn sort_regions(v: &Vec<(CursorId, CharOffset, CharOffset)>) -> (r: Vec<
    (CursorId, CharOffset, CharOffset),
>)
    ensures
        r@ == sort_desc_regions(v@),
{
    let mut r: Vec<(CursorId, CharOffset, CharOffset)> = Vec::new();
    let mut k: usize = v.len();
    proof {
        assert(v@.skip(k as int) =~= Seq::<(CursorId, CharOffset, CharOffset)>::empty());
    }
    while k > 0
        invariant
            k <= v.len(),
            r@ == sort_desc_regions(v@.skip(k as int)),
        decreases k,
    {
        k = k - 1;
        insert_desc_region_exec(&mut r, v[k]);
        proof {
            assert(v@.skip(k as int).drop_first() =~= v@.skip(k as int + 1));
            assert(v@.skip(k as int)[0] == v@[k as int]);
        }
    }
    proof {
        assert(v@.skip(0) =~= v@);
    }
    r
}

impl Buffer {
    /// Delete one region per cursor as a single undo group, highest start
    /// first so earlier deletions cannot invalidate later offsets. Returns
    /// each cursor's removed text in deletion order. Empty and inverted
    /// regions are skipped; a read-only buffer is untouched.
    #[verifier::loop_isolation(false)]
    pub fn delete_regions(
        &mut self,
        cursors: &mut CursorSet,
        regions: Vec<(CursorId, CharOffset, CharOffset)>,
    ) -> (r: Vec<(CursorId, String)>)
        requires
            old(cursors).bounded(rope_text(&old(self).text).len() as int),
            old(self).wf(),
        ensures
            final(self).wf(),
            final(cursors).bounded(rope_text(&final(self).text).len() as int),
            old(self).read_only ==> *final(self) == *old(self) && *final(cursors) == *old(cursors)
                && r@.len() == 0,
            !old(self).read_only ==> {
                &&& rope_text(&final(self).text) == del_regions_text(
                    rope_text(&old(self).text),
                    sort_desc_regions(keep_regions(regions@)),
                )
                &&& results_m(r@) == del_regions_out(
                    rope_text(&old(self).text),
                    sort_desc_regions(keep_regions(regions@)),
                )
                &&& final(cursors).all_seq() == sort_merge_m(
                    del_regs_cursors(
                        old(cursors).all_seq(),
                        rope_text(&old(self).text),
                        sort_desc_regions(keep_regions(regions@)),
                    ),
                )
                &&& final(self).undo_tree.model() == crate::undo::end_batch_m(
                    del_regs_tree(
                        crate::undo::TreeM {
                            batch_depth: crate::undo::break_coalesce_m(
                                old(self).undo_tree.model(),
                            ).batch_depth + 1,
                            ..crate::undo::break_coalesce_m(old(self).undo_tree.model())
                        },
                        rope_text(&old(self).text),
                        sort_desc_regions(keep_regions(regions@)),
                    ),
                )
                &&& final(self).modified
                &&& sorted_strict(final(cursors).all_seq())
                &&& final(self).mark_ring.marks_seq().len() == old(
                    self,
                ).mark_ring.marks_seq().len()
            },
            final(self).read_only == old(self).read_only,
            final(self).id == old(self).id,
    {
        if self.read_only {
            return Vec::new();
        }
        let ghost t0 = rope_text(&self.text);
        let mut kept: Vec<(CursorId, CharOffset, CharOffset)> = Vec::new();
        let mut i: usize = 0;
        proof {
            assert(regions@.skip(0) =~= regions@);
            assert(kept@ + keep_regions(regions@.skip(0)) =~= keep_regions(regions@));
        }
        while i < regions.len()
            invariant
                i <= regions@.len(),
                keep_regions(regions@) == kept@ + keep_regions(regions@.skip(i as int)),
            decreases regions@.len() - i,
        {
            let ghost pre = kept@;
            let reg = regions[i];
            proof {
                assert(regions@.skip(i as int)[0] == regions@[i as int]);
                assert(regions@.skip(i as int).drop_first() =~= regions@.skip(i as int + 1));
            }
            if reg.1.0 < reg.2.0 {
                kept.push(reg);
                proof {
                    assert(pre + (seq![regions@[i as int]] + keep_regions(
                        regions@.skip(i as int + 1),
                    )) =~= kept@ + keep_regions(regions@.skip(i as int + 1)));
                }
            }
            i += 1;
        }
        proof {
            assert(regions@.skip(regions@.len() as int) =~= Seq::<
                (CursorId, CharOffset, CharOffset),
            >::empty());
            assert(kept@ + Seq::<(CursorId, CharOffset, CharOffset)>::empty() =~= kept@);
        }
        let ops = sort_regions(&kept);
        let ghost opsm = sort_desc_regions(keep_regions(regions@));
        self.undo_tree.break_coalesce();
        self.undo_tree.begin_batch();
        let ghost m3 = self.undo_tree.model();
        let mut results: Vec<(CursorId, String)> = Vec::new();
        let n = ops.len();
        let mut k: usize = 0;
        proof {
            assert(opsm.skip(0) =~= opsm);
            assert(results_m(results@) =~= Seq::<(int, Seq<char>)>::empty());
        }
        while k < n
            invariant
                k <= n,
                n == opsm.len(),
                ops@ == opsm,
                del_regions_text(t0, opsm) == del_regions_text(
                    rope_text(&self.text),
                    opsm.skip(k as int),
                ),
                del_regions_out(t0, opsm) == results_m(results@) + del_regions_out(
                    rope_text(&self.text),
                    opsm.skip(k as int),
                ),
                del_regs_cursors(cursors.all_seq(), rope_text(&self.text), opsm.skip(k as int))
                    == del_regs_cursors(old(cursors).all_seq(), t0, opsm),
                del_regs_tree(self.undo_tree.model(), rope_text(&self.text), opsm.skip(k as int))
                    == del_regs_tree(m3, t0, opsm),
                self.undo_tree.model().batch_depth == 1,
                UndoTree::wf_m(self.undo_tree.model()),
                self.read_only == old(self).read_only,
                self.id == old(self).id,
                self.name == old(self).name,
                self.file_path == old(self).file_path,
                self.mode == old(self).mode,
                self.modified == old(self).modified,
                self.mark_ring.cap() == old(self).mark_ring.cap(),
                self.mark_ring.marks_seq().len() == old(self).mark_ring.marks_seq().len(),
                cursors.all_seq().len() == old(cursors).all_seq().len(),
                forall|q: int|
                    0 <= q < cursors.all_seq().len() ==> cursor_bounded(
                        #[trigger] cursors.all_seq()[q],
                        rope_text(&self.text).len() as int,
                    ),
            decreases n - k,
        {
            let op = ops[k];
            proof {
                assert(opsm.skip(k as int)[0] == opsm[k as int]);
                assert(opsm.skip(k as int).drop_first() =~= opsm.skip(k as int + 1));
            }
            let cur_len = rope_len_chars(&self.text);
            let start_idx = if op.1.0 <= cur_len {
                op.1.0
            } else {
                cur_len
            };
            let end_idx = if op.2.0 <= cur_len {
                op.2.0
            } else {
                cur_len
            };
            if start_idx < end_idx {
                let ghost pre_text = rope_text(&self.text);
                let deleted = crate::rope::rope_slice_string(&self.text, start_idx, end_idx);
                let recorded = deleted.clone();
                self.undo_tree.record_delete(op.1, recorded);
                crate::rope::rope_remove(&mut self.text, start_idx, end_idx);
                let ghost pre_seq = cursors.all_seq();
                cursors.adjust_positions_after_delete(op.1, op.2);
                proof {
                    assert(cursors.all_seq() =~= adjust_all_delete(
                        pre_seq,
                        op.1.0 as int,
                        op.2.0 as int,
                    )) by {
                        assert forall|w: int| 0 <= w < pre_seq.len() implies adjust_all_delete(
                            pre_seq,
                            op.1.0 as int,
                            op.2.0 as int,
                        )[w] == cursors.all_seq()[w] by {
                            assert(adjust_all_delete(pre_seq, op.1.0 as int, op.2.0 as int)[w]
                                == cursor_after_delete(pre_seq[w], op.1.0 as int, op.2.0 as int));
                        }
                    }
                }
                self.mark_ring.adjust_after_delete(op.1, op.2);
                let ghost pre_res = results@;
                results.push((op.0, deleted));
                proof {
                    let pair = (op.0.0 as int, pre_text.subrange(start_idx as int, end_idx as int));
                    assert(results_m(results@) =~= results_m(pre_res).push(pair));
                    assert(results_m(pre_res) + (seq![pair] + del_regions_out(
                        rope_text(&self.text),
                        opsm.skip(k as int + 1),
                    )) =~= results_m(results@) + del_regions_out(
                        rope_text(&self.text),
                        opsm.skip(k as int + 1),
                    ));
                }
            }
            k += 1;
        }
        self.undo_tree.end_batch();
        self.modified = true;
        proof {
            assert(opsm.skip(n as int) =~= Seq::<(CursorId, CharOffset, CharOffset)>::empty());
            assert(cursors.all_seq() == del_regs_cursors(old(cursors).all_seq(), t0, opsm));
        }
        let ghost pre_sort = cursors.all_seq();
        cursors.sort_and_merge();
        proof {
            assert(results_m(results@) + Seq::<(int, Seq<char>)>::empty() =~= results_m(results@));
            assert forall|q: int| 0 <= q < cursors.all_seq().len() implies cursor_bounded(
                #[trigger] cursors.all_seq()[q],
                rope_text(&self.text).len() as int,
            ) by {
                assert(pre_sort.contains(cursors.all_seq()[q]));
                let w = choose|w: int| 0 <= w < pre_sort.len() && pre_sort[w] == cursors.all_seq()[q];
            }
        }
        results
    }
}


/// A cursor's fate under a per-cursor insertion of `len` chars at `at`: the
/// owning cursor lands after the inserted text with its mark deactivated,
/// everything else shifts as for a plain insertion; marks always shift.
pub open spec fn cursor_after_ins_op(c: Cursor, id: CursorId, at: int, len: int) -> Cursor {
    Cursor {
        position: if c.id == id {
            CharOffset((at + len) as usize)
        } else if c.position.0 > at {
            CharOffset((c.position.0 + len) as usize)
        } else {
            c.position
        },
        mark_active: if c.id == id {
            false
        } else {
            c.mark_active
        },
        mark: match c.mark {
            Some(m) => if m.0 > at {
                Some(CharOffset((m.0 + len) as usize))
            } else {
                Some(m)
            },
            None => None,
        },
        ..c
    }
}

/// Every cursor updated for a per-cursor insertion owned by `id`.
pub open spec fn adjust_all_ins_op(cs: Seq<Cursor>, id: CursorId, at: int, len: int) -> Seq<Cursor> {
    cs.map_values(|c: Cursor| cursor_after_ins_op(c, id, at, len))
}

/// The cursors threaded through the per-cursor insertion run.
pub open spec fn ins_ops_cursors(
    cs: Seq<Cursor>,
    t: Seq<char>,
    ops: Seq<(CursorId, CharOffset, Seq<char>)>,
) -> Seq<Cursor>
    decreases ops.len(),
{
    if ops.len() == 0 {
        cs
    } else {
        let at = if ops[0].1.0 <= t.len() {
            ops[0].1.0 as int
        } else {
            t.len() as int
        };
        ins_ops_cursors(
            adjust_all_ins_op(cs, ops[0].0, at, ops[0].2.len() as int),
            splice_at(t, ops[0].1.0 as int, ops[0].2),
            ops.drop_first(),
        )
    }
}

/// The undo history threaded through the per-cursor insertion run.
pub open spec fn ins_ops_tree(
    m: crate::undo::TreeM,
    t: Seq<char>,
    ops: Seq<(CursorId, CharOffset, Seq<char>)>,
) -> crate::undo::TreeM
    decreases ops.len(),
{
    if ops.len() == 0 {
        m
    } else {
        let at = if ops[0].1.0 <= t.len() {
            ops[0].1.0 as int
        } else {
            t.len() as int
        };
        ins_ops_tree(
            crate::undo::record_insert_m(m, at, ops[0].2),
            splice_at(t, ops[0].1.0 as int, ops[0].2),
            ops.drop_first(),
        )
    }
}

/// The per-cursor insertion requests that survive: nonempty texts whose
/// cursor exists, tagged with that cursor's position.
pub open spec fn collect_ins_ops(cs: Seq<Cursor>, texts: Seq<(CursorId, Seq<char>)>) -> Seq<
    (CursorId, CharOffset, Seq<char>),
>
    decreases texts.len(),
{
    if texts.len() == 0 {
        Seq::empty()
    } else {
        let rest = collect_ins_ops(cs, texts.drop_first());
        if texts[0].1.len() == 0 {
            rest
        } else {
            match find_by_id_m(cs, texts[0].0) {
                Some(c) => seq![(texts[0].0, c.position, texts[0].1)] + rest,
                None => rest,
            }
        }
    }
}

/// An insertion request placed before the first one whose position is not
/// smaller.
pub open spec fn insert_desc_op(
    s: Seq<(CursorId, CharOffset, Seq<char>)>,
    x: (CursorId, CharOffset, Seq<char>),
) -> Seq<(CursorId, CharOffset, Seq<char>)>
    decreases s.len(),
{
    if s.len() == 0 {
        seq![x]
    } else if x.1.0 >= s[0].1.0 {
        seq![x] + s
    } else {
        seq![s[0]] + insert_desc_op(s.drop_first(), x)
    }
}

/// The insertion requests sorted by position, high to low.
pub open spec fn sort_desc_ops(s: Seq<(CursorId, CharOffset, Seq<char>)>) -> Seq<
    (CursorId, CharOffset, Seq<char>),
>
    decreases s.len(),
{
    if s.len() == 0 {
        Seq::empty()
    } else {
        insert_desc_op(sort_desc_ops(s.drop_first()), s[0])
    }
}

/// The text after performing each insertion request in turn.
pub open spec fn ins_ops_text(t: Seq<char>, ops: Seq<(CursorId, CharOffset, Seq<char>)>) -> Seq<
    char,
>
    decreases ops.len(),
{
    if ops.len() == 0 {
        t
    } else {
        ins_ops_text(splice_at(t, ops[0].1.0 as int, ops[0].2), ops.drop_first())
    }
}

/// The per-cursor texts, as values.
pub open spec fn texts_m(v: Seq<(CursorId, String)>) -> Seq<(CursorId, Seq<char>)> {
    v.map_values(|p: (CursorId, String)| (p.0, p.1@))
}

proof fn lemma_insert_desc_op_at(
    s: Seq<(CursorId, CharOffset, Seq<char>)>,
    x: (CursorId, CharOffset, Seq<char>),
    i: int,
)
    requires
        0 <= i <= s.len(),
        forall|j: int| 0 <= j < i ==> s[j].1.0 > x.1.0,
        i < s.len() ==> x.1.0 >= s[i].1.0,
    ensures
        insert_desc_op(s, x) == s.take(i) + seq![x] + s.skip(i),
    decreases i,
{
    if i == 0 {
        assert(insert_desc_op(s, x) =~= s.take(0) + seq![x] + s.skip(0));
    } else {
        lemma_insert_desc_op_at(s.drop_first(), x, i - 1);
        assert(s.drop_first().take(i - 1) =~= s.take(i).drop_first());
        assert(s.drop_first().skip(i - 1) =~= s.skip(i));
        assert(seq![s[0]] + (s.drop_first().take(i - 1) + seq![x] + s.drop_first().skip(i - 1))
            =~= s.take(i) + seq![x] + s.skip(i));
    }
}

/// The view of a request vector.
pub open spec fn ops_m(v: Seq<(CursorId, CharOffset, String)>) -> Seq<
    (CursorId, CharOffset, Seq<char>),
> {
    v.map_values(|o: (CursorId, CharOffset, String)| (o.0, o.1, o.2@))
}

fn insert_desc_op_exec(v: &mut Vec<(CursorId, CharOffset, String)>, x: (CursorId, CharOffset, String))
    ensures
        ops_m(final(v)@) == insert_desc_op(ops_m(old(v)@), (x.0, x.1, x.2@)),
{
    let mut i: usize = 0;
    while i < v.len() && v[i].1.0 > x.1.0
        invariant
            i <= v.len(),
            *v == *old(v),
            forall|j: int| 0 <= j < i ==> (#[trigger] v@[j]).1.0 > x.1.0,
        decreases v.len() - i,
    {
        i += 1;
    }
    proof {
        assert forall|j: int| 0 <= j < i implies ops_m(v@)[j].1.0 > x.1.0 by {
            assert(ops_m(v@)[j] == (v@[j].0, v@[j].1, v@[j].2@));
        }
        if i < v@.len() {
            assert(ops_m(v@)[i as int] == (v@[i as int].0, v@[i as int].1, v@[i as int].2@));
        }
        lemma_insert_desc_op_at(ops_m(v@), (x.0, x.1, x.2@), i as int);
    }
    v.insert(i, x);
    proof {
        assert(ops_m(v@) =~= ops_m(old(v)@).take(i as int) + seq![(x.0, x.1, x.2@)] + ops_m(
            old(v)@,
        ).skip(i as int));
    }
}

impl Buffer {
    /// Insert per-cursor texts: each request inserts its text at its cursor,
    /// highest position first, in one undo group. The owning cursor advances
    /// past its insertion; all other positions and marks shift. Empty texts
    /// and unknown cursors are ignored; a read-only buffer is untouched.
    #[verifier::loop_isolation(false)]
    pub fn insert_at_cursors(&mut self, cursors: &mut CursorSet, texts: Vec<(CursorId, String)>)
        requires
            old(cursors).bounded(rope_text(&old(self).text).len() as int),
            old(self).wf(),
        ensures
            final(self).wf(),
            final(cursors).bounded(rope_text(&final(self).text).len() as int),
            old(self).read_only || texts@.len() == 0 ==> *final(self) == *old(self) && *final(cursors) == *old(cursors),
            !old(self).read_only && texts@.len() > 0 ==> {
                &&& rope_text(&final(self).text) == ins_ops_text(
                    rope_text(&old(self).text),
                    sort_desc_ops(collect_ins_ops(old(cursors).all_seq(), texts_m(texts@))),
                )
                &&& final(cursors).all_seq() == sort_merge_m(
                    ins_ops_cursors(
                        old(cursors).all_seq(),
                        rope_text(&old(self).text),
                        sort_desc_ops(collect_ins_ops(old(cursors).all_seq(), texts_m(texts@))),
                    ),
                )
                &&& final(self).undo_tree.model() == crate::undo::end_batch_m(
                    ins_ops_tree(
                        crate::undo::TreeM {
                            batch_depth: old(self).undo_tree.model().batch_depth + 1,
                            ..old(self).undo_tree.model()
                        },
                        rope_text(&old(self).text),
                        sort_desc_ops(collect_ins_ops(old(cursors).all_seq(), texts_m(texts@))),
                    ),
                )
                &&& final(self).modified
                &&& sorted_strict(final(cursors).all_seq())
            },
            final(self).read_only == old(self).read_only,
            final(self).id == old(self).id,
    {
        if self.read_only || texts.len() == 0 {
            return ;
        }
        let ghost t0 = rope_text(&self.text);
        let ghost tm = texts_m(texts@);
        let mut kept: Vec<(CursorId, CharOffset, String)> = Vec::new();
        let n_t = texts.len();
        let mut i: usize = n_t;
        proof {
            assert(tm.skip(n_t as int) =~= Seq::<(CursorId, Seq<char>)>::empty());
            assert(ops_m(kept@) =~= collect_ins_ops(cursors.all_seq(), tm.skip(n_t as int)));
        }
        while i > 0
            invariant
                i <= n_t,
                n_t == texts@.len(),
                *cursors == *old(cursors),
                ops_m(kept@) == collect_ins_ops(cursors.all_seq(), tm.skip(i as int)),
            decreases i,
        {
            i = i - 1;
            proof {
                assert(tm.skip(i as int)[0] == tm[i as int]);
                assert(tm[i as int] == (texts@[i as int].0, texts@[i as int].1@));
                assert(tm.skip(i as int).drop_first() =~= tm.skip(i as int + 1));
            }
            let (id, txt) = (texts[i].0, texts[i].1.clone());
            if txt.as_str().unicode_len() > 0 {
                match cursors.get_by_id(id) {
                    Some(c) => {
                        let ghost pre = ops_m(kept@);
                        kept.insert(0, (id, c.position, txt));
                        proof {
                            assert(ops_m(kept@) =~= seq![
                                (id, c.position, texts@[i as int].1@),
                            ] + pre);
                        }
                    },
                    None => {},
                }
            }
        }
        proof {
            assert(tm.skip(0) =~= tm);
        }
        let n_k = kept.len();
        let mut sorted: Vec<(CursorId, CharOffset, String)> = Vec::new();
        let mut k: usize = n_k;
        proof {
            assert(ops_m(kept@).skip(n_k as int) =~= Seq::<(CursorId, CharOffset, Seq<char>)>::empty());
            assert(ops_m(sorted@) =~= sort_desc_ops(ops_m(kept@).skip(n_k as int)));
        }
        while k > 0
            invariant
                k <= n_k,
                n_k == kept@.len(),
                ops_m(sorted@) == sort_desc_ops(ops_m(kept@).skip(k as int)),
            decreases k,
        {
            k = k - 1;
            let item = (kept[k].0, kept[k].1, kept[k].2.clone());
            proof {
                assert(ops_m(kept@).skip(k as int)[0] == ops_m(kept@)[k as int]);
                assert(ops_m(kept@)[k as int] == (kept@[k as int].0, kept@[k as int].1, kept@[k as int].2@));
                assert(ops_m(kept@).skip(k as int).drop_first() =~= ops_m(kept@).skip(k as int + 1));
            }
            insert_desc_op_exec(&mut sorted, item);
        }
        proof {
            assert(ops_m(kept@).skip(0) =~= ops_m(kept@));
        }
        let ghost opsm = sort_desc_ops(collect_ins_ops(old(cursors).all_seq(), tm));
        self.undo_tree.begin_batch();
        let ghost m3 = self.undo_tree.model();
        let n = sorted.len();
        let len0 = rope_len_chars(&self.text);
        let mut q: usize = 0;
        proof {
            assert(opsm.skip(0) =~= opsm);
        }
        while q < n
            invariant
                q <= n,
                n == opsm.len(),
                ops_m(sorted@) == opsm,
                ins_ops_text(t0, opsm) == ins_ops_text(rope_text(&self.text), opsm.skip(q as int)),
                ins_ops_cursors(cursors.all_seq(), rope_text(&self.text), opsm.skip(q as int))
                    == ins_ops_cursors(old(cursors).all_seq(), t0, opsm),
                ins_ops_tree(self.undo_tree.model(), rope_text(&self.text), opsm.skip(q as int))
                    == ins_ops_tree(m3, t0, opsm),
                rope_text(&self.text).len() <= usize::MAX,
                self.undo_tree.model().batch_depth == 1,
                UndoTree::wf_m(self.undo_tree.model()),
                self.read_only == old(self).read_only,
                self.id == old(self).id,
                self.name == old(self).name,
                self.file_path == old(self).file_path,
                self.mark_ring == old(self).mark_ring,
                self.mode == old(self).mode,
                self.modified == old(self).modified,
                cursors.all_seq().len() == old(cursors).all_seq().len(),
                forall|w: int|
                    0 <= w < cursors.all_seq().len() ==> cursor_bounded(
                        #[trigger] cursors.all_seq()[w],
                        rope_text(&self.text).len() as int,
                    ),
            decreases n - q,
        {
            proof {
                assert(opsm.skip(q as int)[0] == opsm[q as int]);
                assert(opsm[q as int] == (sorted@[q as int].0, sorted@[q as int].1, sorted@[q as int].2@));
                assert(opsm.skip(q as int).drop_first() =~= opsm.skip(q as int + 1));
            }
            let op_id = sorted[q].0;
            let op_pos = sorted[q].1;
            let cur_len = rope_len_chars(&self.text);
            let char_idx = if op_pos.0 <= cur_len {
                op_pos.0
            } else {
                cur_len
            };
            let op_text = sorted[q].2.clone();
            let char_count = op_text.as_str().unicode_len();
            rope_insert(&mut self.text, char_idx, op_text.as_str());
            let new_len = rope_len_chars(&self.text);
            self.undo_tree.record_insert(CharOffset(char_idx), op_text);
            let ghost pre_seq = cursors.all_seq();
            update_cursors_for_op(cursors, op_id, char_idx, char_count);
            proof {
                assert(cursors.all_seq() =~= adjust_all_ins_op(
                    pre_seq,
                    op_id,
                    char_idx as int,
                    char_count as int,
                )) by {
                    assert forall|w: int| 0 <= w < pre_seq.len() implies adjust_all_ins_op(
                        pre_seq,
                        op_id,
                        char_idx as int,
                        char_count as int,
                    )[w] == cursors.all_seq()[w] by {
                        assert(adjust_all_ins_op(pre_seq, op_id, char_idx as int, char_count as int)[w]
                            == cursor_after_ins_op(pre_seq[w], op_id, char_idx as int, char_count as int));
                    }
                }
                assert forall|w: int| 0 <= w < cursors.all_seq().len() implies cursor_bounded(
                    #[trigger] cursors.all_seq()[w],
                    rope_text(&self.text).len() as int,
                ) by {
                    assert(cursors.all_seq()[w] == cursor_after_ins_op(
                        pre_seq[w],
                        op_id,
                        char_idx as int,
                        char_count as int,
                    ));
                }
            }
            q += 1;
        }
        self.undo_tree.end_batch();
        self.modified = true;
        proof {
            assert(opsm.skip(n as int) =~= Seq::<(CursorId, CharOffset, Seq<char>)>::empty());
            assert(cursors.all_seq() == ins_ops_cursors(old(cursors).all_seq(), t0, opsm));
        }
        let ghost pre_sort = cursors.all_seq();
        cursors.sort_and_merge();
        proof {
            assert forall|w: int| 0 <= w < cursors.all_seq().len() implies cursor_bounded(
                #[trigger] cursors.all_seq()[w],
                rope_text(&self.text).len() as int,
            ) by {
                assert(pre_sort.contains(cursors.all_seq()[w]));
                let x = choose|x: int| 0 <= x < pre_sort.len() && pre_sort[x] == cursors.all_seq()[w];
            }
        }
    }
}

/// Apply `cursor_after_ins_op` to every cursor of the set.
#[verifier::loop_isolation(false)]
fn update_cursors_for_op(cursors: &mut CursorSet, id: CursorId, at: usize, len: usize)
    requires
        forall|i: int|
            0 <= i < old(cursors).all_seq().len() ==> (#[trigger] old(cursors).all_seq()[i]).position.0 + len <= usize::MAX && (old(cursors).all_seq()[i].mark
                is Some ==> old(cursors).all_seq()[i].mark.unwrap().0 + len <= usize::MAX),
        at + len <= usize::MAX,
    ensures
        final(cursors).all_seq().len() == old(cursors).all_seq().len(),
        forall|i: int|
            0 <= i < old(cursors).all_seq().len() ==> #[trigger] final(cursors).all_seq()[i]
                == cursor_after_ins_op(old(cursors).all_seq()[i], id, at as int, len as int),
{
    let c = cursor_op_step(cursors.primary, id, at, len);
    cursors.primary = c;
    let ghost orig = cursors.secondary@;
    let mut i: usize = 0;
    proof {
        assert(old(cursors).all_seq()[0] == old(cursors).primary);
    }
    while i < cursors.secondary.len()
        invariant
            i <= cursors.secondary@.len(),
            cursors.secondary@.len() == orig.len(),
            cursors.primary == cursor_after_ins_op(old(cursors).primary, id, at as int, len as int),
            forall|j: int| i <= j < orig.len() ==> #[trigger] cursors.secondary@[j] == orig[j],
            forall|j: int|
                0 <= j < i ==> #[trigger] cursors.secondary@[j] == cursor_after_ins_op(
                    orig[j],
                    id,
                    at as int,
                    len as int,
                ),
        decreases cursors.secondary@.len() - i,
    {
        proof {
            assert(old(cursors).all_seq()[i + 1] == orig[i as int]);
        }
        let cj = cursor_op_step(cursors.secondary[i], id, at, len);
        cursors.secondary[i] = cj;
        i += 1;
    }
    proof {
        assert forall|k: int| 0 <= k < old(cursors).all_seq().len() implies
            #[trigger] cursors.all_seq()[k] == cursor_after_ins_op(
            old(cursors).all_seq()[k],
            id,
            at as int,
            len as int,
        ) by {
            if k == 0 {
                assert(cursors.all_seq()[0] == cursors.primary);
            } else {
                assert(cursors.all_seq()[k] == cursors.secondary@[k - 1]);
                assert(old(cursors).all_seq()[k] == orig[k - 1]);
            }
        }
    }
}

fn cursor_op_step(c: Cursor, id: CursorId, at: usize, len: usize) -> (r: Cursor)
    requires
        c.position.0 + len <= usize::MAX,
        c.mark is Some ==> c.mark.unwrap().0 + len <= usize::MAX,
        at + len <= usize::MAX,
    ensures
        r == cursor_after_ins_op(c, id, at as int, len as int),
{
    let mut r = c;
    if c.id.0 == id.0 {
        r.position = CharOffset(at + len);
        r.mark_active = false;
    } else if c.position.0 > at {
        r.position = CharOffset(c.position.0 + len);
    }
    if let Some(m) = c.mark {
        if m.0 > at {
            r.mark = Some(CharOffset(m.0 + len));
        }
    }
    proof {
        assert(c.id.0 == id.0 ==> c.id == id);
        assert(c.id.0 != id.0 ==> c.id != id);
    }
    r
}


/// One undo edit applied to the text, clamped to its bounds.
pub open spec fn apply_undo_step(t: Seq<char>, e: crate::undo::UndoEditM) -> Seq<char> {
    if e.is_insert {
        let p = if e.pos <= t.len() {
            e.pos
        } else {
            t.len() as int
        };
        t.take(p) + e.text + t.skip(p)
    } else {
        let s0 = if e.pos <= t.len() {
            e.pos
        } else {
            t.len() as int
        };
        let e0 = if s0 + e.len <= t.len() {
            s0 + e.len
        } else {
            t.len() as int
        };
        if s0 < e0 {
            t.take(s0) + t.skip(e0)
        } else {
            t
        }
    }
}

/// The text after applying each undo edit in turn.
pub open spec fn apply_undo_text(t: Seq<char>, es: Seq<crate::undo::UndoEditM>) -> Seq<char>
    decreases es.len(),
{
    if es.len() == 0 {
        t
    } else {
        apply_undo_text(apply_undo_step(t, es[0]), es.drop_first())
    }
}

/// Every cursor of the sequence pulled back inside a text of `len` chars.
pub open spec fn clamp_seq(s: Seq<Cursor>, len: int) -> Seq<Cursor> {
    s.map_values(|c: Cursor| clamp_cursor(c, len))
}

/// The cursors after one undo edit: the positional shift of the edit, with
/// the primary left at the edit's landing point.
pub open spec fn apply_undo_cursor_step(cs: Seq<Cursor>, t: Seq<char>, e: crate::undo::UndoEditM) -> Seq<
    Cursor,
> {
    if e.is_insert {
        let at = if e.pos <= t.len() {
            e.pos
        } else {
            t.len() as int
        };
        let adj = adjust_all_insert(cs, e.pos, e.text.len() as int);
        adj.update(0, Cursor { position: CharOffset((at + e.text.len()) as usize), ..adj[0] })
    } else {
        let s0 = if e.pos <= t.len() {
            e.pos
        } else {
            t.len() as int
        };
        let e0 = if s0 + e.len <= t.len() {
            s0 + e.len
        } else {
            t.len() as int
        };
        if s0 < e0 {
            let adj = adjust_all_delete(cs, e.pos, e0);
            adj.update(0, Cursor { position: CharOffset(e.pos as usize), ..adj[0] })
        } else {
            cs
        }
    }
}

/// The cursors threaded through a whole undo group.
pub open spec fn apply_undo_cursors(
    cs: Seq<Cursor>,
    t: Seq<char>,
    es: Seq<crate::undo::UndoEditM>,
) -> Seq<Cursor>
    decreases es.len(),
{
    if es.len() == 0 {
        cs
    } else {
        apply_undo_cursors(
            apply_undo_cursor_step(cs, t, es[0]),
            apply_undo_step(t, es[0]),
            es.drop_first(),
        )
    }
}

/// A cursor pulled back inside a text of `len` chars.
pub open spec fn clamp_cursor(c: Cursor, len: int) -> Cursor {
    Cursor {
        position: if c.position.0 <= len {
            c.position
        } else {
            CharOffset(len as usize)
        },
        mark: match c.mark {
            Some(m) => Some(
                if m.0 <= len {
                    m
                } else {
                    CharOffset(len as usize)
                },
            ),
            None => None,
        },
        ..c
    }
}

impl Buffer {
    /// Apply the edits an undo step handed back, adjusting the cursors and
    /// leaving the primary at the last edit's landing point.
    #[verifier::loop_isolation(false)]
    fn apply_undo_edits(&mut self, cursors: &mut CursorSet, edits: Vec<crate::undo::UndoEdit>)
        requires
            old(cursors).bounded(rope_text(&old(self).text).len() as int),
        ensures
            rope_text(&final(self).text) == apply_undo_text(
                rope_text(&old(self).text),
                crate::undo::undo_edits_m(edits@),
            ),
            final(cursors).all_seq() == apply_undo_cursors(
                old(cursors).all_seq(),
                rope_text(&old(self).text),
                crate::undo::undo_edits_m(edits@),
            ),
            final(cursors).bounded(rope_text(&final(self).text).len() as int),
            final(self).modified,
            final(self).undo_tree == old(self).undo_tree,
            final(self).read_only == old(self).read_only,
            final(self).id == old(self).id,
            final(self).name == old(self).name,
            final(self).file_path == old(self).file_path,
            final(self).mark_ring == old(self).mark_ring,
            final(self).mode == old(self).mode,
    {
        let ghost t0 = rope_text(&self.text);
        let ghost esm = crate::undo::undo_edits_m(edits@);
        let n = edits.len();
        let mut k: usize = 0;
        proof {
            assert(esm.skip(0) =~= esm);
        }
        while k < n
            invariant
                k <= n,
                n == esm.len(),
                esm == crate::undo::undo_edits_m(edits@),
                apply_undo_text(t0, esm) == apply_undo_text(
                    rope_text(&self.text),
                    esm.skip(k as int),
                ),
                apply_undo_cursors(cursors.all_seq(), rope_text(&self.text), esm.skip(k as int))
                    == apply_undo_cursors(old(cursors).all_seq(), t0, esm),
                self.undo_tree == old(self).undo_tree,
                self.read_only == old(self).read_only,
                self.id == old(self).id,
                self.name == old(self).name,
                self.file_path == old(self).file_path,
                self.mark_ring == old(self).mark_ring,
                self.mode == old(self).mode,
                self.modified == old(self).modified,
                cursors.all_seq().len() == old(cursors).all_seq().len(),
                forall|w: int|
                    0 <= w < cursors.all_seq().len() ==> cursor_bounded(
                        #[trigger] cursors.all_seq()[w],
                        rope_text(&self.text).len() as int,
                    ),
            decreases n - k,
        {
            proof {
                assert(esm.skip(k as int)[0] == esm[k as int]);
                assert(esm[k as int] == crate::undo::undo_edit_m(edits@[k as int]));
                assert(esm.skip(k as int).drop_first() =~= esm.skip(k as int + 1));
            }
            match &edits[k] {
                crate::undo::UndoEdit::Insert { position, text } => {
                    let ghost old_t = rope_text(&self.text);
                    let cur_len = rope_len_chars(&self.text);
                    let char_idx = if position.0 <= cur_len {
                        position.0
                    } else {
                        cur_len
                    };
                    let tlen = text.as_str().unicode_len();
                    rope_insert(&mut self.text, char_idx, text.as_str());
                    let new_len = rope_len_chars(&self.text);
                    let ghost pre_seq = cursors.all_seq();
                    proof {
                        assert(crate::cursor::insert_shift_fits(pre_seq, tlen as int));
                    }
                    cursors.adjust_positions_after_insert(*position, tlen);
                    let ghost adj_seq = cursors.all_seq();
                    cursors.primary.position = CharOffset(char_idx + tlen);
                    proof {
                        let ghost e = esm[k as int];
                        assert(adj_seq =~= adjust_all_insert(pre_seq, e.pos, e.text.len() as int))
                            by {
                            assert forall|w: int| 0 <= w < pre_seq.len() implies adjust_all_insert(
                                pre_seq,
                                e.pos,
                                e.text.len() as int,
                            )[w] == adj_seq[w] by {
                                assert(adjust_all_insert(pre_seq, e.pos, e.text.len() as int)[w]
                                    == cursor_after_insert(pre_seq[w], e.pos, e.text.len() as int));
                            }
                        }
                        assert(cursors.all_seq() =~= apply_undo_cursor_step(
                            pre_seq,
                            old_t,
                            e,
                        )) by {
                            assert forall|w: int| 0 <= w < cursors.all_seq().len() implies
                                cursors.all_seq()[w] == apply_undo_cursor_step(pre_seq, old_t, e)[w]
                                by {
                                if w == 0 {
                                    assert(cursors.all_seq()[0] == cursors.primary);
                                } else {
                                    assert(cursors.all_seq()[w] == cursors.secondary@[w - 1]);
                                    assert(adj_seq[w] == cursors.secondary@[w - 1]);
                                }
                            }
                        }
                        assert forall|w: int| 0 <= w < cursors.all_seq().len() implies
                            cursor_bounded(
                            #[trigger] cursors.all_seq()[w],
                            rope_text(&self.text).len() as int,
                        ) by {
                            assert(adj_seq[w] == crate::cursor::cursor_after_insert(
                                pre_seq[w],
                                position.0 as int,
                                tlen as int,
                            ));
                            if w == 0 {
                                assert(cursors.all_seq()[0] == cursors.primary);
                                assert(cursors.primary.mark == adj_seq[0].mark);
                            } else {
                                assert(cursors.all_seq()[w] == cursors.secondary@[w - 1]);
                                assert(adj_seq[w] == cursors.secondary@[w - 1]);
                            }
                        }
                    }
                },
                crate::undo::UndoEdit::Delete { position, len } => {
                    let ghost old_t = rope_text(&self.text);
                    let cur_len = rope_len_chars(&self.text);
                    let start = if position.0 <= cur_len {
                        position.0
                    } else {
                        cur_len
                    };
                    let end = if *len <= cur_len - start {
                        start + *len
                    } else {
                        cur_len
                    };
                    if start < end {
                        rope_remove(&mut self.text, start, end);
                        let ghost pre_seq = cursors.all_seq();
                        cursors.adjust_positions_after_delete(*position, CharOffset(end));
                        let ghost adj_seq = cursors.all_seq();
                        cursors.primary.position = *position;
                        proof {
                            let ghost e = esm[k as int];
                            assert(adj_seq =~= adjust_all_delete(pre_seq, e.pos, end as int)) by {
                                assert forall|w: int| 0 <= w < pre_seq.len() implies
                                    adjust_all_delete(pre_seq, e.pos, end as int)[w] == adj_seq[w]
                                    by {
                                    assert(adjust_all_delete(pre_seq, e.pos, end as int)[w]
                                        == cursor_after_delete(pre_seq[w], e.pos, end as int));
                                }
                            }
                            assert(cursors.all_seq() =~= apply_undo_cursor_step(
                                pre_seq,
                                old_t,
                                e,
                            )) by {
                                assert forall|w: int| 0 <= w < cursors.all_seq().len() implies
                                    cursors.all_seq()[w] == apply_undo_cursor_step(
                                    pre_seq,
                                    old_t,
                                    e,
                                )[w] by {
                                    if w == 0 {
                                        assert(cursors.all_seq()[0] == cursors.primary);
                                    } else {
                                        assert(cursors.all_seq()[w] == cursors.secondary@[w - 1]);
                                        assert(adj_seq[w] == cursors.secondary@[w - 1]);
                                    }
                                }
                            }
                            assert forall|w: int| 0 <= w < cursors.all_seq().len() implies
                                cursor_bounded(
                                #[trigger] cursors.all_seq()[w],
                                rope_text(&self.text).len() as int,
                            ) by {
                                assert(adj_seq[w] == crate::cursor::cursor_after_delete(
                                    pre_seq[w],
                                    position.0 as int,
                                    end as int,
                                ));
                                if w == 0 {
                                    assert(cursors.all_seq()[0] == cursors.primary);
                                    assert(cursors.primary.mark == adj_seq[0].mark);
                                } else {
                                    assert(cursors.all_seq()[w] == cursors.secondary@[w - 1]);
                                    assert(adj_seq[w] == cursors.secondary@[w - 1]);
                                }
                            }
                        }
                    }
                },
            }
            k += 1;
        }
        proof {
            assert(esm.skip(n as int) =~= Seq::<crate::undo::UndoEditM>::empty());
        }
        self.modified = true;
    }

    /// Take one undo step: apply the inverse of the last undo group and, when
    /// the group carried a cursor snapshot, restore it (clamped to the new
    /// text). Returns whether anything was undone.
    pub fn undo(&mut self, cursors: &mut CursorSet) -> (r: bool)
        requires
            old(cursors).bounded(rope_text(&old(self).text).len() as int),
            old(self).wf(),
        ensures
            final(self).wf(),
            final(self).id == old(self).id,
            final(self).read_only == old(self).read_only,
            final(cursors).bounded(rope_text(&final(self).text).len() as int),
            final(self).undo_tree.model() == crate::undo::undo_post_m(
                old(self).undo_tree.model(),
            ),
            ({
                let f = crate::undo::flush_m(old(self).undo_tree.model());
                let idx = crate::undo::effective_index(f);
                &&& r == (idx > 0)
                &&& (r ==> rope_text(&final(self).text) == apply_undo_text(
                    rope_text(&old(self).text),
                    crate::undo::to_undo_edits(
                        crate::undo::edits_inverse_m(f.entries[idx - 1].edits),
                    ),
                ))
                &&& (r ==> final(self).modified)
                &&& (r ==> match f.entries[idx - 1].cursors {
                    Some(snapshot) => final(cursors).all_seq() == clamp_seq(
                        snapshot,
                        rope_text(&final(self).text).len() as int,
                    ),
                    None => final(cursors).all_seq() == apply_undo_cursors(
                        old(cursors).all_seq(),
                        rope_text(&old(self).text),
                        crate::undo::to_undo_edits(
                            crate::undo::edits_inverse_m(f.entries[idx - 1].edits),
                        ),
                    ),
                })
                &&& (!r ==> rope_text(&final(self).text) == rope_text(&old(self).text) && *final(cursors) == *old(cursors) && final(self).modified == old(self).modified)
            }),
    {
        let res = self.undo_tree.undo();
        match res {
            crate::undo::UndoResult::Apply { edits, restore_cursors } => {
                self.apply_undo_edits(cursors, edits);
                match restore_cursors {
                    Some(saved) => {
                        let ghost snap = saved.all_seq();
                        *cursors = saved;
                        clamp_cursors_to(cursors, rope_len_chars(&self.text));
                        proof {
                            assert(cursors.all_seq() =~= clamp_seq(
                                snap,
                                rope_text(&self.text).len() as int,
                            ));
                        }
                    },
                    None => {},
                }
                true
            },
            crate::undo::UndoResult::Nothing => false,
        }
    }

    /// Take one redo step: re-apply what the most recent undo reversed.
    pub fn redo(&mut self, cursors: &mut CursorSet) -> (r: bool)
        requires
            old(cursors).bounded(rope_text(&old(self).text).len() as int),
            old(self).wf(),
        ensures
            final(self).wf(),
            final(self).id == old(self).id,
            final(self).read_only == old(self).read_only,
            final(cursors).bounded(rope_text(&final(self).text).len() as int),
            final(self).undo_tree.model() == crate::undo::undo_post_m(
                crate::undo::TreeM { undo_index: None, ..old(self).undo_tree.model() },
            ),
            ({
                let cleared = crate::undo::TreeM {
                    undo_index: None,
                    ..old(self).undo_tree.model()
                };
                let f = crate::undo::flush_m(cleared);
                let idx = crate::undo::effective_index(f);
                &&& r == (idx > 0)
                &&& (r ==> rope_text(&final(self).text) == apply_undo_text(
                    rope_text(&old(self).text),
                    crate::undo::to_undo_edits(
                        crate::undo::edits_inverse_m(f.entries[idx - 1].edits),
                    ),
                ))
                &&& (r ==> final(self).modified)
                &&& (r ==> match f.entries[idx - 1].cursors {
                    Some(snapshot) => final(cursors).all_seq() == clamp_seq(
                        snapshot,
                        rope_text(&final(self).text).len() as int,
                    ),
                    None => final(cursors).all_seq() == apply_undo_cursors(
                        old(cursors).all_seq(),
                        rope_text(&old(self).text),
                        crate::undo::to_undo_edits(
                            crate::undo::edits_inverse_m(f.entries[idx - 1].edits),
                        ),
                    ),
                })
                &&& (!r ==> rope_text(&final(self).text) == rope_text(&old(self).text) && *final(cursors) == *old(cursors) && final(self).modified == old(self).modified)
            }),
    {
        let res = self.undo_tree.redo();
        match res {
            crate::undo::UndoResult::Apply { edits, restore_cursors } => {
                self.apply_undo_edits(cursors, edits);
                match restore_cursors {
                    Some(saved) => {
                        let ghost snap = saved.all_seq();
                        *cursors = saved;
                        clamp_cursors_to(cursors, rope_len_chars(&self.text));
                        proof {
                            assert(cursors.all_seq() =~= clamp_seq(
                                snap,
                                rope_text(&self.text).len() as int,
                            ));
                        }
                    },
                    None => {},
                }
                true
            },
            crate::undo::UndoResult::Nothing => false,
        }
    }
}

/// Pull every cursor of the set back inside a text of `len` chars.
#[verifier::loop_isolation(false)]
pub fn clamp_cursors_to(cursors: &mut CursorSet, len: usize)
    ensures
        final(cursors).all_seq().len() == old(cursors).all_seq().len(),
        forall|i: int|
            0 <= i < old(cursors).all_seq().len() ==> #[trigger] final(cursors).all_seq()[i]
                == clamp_cursor(old(cursors).all_seq()[i], len as int),
        final(cursors).bounded(len as int),
{
    let c = clamp_one(cursors.primary, len);
    cursors.primary = c;
    let ghost orig = cursors.secondary@;
    let mut i: usize = 0;
    proof {
        assert(old(cursors).all_seq()[0] == old(cursors).primary);
    }
    while i < cursors.secondary.len()
        invariant
            i <= cursors.secondary@.len(),
            cursors.secondary@.len() == orig.len(),
            cursors.primary == clamp_cursor(old(cursors).primary, len as int),
            forall|j: int| i <= j < orig.len() ==> #[trigger] cursors.secondary@[j] == orig[j],
            forall|j: int|
                0 <= j < i ==> #[trigger] cursors.secondary@[j] == clamp_cursor(
                    orig[j],
                    len as int,
                ),
        decreases cursors.secondary@.len() - i,
    {
        let cj = clamp_one(cursors.secondary[i], len);
        cursors.secondary[i] = cj;
        i += 1;
    }
    proof {
        assert forall|k: int| 0 <= k < old(cursors).all_seq().len() implies
            #[trigger] cursors.all_seq()[k] == clamp_cursor(
            old(cursors).all_seq()[k],
            len as int,
        ) by {
            if k == 0 {
                assert(cursors.all_seq()[0] == cursors.primary);
            } else {
                assert(cursors.all_seq()[k] == cursors.secondary@[k - 1]);
                assert(old(cursors).all_seq()[k] == orig[k - 1]);
            }
        }
        assert forall|k: int| 0 <= k < cursors.all_seq().len() implies cursor_bounded(
            #[trigger] cursors.all_seq()[k],
            len as int,
        ) by {}
    }
}

fn clamp_one(c: Cursor, len: usize) -> (r: Cursor)
    ensures
        r == clamp_cursor(c, len as int),
{
    let mut r = c;
    if c.position.0 > len {
        r.position = CharOffset(len);
    }
    if let Some(m) = c.mark {
        if m.0 > len {
            r.mark = Some(CharOffset(len));
        }
    }
    r
}

} // verus!
