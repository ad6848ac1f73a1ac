//! Cursors and cursor sets: stable identities, marks, and the positional
//! adjustment arithmetic applied after every insert and delete.
use vstd::prelude::*;

use crate::position::CharOffset;

verus! {

/// Identity of a cursor, unique within its `CursorSet`.
#[derive(Debug, Clone, Copy, PartialEq, Eq, Structural, Hash)]
pub struct CursorId(pub u64);

/// A single cursor: point, remembered goal column for vertical motion, and an
/// optional selection anchor (mark).
#[derive(Debug, Clone, Copy, PartialEq, Eq, Structural)]
pub struct Cursor {
    pub id: CursorId,
    pub position: CharOffset,
    pub goal_column: Option<usize>,
    pub mark: Option<CharOffset>,
    pub mark_active: bool,
}

/// The cursor's point and mark both lie within a text of `len` chars.
pub open spec fn cursor_bounded(c: Cursor, len: int) -> bool {
    &&& c.position.0 <= len
    &&& (c.mark is Some ==> c.mark.unwrap().0 <= len)
}

/// How a cursor's point and mark move when `len` chars are inserted at `at`:
/// positions strictly greater than `at` shift right, others stay.
pub open spec fn cursor_after_insert(c: Cursor, at: int, len: int) -> Cursor {
    Cursor {
        position: if c.position.0 > at {
            CharOffset((c.position.0 + len) as usize)
        } else {
            c.position
        },
        mark: match c.mark {
            Some(m) => if m.0 > at {
                Some(CharOffset((m.0 + len) as usize))
            } else {
                Some(m)
            },
            None => None,
        },
        ..c
    }
}

/// How a position moves when `[start, end)` is deleted: positions at or past
/// `end` shift left by the deleted length, positions inside collapse to
/// `start`, earlier ones stay.
pub open spec fn pos_after_delete(p: int, start: int, end: int) -> int {
    if p >= end {
        p - (end - start)
    } else if p > start {
        start
    } else {
        p
    }
}

pub open spec fn cursor_after_delete(c: Cursor, start: int, end: int) -> Cursor {
    Cursor {
        position: CharOffset(pos_after_delete(c.position.0 as int, start, end) as usize),
        mark: match c.mark {
            Some(m) => Some(CharOffset(pos_after_delete(m.0 as int, start, end) as usize)),
            None => None,
        },
        ..c
    }
}

impl Cursor {
    pub fn new(position: CharOffset) -> (c: Cursor)
        ensures
            c == (Cursor {
                id: CursorId(0),
                position,
                goal_column: None::<usize>,
                mark: None::<CharOffset>,
                mark_active: false,
            }),
    {
        Cursor { id: CursorId(0), position, goal_column: None, mark: None, mark_active: false }
    }

    pub fn with_id(id: CursorId, position: CharOffset) -> (c: Cursor)
        ensures
            c == (Cursor {
                id,
                position,
                goal_column: None::<usize>,
                mark: None::<CharOffset>,
                mark_active: false,
            }),
    {
        Cursor { id, position, goal_column: None, mark: None, mark_active: false }
    }

    pub fn set_position(&mut self, pos: CharOffset)
        ensures
            *final(self) == (Cursor { position: pos, goal_column: None::<usize>, ..*old(self) }),
    {
        self.position = pos;
        self.goal_column = None;
    }

    pub fn set_mark(&mut self, pos: CharOffset)
        ensures
            *final(self) == (Cursor { mark: Some(pos), mark_active: true, ..*old(self) }),
    {
        self.mark = Some(pos);
        self.mark_active = true;
    }

    pub fn deactivate_mark(&mut self)
        ensures
            *final(self) == (Cursor { mark_active: false, ..*old(self) }),
    {
        self.mark_active = false;
    }

    pub fn clear_mark(&mut self)
        ensures
            *final(self) == (Cursor {
                mark: None::<CharOffset>,
                mark_active: false,
                ..*old(self)
            }),
    {
        self.mark = None;
        self.mark_active = false;
    }

    /// The live selection: the span between mark and point, low end first,
    /// present exactly when the mark is active.
    pub open spec fn spec_region(self) -> Option<(CharOffset, CharOffset)> {
        if self.mark_active && self.mark is Some {
            let m = self.mark.unwrap();
            if m.0 < self.position.0 {
                Some((m, self.position))
            } else {
                Some((self.position, m))
            }
        } else {
            None
        }
    }

    pub fn region(&self) -> (r: Option<(CharOffset, CharOffset)>)
        ensures
            r == self.spec_region(),
    {
        if self.mark_active {
            match self.mark {
                Some(m) => if m.0 < self.position.0 {
                    Some((m, self.position))
                } else {
                    Some((self.position, m))
                },
                None => None,
            }
        } else {
            None
        }
    }

    pub fn region_or_point(&self) -> (r: (CharOffset, CharOffset))
        ensures
            r == match self.spec_region() {
                Some(pair) => pair,
                None => (self.position, self.position),
            },
    {
        match self.region() {
            Some(pair) => pair,
            None => (self.position, self.position),
        }
    }

    pub fn exchange_point_and_mark(&mut self)
        ensures
            *final(self) == match old(self).mark {
                Some(m) => Cursor { position: m, mark: Some(old(self).position), ..*old(self) },
                None => *old(self),
            },
    {
        if let Some(m) = self.mark {
            let old_pos = self.position;
            self.position = m;
            self.mark = Some(old_pos);
        }
    }
}

/// A nonempty cursor collection: one primary cursor plus ordered secondaries.
#[derive(Debug)]
pub struct CursorSet {
    pub primary: Cursor,
    pub secondary: Vec<Cursor>,
    pub next_id: u64,
}

/// Positions strictly increase along the sequence.
pub open spec fn sorted_strict(s: Seq<Cursor>) -> bool {
    forall|i: int, j: int|
        0 <= i < j < s.len() ==> #[trigger] s[i].position.0 < #[trigger] s[j].position.0
}

/// Some cursor in the sequence sits at position `p`.
pub open spec fn has_position(s: Seq<Cursor>, p: int) -> bool {
    exists|i: int| 0 <= i < s.len() && #[trigger] s[i].position.0 == p
}

/// The first cursor of the sequence carrying `id`.
pub open spec fn find_by_id_m(s: Seq<Cursor>, id: CursorId) -> Option<Cursor>
    decreases s.len(),
{
    if s.len() == 0 {
        None
    } else if s[0].id == id {
        Some(s[0])
    } else {
        find_by_id_m(s.drop_first(), id)
    }
}

/// `c` folded into a position-sorted, position-unique sequence: dropped on a
/// collision, otherwise placed before the first larger position.
pub open spec fn insert_unique_m(s: Seq<Cursor>, c: Cursor) -> Seq<Cursor>
    decreases s.len(),
{
    if s.len() == 0 {
        seq![c]
    } else if c.position.0 == s[0].position.0 {
        s
    } else if c.position.0 < s[0].position.0 {
        seq![c] + s
    } else {
        seq![s[0]] + insert_unique_m(s.drop_first(), c)
    }
}

/// Each cursor of `s` folded into `acc` in turn.
pub open spec fn merge_fold(acc: Seq<Cursor>, s: Seq<Cursor>) -> Seq<Cursor>
    decreases s.len(),
{
    if s.len() == 0 {
        acc
    } else {
        merge_fold(insert_unique_m(acc, s[0]), s.drop_first())
    }
}

/// What `sort_and_merge` leaves: the cursors sorted by position with later
/// duplicates dropped.
pub open spec fn sort_merge_m(s: Seq<Cursor>) -> Seq<Cursor> {
    merge_fold(Seq::empty(), s)
}

/// Shifting every position in `s` right by `len` stays within `usize`.
pub open spec fn insert_shift_fits(s: Seq<Cursor>, len: int) -> bool {
    forall|i: int|
        0 <= i < s.len() ==> (#[trigger] s[i]).position.0 + len <= usize::MAX && (s[i].mark
            is Some ==> s[i].mark.unwrap().0 + len <= usize::MAX)
}

impl Clone for CursorSet {
    fn clone(&self) -> (r: CursorSet)
        ensures
            r.primary == self.primary,
            r.secondary@ == self.secondary@,
    {
        let mut sec: Vec<Cursor> = Vec::new();
        let mut i: usize = 0;
        while i < self.secondary.len()
            invariant
                i <= self.secondary.len(),
                sec@ == self.secondary@.take(i as int),
            decreases self.secondary.len() - i,
        {
            sec.push(self.secondary[i]);
            proof {
                assert(sec@ =~= self.secondary@.take(i as int + 1));
            }
            i += 1;
        }
        proof {
            assert(self.secondary@.take(self.secondary@.len() as int) =~= self.secondary@);
        }
        CursorSet { primary: self.primary, secondary: sec, next_id: self.next_id }
    }
}

impl CursorSet {
    /// All cursors of the set, primary first.
    pub open spec fn all_seq(self) -> Seq<Cursor> {
        seq![self.primary] + self.secondary@
    }

    /// Every point and mark in the set lies within a text of `len` chars.
    pub open spec fn bounded(self, len: int) -> bool {
        forall|i: int| 0 <= i < self.all_seq().len() ==> cursor_bounded(#[trigger] self.all_seq()[i], len)
    }

    pub fn new() -> (s: CursorSet)
        ensures
            s.primary == Cursor::spec_default(),
            s.secondary@.len() == 0,
    {
        CursorSet { primary: Cursor::with_id(CursorId(0), CharOffset(0)), secondary: Vec::new(), next_id: 1 }
    }

    pub fn single(position: CharOffset) -> (s: CursorSet)
        ensures
            s.primary == (Cursor {
                id: CursorId(0),
                position,
                goal_column: None::<usize>,
                mark: None::<CharOffset>,
                mark_active: false,
            }),
            s.secondary@.len() == 0,
    {
        CursorSet { primary: Cursor::with_id(CursorId(0), position), secondary: Vec::new(), next_id: 1 }
    }

    /// A snapshot of all cursors, primary first.
    pub fn all_cursors(&self) -> (v: Vec<Cursor>)
        ensures
            v@ == self.all_seq(),
    {
        let mut v: Vec<Cursor> = Vec::new();
        v.push(self.primary);
        let mut i: usize = 0;
        while i < self.secondary.len()
            invariant
                i <= self.secondary.len(),
                v@ == seq![self.primary] + self.secondary@.take(i as int),
            decreases self.secondary.len() - i,
        {
            v.push(self.secondary[i]);
            proof {
                assert(seq![self.primary] + self.secondary@.take(i as int + 1) =~= (seq![
                    self.primary,
                ] + self.secondary@.take(i as int)).push(self.secondary@[i as int]));
            }
            i += 1;
        }
        proof {
            assert(self.secondary@.take(self.secondary@.len() as int) =~= self.secondary@);
        }
        v
    }

    pub fn count(&self) -> (n: usize)
        ensures
            self.secondary@.len() < usize::MAX ==> n == self.all_seq().len(),
    {
        let n = self.secondary.len();
        if n < usize::MAX {
            n + 1
        } else {
            n
        }
    }

    pub fn remove_secondary_cursors(&mut self)
        ensures
            final(self).primary == old(self).primary,
            final(self).secondary@.len() == 0,
    {
        self.secondary.clear();
    }

    pub fn deactivate_all_marks(&mut self)
        ensures
            final(self).all_seq().len() == old(self).all_seq().len(),
            forall|i: int|
                0 <= i < old(self).all_seq().len() ==> #[trigger] final(self).all_seq()[i]
                    == (Cursor { mark_active: false, ..old(self).all_seq()[i] }),
    {
        self.primary.mark_active = false;
        let ghost orig = self.secondary@;
        let mut i: usize = 0;
        while i < self.secondary.len()
            invariant
                i <= self.secondary.len(),
                self.primary == (Cursor { mark_active: false, ..old(self).primary }),
                self.secondary@.len() == orig.len(),
                forall|j: int|
                    0 <= j < i ==> #[trigger] self.secondary@[j] == (Cursor {
                        mark_active: false,
                        ..orig[j]
                    }),
                forall|j: int| i <= j < orig.len() ==> #[trigger] self.secondary@[j] == orig[j],
            decreases self.secondary.len() - i,
        {
            self.secondary[i].mark_active = false;
            i += 1;
        }
    }

    /// Shift every point and mark strictly right of `insert_pos` by `len`.
    pub fn adjust_positions_after_insert(&mut self, insert_pos: CharOffset, len: usize)
        requires
            insert_shift_fits(old(self).all_seq(), len as int),
        ensures
            final(self).all_seq().len() == old(self).all_seq().len(),
            forall|i: int|
                0 <= i < old(self).all_seq().len() ==> #[trigger] final(self).all_seq()[i]
                    == cursor_after_insert(old(self).all_seq()[i], insert_pos.0 as int, len as int),
    {
        proof {
            assert(old(self).all_seq()[0] == old(self).primary);
            assert forall|j: int| 0 <= j < old(self).secondary@.len() implies (
            #[trigger] old(self).secondary@[j]).position.0 + len <= usize::MAX && (old(
                self,
            ).secondary@[j].mark is Some ==> old(self).secondary@[j].mark.unwrap().0 + len
                <= usize::MAX) by {
                assert(old(self).all_seq()[j + 1] == old(self).secondary@[j]);
            }
        }
        let c = adjust_cursor_insert(self.primary, insert_pos, len);
        self.primary = c;
        let ghost orig = self.secondary@;
        let mut i: usize = 0;
        while i < self.secondary.len()
            invariant
                i <= self.secondary.len(),
                self.primary == cursor_after_insert(old(self).primary, insert_pos.0 as int, len as int),
                self.secondary@.len() == orig.len(),
                forall|j: int| i <= j < orig.len() ==> #[trigger] self.secondary@[j] == orig[j],
                forall|j: int|
                    0 <= j < i ==> #[trigger] self.secondary@[j] == cursor_after_insert(
                        orig[j],
                        insert_pos.0 as int,
                        len as int,
                    ),
                forall|j: int|
                    0 <= j < orig.len() ==> (#[trigger] orig[j]).position.0 + len <= usize::MAX && (
                    orig[j].mark is Some ==> orig[j].mark.unwrap().0 + len <= usize::MAX),
            decreases self.secondary.len() - i,
        {
            let cj = adjust_cursor_insert(self.secondary[i], insert_pos, len);
            self.secondary[i] = cj;
            i += 1;
        }
        proof {
            assert forall|k: int| 0 <= k < old(self).all_seq().len() implies #[trigger] self.all_seq()[k] == cursor_after_insert(
                old(self).all_seq()[k],
                insert_pos.0 as int,
                len as int,
            ) by {
                if k == 0 {
                    assert(self.all_seq()[0] == self.primary);
                    assert(old(self).all_seq()[0] == old(self).primary);
                } else {
                    assert(self.all_seq()[k] == self.secondary@[k - 1]);
                    assert(old(self).all_seq()[k] == orig[k - 1]);
                }
            }
        }
    }

    /// Apply the deletion arithmetic of `pos_after_delete` to every point and
    /// mark, for the deleted span `[delete_start, delete_end)`.
    pub fn adjust_positions_after_delete(&mut self, delete_start: CharOffset, delete_end: CharOffset)
        requires
            delete_start.0 <= delete_end.0,
        ensures
            final(self).all_seq().len() == old(self).all_seq().len(),
            forall|i: int|
                0 <= i < old(self).all_seq().len() ==> #[trigger] final(self).all_seq()[i]
                    == cursor_after_delete(
                    old(self).all_seq()[i],
                    delete_start.0 as int,
                    delete_end.0 as int,
                ),
    {
        let c = adjust_cursor_delete(self.primary, delete_start, delete_end);
        self.primary = c;
        let ghost orig = self.secondary@;
        let mut i: usize = 0;
        while i < self.secondary.len()
            invariant
                i <= self.secondary.len(),
                delete_start.0 <= delete_end.0,
                self.primary == cursor_after_delete(old(self).primary, delete_start.0 as int, delete_end.0 as int),
                self.secondary@.len() == orig.len(),
                forall|j: int| i <= j < orig.len() ==> #[trigger] self.secondary@[j] == orig[j],
                forall|j: int|
                    0 <= j < i ==> #[trigger] self.secondary@[j] == cursor_after_delete(
                        orig[j],
                        delete_start.0 as int,
                        delete_end.0 as int,
                    ),
            decreases self.secondary.len() - i,
        {
            let cj = adjust_cursor_delete(self.secondary[i], delete_start, delete_end);
            self.secondary[i] = cj;
            i += 1;
        }
        proof {
            assert forall|k: int| 0 <= k < old(self).all_seq().len() implies #[trigger] self.all_seq()[k] == cursor_after_delete(
                old(self).all_seq()[k],
                delete_start.0 as int,
                delete_end.0 as int,
            ) by {
                if k == 0 {
                    assert(self.all_seq()[0] == self.primary);
                    assert(old(self).all_seq()[0] == old(self).primary);
                } else {
                    assert(self.all_seq()[k] == self.secondary@[k - 1]);
                    assert(old(self).all_seq()[k] == orig[k - 1]);
                }
            }
        }
    }
}

impl Cursor {
    /// The cursor `CursorSet::new` starts with.
    pub open spec fn spec_default() -> Cursor {
        Cursor {
            id: CursorId(0),
            position: CharOffset(0),
            goal_column: None,
            mark: None,
            mark_active: false,
        }
    }
}

fn adjust_cursor_insert(c: Cursor, insert_pos: CharOffset, len: usize) -> (r: Cursor)
    requires
        c.position.0 + len <= usize::MAX,
        c.mark is Some ==> c.mark.unwrap().0 + len <= usize::MAX,
    ensures
        r == cursor_after_insert(c, insert_pos.0 as int, len as int),
{
    let mut r = c;
    if c.position.0 > insert_pos.0 {
        r.position = CharOffset(c.position.0 + len);
    }
    if let Some(m) = c.mark {
        if m.0 > insert_pos.0 {
            r.mark = Some(CharOffset(m.0 + len));
        }
    }
    r
}

fn adjust_cursor_delete(c: Cursor, delete_start: CharOffset, delete_end: CharOffset) -> (r: Cursor)
    requires
        delete_start.0 <= delete_end.0,
    ensures
        r == cursor_after_delete(c, delete_start.0 as int, delete_end.0 as int),
{
    let deleted_len = delete_end.0 - delete_start.0;
    let mut r = c;
    if c.position.0 >= delete_end.0 {
        r.position = CharOffset(c.position.0 - deleted_len);
    } else if c.position.0 > delete_start.0 {
        r.position = delete_start;
    }
    if let Some(m) = c.mark {
        if m.0 >= delete_end.0 {
            r.mark = Some(CharOffset(m.0 - deleted_len));
        } else if m.0 > delete_start.0 {
            r.mark = Some(delete_start);
        }
    }
    r
}


/// `x` inserted into `s` just before the first element it is not smaller
/// than; on a descending sequence this keeps the order descending.
pub open spec fn insert_desc(s: Seq<usize>, x: usize) -> Seq<usize>
    decreases s.len(),
{
    if s.len() == 0 {
        seq![x]
    } else if x >= s[0] {
        seq![x] + s
    } else {
        seq![s[0]] + insert_desc(s.drop_first(), x)
    }
}

/// The descending insertion sort of `s`.
pub open spec fn sort_desc(s: Seq<usize>) -> Seq<usize>
    decreases s.len(),
{
    if s.len() == 0 {
        Seq::empty()
    } else {
        insert_desc(sort_desc(s.drop_first()), s[0])
    }
}

/// The positions of the cursors, in sequence order.
pub open spec fn positions_of(s: Seq<Cursor>) -> Seq<usize> {
    s.map_values(|c: Cursor| c.position.0)
}

proof fn lemma_insert_desc_at(s: Seq<usize>, x: usize, i: int)
    requires
        0 <= i <= s.len(),
        forall|j: int| 0 <= j < i ==> s[j] > x,
        i < s.len() ==> x >= s[i],
    ensures
        insert_desc(s, x) == s.take(i) + seq![x] + s.skip(i),
    decreases i,
{
    if i == 0 {
        if s.len() == 0 {
            assert(insert_desc(s, x) =~= s.take(0) + seq![x] + s.skip(0));
        } else {
            assert(insert_desc(s, x) =~= s.take(0) + seq![x] + s.skip(0));
        }
    } else {
        lemma_insert_desc_at(s.drop_first(), x, i - 1);
        assert(s.drop_first().take(i - 1) =~= s.take(i).drop_first());
        assert(s.drop_first().skip(i - 1) =~= s.skip(i));
        assert(seq![s[0]] + (s.drop_first().take(i - 1) + seq![x] + s.drop_first().skip(i - 1))
            =~= s.take(i) + seq![x] + s.skip(i));
    }
}

/// Insert `x` into `v` before the first element not greater than it.
fn insert_desc_exec(v: &mut Vec<CharOffset>, x: CharOffset)
    ensures
        positions_of_offsets(final(v)@) == insert_desc(positions_of_offsets(old(v)@), x.0),
{
    let mut i: usize = 0;
    while i < v.len() && v[i].0 > x.0
        invariant
            i <= v.len(),
            *v == *old(v),
            forall|j: int| 0 <= j < i ==> (#[trigger] v@[j]).0 > x.0,
        decreases v.len() - i,
    {
        i += 1;
    }
    proof {
        assert forall|j: int| 0 <= j < i implies positions_of_offsets(v@)[j] > x.0 by {
            assert(v@[j].0 > x.0);
        }
        lemma_insert_desc_at(positions_of_offsets(v@), x.0, i as int);
    }
    v.insert(i, x);
    proof {
        assert(positions_of_offsets(v@) =~= positions_of_offsets(old(v)@).take(i as int) + seq![
            x.0,
        ] + positions_of_offsets(old(v)@).skip(i as int));
    }
}

/// The raw position of each offset, in sequence order.
pub open spec fn positions_of_offsets(s: Seq<CharOffset>) -> Seq<usize> {
    s.map_values(|c: CharOffset| c.0)
}

impl CursorSet {
    /// Every cursor position, sorted high to low; edits driven by this order
    /// cannot invalidate offsets still to be processed.
    pub fn positions_descending(&self) -> (r: Vec<CharOffset>)
        ensures
            positions_of_offsets(r@) == sort_desc(positions_of(self.all_seq())),
    {
        let all = self.all_cursors();
        let ghost ps = positions_of(self.all_seq());
        let mut r: Vec<CharOffset> = Vec::new();
        let mut k: usize = all.len();
        proof {
            assert(ps.skip(k as int) =~= Seq::<usize>::empty());
        }
        while k > 0
            invariant
                k <= all.len(),
                all@ == self.all_seq(),
                ps == positions_of(self.all_seq()),
                positions_of_offsets(r@) == sort_desc(ps.skip(k as int)),
            decreases k,
        {
            k = k - 1;
            insert_desc_exec(&mut r, all[k].position);
            proof {
                assert(ps.skip(k as int).drop_first() =~= ps.skip(k as int + 1));
                assert(ps.skip(k as int)[0] == all@[k as int].position.0);
            }
        }
        proof {
            assert(ps.skip(0) =~= ps);
        }
        r
    }

    /// Look a cursor up by its identity.
    pub fn get_by_id(&self, id: CursorId) -> (r: Option<Cursor>)
        ensures
            r == find_by_id_m(self.all_seq(), id),
    {
        proof {
            assert(self.all_seq()[0] == self.primary);
        }
        if self.primary.id.0 == id.0 {
            return Some(self.primary);
        }
        proof {
            assert(self.all_seq().drop_first() =~= self.secondary@);
            assert(self.secondary@.skip(0) =~= self.secondary@);
        }
        let mut i: usize = 0;
        while i < self.secondary.len()
            invariant
                i <= self.secondary@.len(),
                find_by_id_m(self.all_seq(), id) == find_by_id_m(self.secondary@.skip(i as int), id),
            decreases self.secondary@.len() - i,
        {
            proof {
                assert(self.secondary@.skip(i as int)[0] == self.secondary@[i as int]);
                assert(self.secondary@.skip(i as int).drop_first() =~= self.secondary@.skip(
                    i as int + 1,
                ));
            }
            if self.secondary[i].id.0 == id.0 {
                return Some(self.secondary[i]);
            }
            i += 1;
        }
        proof {
            assert(self.secondary@.skip(self.secondary@.len() as int) =~= Seq::<Cursor>::empty());
        }
        None
    }

    /// Add a cursor at `position` unless one is already there; the set is
    /// re-sorted and deduplicated afterwards.
    pub fn add_cursor(&mut self, position: CharOffset)
        ensures
            has_position(old(self).all_seq(), position.0 as int) ==> final(self).all_seq() == old(
                self,
            ).all_seq(),
            !has_position(old(self).all_seq(), position.0 as int) ==> {
                &&& sorted_strict(final(self).all_seq())
                &&& forall|p: int|
                    has_position(final(self).all_seq(), p) <==> (has_position(
                        old(self).all_seq(),
                        p,
                    ) || p == position.0)
                &&& forall|i: int|
                    0 <= i < final(self).all_seq().len() ==> old(self).all_seq().contains(
                        #[trigger] final(self).all_seq()[i],
                    ) || final(self).all_seq()[i].position == position
            },
    {
        if self.primary.position.0 == position.0 {
            proof {
                assert(old(self).all_seq()[0].position.0 == position.0);
            }
            return;
        }
        let mut i: usize = 0;
        while i < self.secondary.len()
            invariant
                i <= self.secondary.len(),
                *self == *old(self),
                forall|j: int| 0 <= j < i ==> (#[trigger] self.secondary@[j]).position.0 != position.0,
            decreases self.secondary.len() - i,
        {
            if self.secondary[i].position.0 == position.0 {
                proof {
                    assert(old(self).all_seq()[i + 1].position.0 == position.0);
                }
                return;
            }
            i += 1;
        }
        proof {
            assert forall|j: int| 0 <= j < old(self).all_seq().len() implies (#[trigger] old(
                self,
            ).all_seq()[j]).position.0 != position.0 by {
                if j > 0 {
                    assert(old(self).all_seq()[j] == self.secondary@[j - 1]);
                }
            }
        }
        let id = self.next_id;
        if self.next_id < u64::MAX {
            self.next_id = self.next_id + 1;
        }
        let c = Cursor::with_id(CursorId(id), position);
        self.secondary.push(c);
        proof {
            assert(self.all_seq() =~= old(self).all_seq().push(c));
            assert(self.all_seq()[old(self).all_seq().len() as int] == c);
            assert forall|p: int| has_position(self.all_seq(), p) implies (has_position(
                old(self).all_seq(),
                p,
            ) || p == position.0) by {
                let w = choose|w: int|
                    0 <= w < self.all_seq().len() && #[trigger] self.all_seq()[w].position.0 == p;
                if w < old(self).all_seq().len() {
                    assert(old(self).all_seq()[w].position.0 == p);
                }
            }
        }
        let ghost mid = self.all_seq();
        proof {
            assert(has_position(mid, position.0 as int)) by {
                assert(mid[old(self).all_seq().len() as int].position.0 == position.0);
            }
            assert forall|p: int| has_position(old(self).all_seq(), p) implies has_position(
                mid,
                p,
            ) by {
                let w = choose|w: int|
                    0 <= w < old(self).all_seq().len() && #[trigger] old(
                        self,
                    ).all_seq()[w].position.0 == p;
                assert(mid[w].position.0 == p);
            }
        }
        self.sort_and_merge();
        proof {
            assert forall|i: int| 0 <= i < self.all_seq().len() implies old(self).all_seq().contains(
                #[trigger] self.all_seq()[i],
            ) || self.all_seq()[i].position == position by {
                assert(mid.contains(self.all_seq()[i]));
                let w = choose|w: int| 0 <= w < mid.len() && mid[w] == self.all_seq()[i];
                if w < old(self).all_seq().len() {
                    assert(old(self).all_seq()[w] == self.all_seq()[i]);
                } else {
                    assert(mid[w] == c);
                }
            }
        }
    }

    /// Sort all cursors by position and merge those that collide; the primary
    /// ends at the minimum surviving position.
    #[verifier::loop_isolation(false)]
    pub fn sort_and_merge(&mut self)
        ensures
            final(self).all_seq() == sort_merge_m(old(self).all_seq()),
            sorted_strict(final(self).all_seq()),
            forall|p: int|
                has_position(final(self).all_seq(), p) <==> has_position(old(self).all_seq(), p),
            forall|i: int|
                0 <= i < final(self).all_seq().len() ==> old(self).all_seq().contains(
                    #[trigger] final(self).all_seq()[i],
                ),
    {
        if self.secondary.len() == 0 {
            proof {
                assert(self.all_seq().len() == 1);
                assert(self.all_seq().contains(self.all_seq()[0]));
                assert(self.all_seq().drop_first() =~= Seq::<Cursor>::empty());
                assert(insert_unique_m(Seq::<Cursor>::empty(), self.all_seq()[0]) =~= self.all_seq());
                assert(merge_fold(
                    insert_unique_m(Seq::<Cursor>::empty(), self.all_seq()[0]),
                    Seq::<Cursor>::empty(),
                ) == insert_unique_m(Seq::<Cursor>::empty(), self.all_seq()[0]));
                assert(sort_merge_m(self.all_seq()) == merge_fold(
                    insert_unique_m(Seq::<Cursor>::empty(), self.all_seq()[0]),
                    self.all_seq().drop_first(),
                ));
                assert(sort_merge_m(self.all_seq()) == self.all_seq());
            }
            return;
        }
        let all = self.all_cursors();
        let mut merged: Vec<Cursor> = Vec::new();
        let mut k: usize = 0;
        proof {
            assert(all@.take(0) =~= Seq::<Cursor>::empty());
            assert(all@.skip(0) =~= all@);
        }
        while k < all.len()
            invariant
                k <= all.len(),
                all@ == old(self).all_seq(),
                sorted_strict(merged@),
                merge_fold(merged@, all@.skip(k as int)) == sort_merge_m(all@),
                forall|p: int| has_position(merged@, p) <==> has_position(all@.take(k as int), p),
                forall|i: int| 0 <= i < merged@.len() ==> all@.contains(#[trigger] merged@[i]),
            decreases all.len() - k,
        {
            let ghost pre = merged@;
            proof {
                assert(all@.skip(k as int)[0] == all@[k as int]);
                assert(all@.skip(k as int).drop_first() =~= all@.skip(k as int + 1));
            }
            insert_unique_sorted(&mut merged, all[k]);
            proof {
                assert(all@.take(k as int + 1) =~= all@.take(k as int).push(all@[k as int]));
                assert(all@.contains(all@[k as int]));
                assert forall|p: int| has_position(all@.take(k as int + 1), p) implies has_position(
                    merged@,
                    p,
                ) by {
                    let w = choose|w: int|
                        0 <= w < all@.take(k as int + 1).len() && #[trigger] all@.take(
                            k as int + 1,
                        )[w].position.0 == p;
                    if w < k as int {
                        assert(all@.take(k as int)[w].position.0 == p);
                    }
                }
                assert forall|p: int| has_position(merged@, p) implies has_position(
                    all@.take(k as int + 1),
                    p,
                ) by {
                    if has_position(pre, p) {
                        let w = choose|w: int|
                            0 <= w < all@.take(k as int).len() && #[trigger] all@.take(
                                k as int,
                            )[w].position.0 == p;
                        assert(all@.take(k as int + 1)[w].position.0 == p);
                    } else {
                        assert(all@.take(k as int + 1)[k as int].position.0 == p);
                    }
                }
            }
            k += 1;
        }
        proof {
            assert(all@.take(k as int) =~= all@);
            assert(has_position(all@.take(k as int), old(self).primary.position.0 as int)) by {
                assert(all@.take(k as int)[0].position.0 == old(self).primary.position.0);
            }
            assert(has_position(merged@, old(self).primary.position.0 as int));
            assert(merged@.len() > 0) by {
                let w = choose|w: int|
                    0 <= w < merged@.len() && #[trigger] merged@[w].position.0 == old(
                        self,
                    ).primary.position.0 as int;
            }
        }
        let ghost whole = merged@;
        let first = merged.remove(0);
        self.primary = first;
        self.secondary = merged;
        proof {
            assert(self.all_seq() =~= whole);
        }
    }
}

proof fn lemma_insert_unique_at(s: Seq<Cursor>, c: Cursor, i: int)
    requires
        0 <= i <= s.len(),
        forall|j: int| 0 <= j < i ==> s[j].position.0 < c.position.0,
        i < s.len() ==> c.position.0 <= s[i].position.0,
    ensures
        insert_unique_m(s, c) == if i < s.len() && s[i].position.0 == c.position.0 {
            s
        } else {
            s.take(i) + seq![c] + s.skip(i)
        },
    decreases i,
{
    if i == 0 {
        if !(s.len() > 0 && s[0].position.0 == c.position.0) {
            assert(insert_unique_m(s, c) =~= s.take(0) + seq![c] + s.skip(0));
        }
    } else {
        lemma_insert_unique_at(s.drop_first(), c, i - 1);
        if i < s.len() {
            assert(s.drop_first()[i - 1] == s[i]);
        }
        if i < s.len() && s[i].position.0 == c.position.0 {
            assert(insert_unique_m(s, c) =~= s);
        } else {
            assert(s.drop_first().take(i - 1) =~= s.take(i).drop_first());
            assert(s.drop_first().skip(i - 1) =~= s.skip(i));
            assert(seq![s[0]] + (s.drop_first().take(i - 1) + seq![c] + s.drop_first().skip(i - 1))
                =~= s.take(i) + seq![c] + s.skip(i));
        }
    }
}

/// Insert `c` into the position-sorted `m`, skipping it when some element
/// already holds its position.
fn insert_unique_sorted(m: &mut Vec<Cursor>, c: Cursor)
    requires
        sorted_strict(old(m)@),
    ensures
        final(m)@ == insert_unique_m(old(m)@, c),
        sorted_strict(final(m)@),
        forall|p: int|
            has_position(final(m)@, p) <==> (has_position(old(m)@, p) || p == c.position.0),
        forall|i: int|
            0 <= i < final(m)@.len() ==> old(m)@.contains(#[trigger] final(m)@[i]) || final(m)@[i]
                == c,
{
    let mut i: usize = 0;
    while i < m.len() && m[i].position.0 < c.position.0
        invariant
            i <= m.len(),
            *m == *old(m),
            sorted_strict(m@),
            forall|j: int| 0 <= j < i ==> (#[trigger] m@[j]).position.0 < c.position.0,
        decreases m.len() - i,
    {
        i += 1;
    }
    proof {
        lemma_insert_unique_at(m@, c, i as int);
    }
    if i < m.len() && m[i].position.0 == c.position.0 {
        proof {
            assert(has_position(m@, c.position.0 as int)) by {
                assert(m@[i as int].position.0 == c.position.0);
            }
            assert forall|k: int| 0 <= k < m@.len() implies m@.contains(#[trigger] m@[k]) by {}
        }
        return ;
    }
    let ghost pre = m@;
    let ghost ii = i as int;
    proof {
        assert(ii < pre.len() ==> pre[ii].position.0 > c.position.0);
    }
    m.insert(i, c);
    proof {
        assert(m@ =~= pre.take(ii) + seq![c] + pre.skip(ii));
        assert forall|a: int, b: int| 0 <= a < b < m@.len() implies (#[trigger] m@[a]).position.0 < (
        #[trigger] m@[b]).position.0 by {
            if a < ii {
                assert(m@[a] == pre[a]);
                assert(pre[a].position.0 < c.position.0);
            }
            if a == ii {
                assert(m@[a] == c);
            }
            if a > ii {
                assert(m@[a] == pre[a - 1]);
            }
            if b < ii {
                assert(m@[b] == pre[b]);
            }
            if b == ii {
                assert(m@[b] == c);
            }
            if b > ii {
                assert(m@[b] == pre[b - 1]);
                if b - 1 > ii {
                    assert(pre[ii].position.0 < pre[b - 1].position.0);
                }
            }
        }
        assert forall|p: int| has_position(m@, p) implies (has_position(pre, p) || p
            == c.position.0) by {
            let w = choose|w: int| 0 <= w < m@.len() && #[trigger] m@[w].position.0 == p;
            if w < ii {
                assert(pre[w].position.0 == p);
            } else if w > ii {
                assert(pre[w - 1].position.0 == p);
            }
        }
        assert forall|p: int| has_position(pre, p) implies has_position(m@, p) by {
            let w = choose|w: int| 0 <= w < pre.len() && #[trigger] pre[w].position.0 == p;
            if w < ii {
                assert(m@[w].position.0 == p);
            } else {
                assert(m@[w + 1].position.0 == p);
            }
        }
        assert(m@[ii].position.0 == c.position.0);
        assert forall|k: int| 0 <= k < m@.len() implies pre.contains(#[trigger] m@[k]) || m@[k]
            == c by {
            if k < ii {
                assert(pre[k] == m@[k]);
            } else if k > ii {
                assert(pre[k - 1] == m@[k]);
            }
        }
    }
}


proof fn lemma_insert_desc_max(s: Seq<usize>, x: usize)
    ensures
        insert_desc(s, x).len() == s.len() + 1,
        insert_desc(s, x)[0] == if s.len() > 0 && s[0] > x {
            s[0]
        } else {
            x
        },
    decreases s.len(),
{
    if s.len() > 0 && !(x >= s[0]) {
        lemma_insert_desc_max(s.drop_first(), x);
    }
}

/// The descending sort keeps the length, and its head bounds every element.
pub proof fn lemma_sort_desc_max(s: Seq<usize>)
    ensures
        sort_desc(s).len() == s.len(),
        forall|i: int| 0 <= i < s.len() ==> #[trigger] s[i] <= sort_desc(s)[0],
    decreases s.len(),
{
    if s.len() > 0 {
        lemma_sort_desc_max(s.drop_first());
        lemma_insert_desc_max(sort_desc(s.drop_first()), s[0]);
        assert forall|i: int| 0 <= i < s.len() implies #[trigger] s[i] <= sort_desc(s)[0] by {
            if i > 0 {
                assert(s.drop_first()[i - 1] == s[i]);
                if s.drop_first().len() > 0 {
                    assert(s[i] <= sort_desc(s.drop_first())[0]);
                }
            }
        }
    }
}

} // verus!
