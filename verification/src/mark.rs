//! The mark ring: a bounded ring of former point positions, shifted under
//! edits like cursors are.
use std::collections::VecDeque;

use vstd::prelude::*;

use crate::position::CharOffset;

verus! {

/// A saved point position.
#[derive(Debug, Clone, Copy, PartialEq, Eq, Structural)]
pub struct Mark(pub CharOffset);

impl Mark {
    pub fn new(position: CharOffset) -> (m: Mark)
        ensures
            m.0 == position,
    {
        Mark(position)
    }

    pub fn position(&self) -> (p: CharOffset)
        ensures
            p == self.0,
    {
        self.0
    }
}

/// A bounded deque of marks, newest first; pushing at capacity drops the
/// oldest.
#[derive(Debug, Clone)]
pub struct MarkRing {
    marks: VecDeque<Mark>,
    capacity: usize,
}

impl MarkRing {
    /// The marks, newest first.
    pub closed spec fn marks_seq(self) -> Seq<Mark> {
        self.marks@
    }

    pub closed spec fn cap(self) -> int {
        self.capacity as int
    }

    /// The ring never outgrows its capacity (a capacity of zero still admits
    /// the single freshly pushed mark).
    pub open spec fn wf(self) -> bool {
        self.marks_seq().len() <= self.cap() || (self.cap() == 0 && self.marks_seq().len() <= 1)
    }

    pub fn new(capacity: usize) -> (r: MarkRing)
        ensures
            r.marks_seq() == Seq::<Mark>::empty(),
            r.cap() == capacity,
            r.wf(),
    {
        MarkRing { marks: VecDeque::with_capacity(capacity), capacity }
    }

    /// Push a mark at the front unless it equals the current front; at
    /// capacity the oldest mark falls off the back.
    pub fn push(&mut self, mark: Mark)
        ensures
            final(self).cap() == old(self).cap(),
            old(self).marks_seq().len() > 0 && old(self).marks_seq()[0] == mark ==> final(self).marks_seq() == old(self).marks_seq(),
            !(old(self).marks_seq().len() > 0 && old(self).marks_seq()[0] == mark) ==> final(self).marks_seq() == seq![mark] + (if old(self).marks_seq().len() >= old(self).cap() && old(
                self,
            ).marks_seq().len() > 0 {
                old(self).marks_seq().drop_last()
            } else {
                old(self).marks_seq()
            }),
            old(self).wf() ==> final(self).wf(),
    {
        if self.marks.len() > 0 {
            let front = self.marks[0];
            if front.0.0 == mark.0.0 {
                return ;
            }
        }
        if self.marks.len() >= self.capacity && self.marks.len() > 0 {
            let _ = self.marks.pop_back();
        }
        self.marks.push_front(mark);
        proof {
            if old(self).marks_seq().len() >= old(self).cap() && old(self).marks_seq().len() > 0 {
                assert(self.marks@ =~= seq![mark] + old(self).marks_seq().drop_last());
            }
        }
    }

    /// Take the newest mark off the ring.
    pub fn pop(&mut self) -> (r: Option<Mark>)
        ensures
            final(self).cap() == old(self).cap(),
            old(self).wf() ==> final(self).wf(),
            match r {
                Some(m) => old(self).marks_seq().len() > 0 && m == old(self).marks_seq()[0] && final(self).marks_seq() == old(self).marks_seq().drop_first(),
                None => old(self).marks_seq().len() == 0 && final(self).marks_seq() == old(
                    self,
                ).marks_seq(),
            },
    {
        let r = self.marks.pop_front();
        proof {
            if old(self).marks_seq().len() > 0 {
                assert(self.marks@ =~= old(self).marks_seq().drop_first());
            }
        }
        r
    }

    /// The newest mark, if any.
    pub fn current(&self) -> (r: Option<Mark>)
        ensures
            match r {
                Some(m) => self.marks_seq().len() > 0 && m == self.marks_seq()[0],
                None => self.marks_seq().len() == 0,
            },
    {
        if self.marks.len() > 0 {
            Some(self.marks[0])
        } else {
            None
        }
    }

    /// Move the newest mark to the back, exposing the one before it.
    pub fn rotate(&mut self)
        ensures
            final(self).cap() == old(self).cap(),
            old(self).wf() ==> final(self).wf(),
            old(self).marks_seq().len() == 0 ==> final(self).marks_seq() == old(self).marks_seq(),
            old(self).marks_seq().len() > 0 ==> final(self).marks_seq() == old(
                self,
            ).marks_seq().drop_first().push(old(self).marks_seq()[0]),
    {
        if let Some(m) = self.marks.pop_front() {
            self.marks.push_back(m);
            proof {
                assert(self.marks@ =~= old(self).marks_seq().drop_first().push(
                    old(self).marks_seq()[0],
                ));
            }
        }
    }

    pub fn is_empty(&self) -> (r: bool)
        ensures
            r == (self.marks_seq().len() == 0),
    {
        self.marks.len() == 0
    }

    pub fn len(&self) -> (n: usize)
        ensures
            n == self.marks_seq().len(),
    {
        self.marks.len()
    }

    pub fn clear(&mut self)
        ensures
            final(self).cap() == old(self).cap(),
            final(self).marks_seq() == Seq::<Mark>::empty(),
            final(self).wf(),
    {
        self.marks.clear();
    }

    /// Shift every mark strictly after `insert_pos` right by `len`, the same
    /// arithmetic cursors use.
    pub fn adjust_after_insert(&mut self, insert_pos: CharOffset, len: usize)
        requires
            forall|i: int|
                0 <= i < old(self).marks_seq().len() ==> (#[trigger] old(
                    self,
                ).marks_seq()[i]).0.0 + len <= usize::MAX,
        ensures
            final(self).cap() == old(self).cap(),
            old(self).wf() ==> final(self).wf(),
            final(self).marks_seq().len() == old(self).marks_seq().len(),
            forall|i: int|
                0 <= i < old(self).marks_seq().len() ==> (#[trigger] final(self).marks_seq()[i]).0.0
                    == if old(self).marks_seq()[i].0.0 > insert_pos.0 {
                    old(self).marks_seq()[i].0.0 + len
                } else {
                    old(self).marks_seq()[i].0.0 as int
                },
    {
        let ghost orig = self.marks@;
        proof {
            assert forall|j: int| 0 <= j < orig.len() implies (#[trigger] orig[j]).0.0 + len
                <= usize::MAX by {
                assert(orig[j] == old(self).marks_seq()[j]);
            }
        }
        let n = self.marks.len();
        let mut i: usize = 0;
        while i < n
            invariant
                i <= n,
                n == orig.len(),
                self.capacity == old(self).capacity,
                self.marks@.len() == orig.len(),
                forall|j: int| 0 <= j < n - i ==> #[trigger] self.marks@[j] == orig[i + j],
                forall|j: int|
                    n - i <= j < n ==> (#[trigger] self.marks@[j]).0.0 == (if orig[j - (n - i)].0.0
                        > insert_pos.0 {
                        orig[j - (n - i)].0.0 + len
                    } else {
                        orig[j - (n - i)].0.0 as int
                    }),
                forall|j: int| 0 <= j < orig.len() ==> (#[trigger] orig[j]).0.0 + len <= usize::MAX,
            decreases n - i,
        {
            let m = match self.marks.pop_front() {
                Some(m) => m,
                None => {
                    proof {
                        assert(false);
                    }
                    Mark(CharOffset(0))
                },
            };
            if m.0.0 > insert_pos.0 {
                self.marks.push_back(Mark(CharOffset(m.0.0 + len)));
            } else {
                self.marks.push_back(m);
            }
            i += 1;
        }
        proof {
            assert forall|j: int| 0 <= j < orig.len() implies (#[trigger] self.marks@[j]).0.0 == (if
            orig[j].0.0 > insert_pos.0 {
                orig[j].0.0 + len
            } else {
                orig[j].0.0 as int
            }) by {}
        }
    }

    /// Apply the deletion shift of `[delete_start, delete_end)` to every mark.
    pub fn adjust_after_delete(&mut self, delete_start: CharOffset, delete_end: CharOffset)
        requires
            delete_start.0 <= delete_end.0,
        ensures
            final(self).cap() == old(self).cap(),
            old(self).wf() ==> final(self).wf(),
            final(self).marks_seq().len() == old(self).marks_seq().len(),
            forall|i: int|
                0 <= i < old(self).marks_seq().len() ==> (#[trigger] final(self).marks_seq()[i]).0.0
                    == crate::cursor::pos_after_delete(
                    old(self).marks_seq()[i].0.0 as int,
                    delete_start.0 as int,
                    delete_end.0 as int,
                ),
    {
        let ghost orig = self.marks@;
        let deleted_len = delete_end.0 - delete_start.0;
        let n = self.marks.len();
        let mut i: usize = 0;
        while i < n
            invariant
                i <= n,
                n == orig.len(),
                delete_start.0 <= delete_end.0,
                deleted_len == delete_end.0 - delete_start.0,
                self.capacity == old(self).capacity,
                self.marks@.len() == orig.len(),
                forall|j: int| 0 <= j < n - i ==> #[trigger] self.marks@[j] == orig[i + j],
                forall|j: int|
                    n - i <= j < n ==> (#[trigger] self.marks@[j]).0.0
                        == crate::cursor::pos_after_delete(
                        orig[j - (n - i)].0.0 as int,
                        delete_start.0 as int,
                        delete_end.0 as int,
                    ),
            decreases n - i,
        {
            let m = match self.marks.pop_front() {
                Some(m) => m,
                None => {
                    proof {
                        assert(false);
                    }
                    Mark(CharOffset(0))
                },
            };
            if m.0.0 >= delete_end.0 {
                self.marks.push_back(Mark(CharOffset(m.0.0 - deleted_len)));
            } else if m.0.0 > delete_start.0 {
                self.marks.push_back(Mark(delete_start));
            } else {
                self.marks.push_back(m);
            }
            i += 1;
        }
    }
}

} // verus!
