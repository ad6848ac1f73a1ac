//! The kill ring: a bounded deque of killed text, newest first, with a
//! rotating yank pointer and append/prepend coalescing of consecutive kills.
use std::collections::VecDeque;

use vstd::prelude::*;
use vstd::string::StringExecFns;

verus! {

/// One step of the yank pointer through a ring of `len` entries.
pub open spec fn yank_step(p: int, len: int) -> int {
    if p + 1 < len {
        p + 1
    } else {
        0
    }
}

/// The yank pointer after `k` steps.
pub open spec fn yank_step_n(p: int, len: int, k: nat) -> int
    decreases k,
{
    if k == 0 {
        p
    } else {
        yank_step(yank_step_n(p, len, (k - 1) as nat), len)
    }
}

/// The texts of a sequence of strings, element by element.
pub open spec fn strings_view(s: Seq<String>) -> Seq<Seq<char>> {
    s.map_values(|x: String| x@)
}

/// The entries after one `push`, as its contract states them.
pub open spec fn push_entries_m(
    entries: Seq<Seq<char>>,
    cap: int,
    lwk: bool,
    text: Seq<char>,
    append: bool,
) -> Seq<Seq<char>> {
    if text.len() == 0 {
        entries
    } else if append && lwk && entries.len() > 0 {
        entries.update(0, entries[0] + text)
    } else {
        seq![text] + (if entries.len() >= cap && entries.len() > 0 {
            entries.drop_last()
        } else {
            entries
        })
    }
}

/// The entries after one `push_prepend`, as its contract states them.
pub open spec fn push_prepend_entries_m(
    entries: Seq<Seq<char>>,
    cap: int,
    lwk: bool,
    text: Seq<char>,
) -> Seq<Seq<char>> {
    if text.len() == 0 {
        entries
    } else if lwk && entries.len() > 0 {
        entries.update(0, text + entries[0])
    } else {
        seq![text] + (if entries.len() >= cap && entries.len() > 0 {
            entries.drop_last()
        } else {
            entries
        })
    }
}

/// The entries after pushing each text in turn, chaining appends (or
/// prepends) once a kill has been recorded.
pub open spec fn killed_fold(
    entries: Seq<Seq<char>>,
    cap: int,
    lwk: bool,
    texts: Seq<Seq<char>>,
    prepend: bool,
) -> Seq<Seq<char>>
    decreases texts.len(),
{
    if texts.len() == 0 {
        entries
    } else if texts[0].len() == 0 {
        killed_fold(entries, cap, lwk, texts.drop_first(), prepend)
    } else if prepend {
        killed_fold(
            push_prepend_entries_m(entries, cap, lwk, texts[0]),
            cap,
            true,
            texts.drop_first(),
            prepend,
        )
    } else {
        killed_fold(
            push_entries_m(entries, cap, lwk, texts[0], lwk),
            cap,
            true,
            texts.drop_first(),
            prepend,
        )
    }
}

/// Whether some pushed text is nonempty.
pub open spec fn any_nonempty(texts: Seq<Seq<char>>) -> bool {
    exists|i: int| 0 <= i < texts.len() && (#[trigger] texts[i]).len() > 0
}

#[derive(Debug, Clone)]
pub struct KillRing {
    entries: VecDeque<String>,
    capacity: usize,
    yank_pointer: usize,
    last_was_kill: bool,
}

impl KillRing {
    /// The ring's entries, newest first.
    pub closed spec fn entries_seq(self) -> Seq<Seq<char>> {
        strings_view(self.entries@)
    }

    pub closed spec fn cap(self) -> int {
        self.capacity as int
    }

    pub closed spec fn pointer(self) -> int {
        self.yank_pointer as int
    }

    pub closed spec fn spec_last_was_kill(self) -> bool {
        self.last_was_kill
    }

    /// The ring never outgrows its capacity (a capacity of zero still admits
    /// the single freshly pushed entry), every entry is nonempty, and the
    /// yank pointer stays in range.
    pub open spec fn wf(self) -> bool {
        &&& self.pointer() >= 0
        &&& (self.entries_seq().len() <= self.cap() || (self.cap() == 0 && self.entries_seq().len()
            <= 1))
        &&& (self.entries_seq().len() > 0 ==> self.pointer() < self.entries_seq().len())
        &&& (self.entries_seq().len() == 0 ==> self.pointer() == 0)
        &&& (forall|i: int|
            0 <= i < self.entries_seq().len() ==> (#[trigger] self.entries_seq()[i]).len() > 0)
    }

    pub fn new(capacity: usize) -> (r: KillRing)
        ensures
            r.entries_seq() == Seq::<Seq<char>>::empty(),
            r.cap() == capacity,
            r.pointer() == 0,
            !r.spec_last_was_kill(),
            r.wf(),
    {
        proof {
            assert(strings_view(Seq::<String>::empty()) =~= Seq::<Seq<char>>::empty());
        }
        KillRing {
            entries: VecDeque::with_capacity(capacity),
            capacity,
            yank_pointer: 0,
            last_was_kill: false,
        }
    }

    /// Record killed text. An empty kill is ignored. When `append` is set and
    /// the previous command was a kill, the text joins the newest entry;
    /// otherwise it becomes a new front entry, evicting the oldest at
    /// capacity. Either way the yank pointer resets and a kill is remembered.
    pub fn push(&mut self, text: String, append: bool)
        ensures
            final(self).cap() == old(self).cap(),
            old(self).wf() ==> final(self).wf(),
            text@.len() == 0 ==> *final(self) == *old(self),
            text@.len() > 0 ==> {
                &&& final(self).pointer() == 0
                &&& final(self).spec_last_was_kill()
                &&& final(self).entries_seq() == if append && old(self).spec_last_was_kill() && old(
                    self,
                ).entries_seq().len() > 0 {
                    old(self).entries_seq().update(0, old(self).entries_seq()[0] + text@)
                } else {
                    seq![text@] + (if old(self).entries_seq().len() >= old(self).cap() && old(
                        self,
                    ).entries_seq().len() > 0 {
                        old(self).entries_seq().drop_last()
                    } else {
                        old(self).entries_seq()
                    })
                }
            },
    {
        if text.as_str().unicode_len() == 0 {
            return ;
        }
        if append && self.last_was_kill && self.entries.len() > 0 {
            let front = match self.entries.pop_front() {
                Some(s) => s,
                None => {
                    proof {
                        assert(false);
                    }
                    String::new()
                },
            };
            let joined = front.concat(text.as_str());
            self.entries.push_front(joined);
            proof {
                assert(self.entries_seq() =~= old(self).entries_seq().update(
                    0,
                    old(self).entries_seq()[0] + text@,
                ));
            }
        } else {
            if self.entries.len() >= self.capacity && self.entries.len() > 0 {
                let _ = self.entries.pop_back();
            }
            self.entries.push_front(text);
            proof {
                if old(self).entries_seq().len() >= old(self).cap() && old(
                    self,
                ).entries_seq().len() > 0 {
                    assert(self.entries_seq() =~= seq![self.entries@[0]@] + old(
                        self,
                    ).entries_seq().drop_last());
                } else {
                    assert(self.entries_seq() =~= seq![self.entries@[0]@] + old(
                        self,
                    ).entries_seq());
                }
            }
        }
        self.yank_pointer = 0;
        self.last_was_kill = true;
    }

    /// Like an appending `push`, but the text joins at the front of the
    /// newest entry, for backward kills.
    pub fn push_prepend(&mut self, text: String)
        ensures
            final(self).cap() == old(self).cap(),
            old(self).wf() ==> final(self).wf(),
            text@.len() == 0 ==> *final(self) == *old(self),
            text@.len() > 0 ==> {
                &&& final(self).pointer() == 0
                &&& final(self).spec_last_was_kill()
                &&& final(self).entries_seq() == if old(self).spec_last_was_kill() && old(
                    self,
                ).entries_seq().len() > 0 {
                    old(self).entries_seq().update(0, text@ + old(self).entries_seq()[0])
                } else {
                    seq![text@] + (if old(self).entries_seq().len() >= old(self).cap() && old(
                        self,
                    ).entries_seq().len() > 0 {
                        old(self).entries_seq().drop_last()
                    } else {
                        old(self).entries_seq()
                    })
                }
            },
    {
        if text.as_str().unicode_len() == 0 {
            return ;
        }
        if self.last_was_kill && self.entries.len() > 0 {
            let front = match self.entries.pop_front() {
                Some(s) => s,
                None => {
                    proof {
                        assert(false);
                    }
                    String::new()
                },
            };
            let joined = text.concat(front.as_str());
            self.entries.push_front(joined);
            proof {
                assert(self.entries_seq() =~= old(self).entries_seq().update(
                    0,
                    text@ + old(self).entries_seq()[0],
                ));
            }
        } else {
            if self.entries.len() >= self.capacity && self.entries.len() > 0 {
                let _ = self.entries.pop_back();
            }
            self.entries.push_front(text);
            proof {
                if old(self).entries_seq().len() >= old(self).cap() && old(
                    self,
                ).entries_seq().len() > 0 {
                    assert(self.entries_seq() =~= seq![self.entries@[0]@] + old(
                        self,
                    ).entries_seq().drop_last());
                } else {
                    assert(self.entries_seq() =~= seq![self.entries@[0]@] + old(
                        self,
                    ).entries_seq());
                }
            }
        }
        self.yank_pointer = 0;
        self.last_was_kill = true;
    }

    /// The entry under the yank pointer.
    pub fn current(&self) -> (r: Option<&str>)
        ensures
            match r {
                Some(s) => self.pointer() < self.entries_seq().len() && s@ == self.entries_seq()[self.pointer()],
                None => self.pointer() >= self.entries_seq().len(),
            },
    {
        if self.yank_pointer < self.entries.len() {
            Some(self.entries[self.yank_pointer].as_str())
        } else {
            None
        }
    }

    /// The newest entry: what a plain yank inserts.
    pub fn yank(&self) -> (r: Option<&str>)
        ensures
            match r {
                Some(s) => self.entries_seq().len() > 0 && s@ == self.entries_seq()[0],
                None => self.entries_seq().len() == 0,
            },
    {
        if self.entries.len() > 0 {
            Some(self.entries[0].as_str())
        } else {
            None
        }
    }

    /// Advance the yank pointer one step around the ring and return the entry
    /// it now rests on.
    pub fn yank_pop(&mut self) -> (r: Option<&str>)
        requires
            old(self).wf(),
        ensures
            final(self).cap() == old(self).cap(),
            final(self).entries_seq() == old(self).entries_seq(),
            final(self).spec_last_was_kill() == old(self).spec_last_was_kill(),
            final(self).wf(),
            match r {
                Some(s) => {
                    &&& old(self).entries_seq().len() > 0
                    &&& final(self).pointer() == yank_step(
                        old(self).pointer(),
                        old(self).entries_seq().len() as int,
                    )
                    &&& s@ == final(self).entries_seq()[final(self).pointer()]
                },
                None => old(self).entries_seq().len() == 0 && *final(self) == *old(self),
            },
    {
        if self.entries.len() == 0 {
            return None;
        }
        if self.yank_pointer + 1 < self.entries.len() {
            self.yank_pointer = self.yank_pointer + 1;
        } else {
            self.yank_pointer = 0;
        }
        Some(self.entries[self.yank_pointer].as_str())
    }

    pub fn reset_yank_pointer(&mut self)
        ensures
            final(self).cap() == old(self).cap(),
            final(self).entries_seq() == old(self).entries_seq(),
            final(self).spec_last_was_kill() == old(self).spec_last_was_kill(),
            final(self).pointer() == 0,
            old(self).wf() ==> final(self).wf(),
    {
        self.yank_pointer = 0;
    }

    pub fn set_last_was_kill(&mut self, was_kill: bool)
        ensures
            final(self).cap() == old(self).cap(),
            final(self).entries_seq() == old(self).entries_seq(),
            final(self).pointer() == old(self).pointer(),
            final(self).spec_last_was_kill() == was_kill,
            old(self).wf() ==> final(self).wf(),
    {
        self.last_was_kill = was_kill;
    }

    pub fn last_was_kill(&self) -> (r: bool)
        ensures
            r == self.spec_last_was_kill(),
    {
        self.last_was_kill
    }

    pub fn is_empty(&self) -> (r: bool)
        ensures
            r == (self.entries_seq().len() == 0),
    {
        self.entries.len() == 0
    }

    pub fn len(&self) -> (n: usize)
        ensures
            n == self.entries_seq().len(),
    {
        self.entries.len()
    }

    /// A snapshot of the entries, newest first.
    pub fn iter(&self) -> (v: Vec<String>)
        ensures
            strings_view(v@) == self.entries_seq(),
    {
        let mut v: Vec<String> = Vec::new();
        proof {
            assert(strings_view(v@) =~= self.entries_seq().take(0));
        }
        let mut i: usize = 0;
        while i < self.entries.len()
            invariant
                i <= self.entries@.len(),
                strings_view(v@) == self.entries_seq().take(i as int),
            decreases self.entries@.len() - i,
        {
            let ghost old_v = v@;
            let entry = self.entries[i].clone();
            proof {
                assert(entry == self.entries@[i as int]);
            }
            v.push(entry);
            proof {
                assert(v@ == old_v.push(entry));
                assert(strings_view(old_v).len() == old_v.len());
                assert(self.entries_seq().take(i as int).len() == i as int);
                assert(old_v.len() == i as int);
                assert(v@[i as int] == entry);
                assert(v@[i as int]@ == self.entries@[i as int]@);
                assert forall|j: int| 0 <= j < i + 1 implies strings_view(v@)[j]
                    == self.entries_seq().take(i as int + 1)[j] by {
                    assert(strings_view(v@)[j] == v@[j]@);
                    if j < i {
                        assert(strings_view(v@.drop_last())[j] == v@.drop_last()[j]@);
                        assert(v@.drop_last() =~= old_v);
                    }
                    assert(self.entries_seq()[j] == self.entries@[j]@);
                }
                assert(strings_view(v@) =~= self.entries_seq().take(i as int + 1));
            }
            i += 1;
        }
        proof {
            assert(self.entries_seq().take(self.entries@.len() as int) =~= self.entries_seq());
        }
        v
    }
}

/// What one nonempty push leaves in a well-formed ring of positive capacity:
/// the ring stays within capacity, every stored entry is nonempty, and unless
/// the push appended to a standing kill chain the new text is the front
/// entry. Together with `push`'s own clauses (the pointer resets and a kill
/// is remembered) this is the whole law of pushing a kill.
pub proof fn lemma_push_invariants(
    entries: Seq<Seq<char>>,
    cap: int,
    text: Seq<char>,
    append: bool,
    lwk: bool,
)
    requires
        cap >= 1,
        entries.len() <= cap,
        forall|i: int| 0 <= i < entries.len() ==> (#[trigger] entries[i]).len() > 0,
        text.len() > 0,
    ensures
        ({
            let out = if append && lwk && entries.len() > 0 {
                entries.update(0, entries[0] + text)
            } else {
                seq![text] + (if entries.len() >= cap && entries.len() > 0 {
                    entries.drop_last()
                } else {
                    entries
                })
            };
            &&& out.len() <= cap
            &&& out.len() > 0
            &&& (forall|i: int| 0 <= i < out.len() ==> (#[trigger] out[i]).len() > 0)
            &&& (!(append && lwk && entries.len() > 0) ==> out[0] == text)
        }),
{
    let out = if append && lwk && entries.len() > 0 {
        entries.update(0, entries[0] + text)
    } else {
        seq![text] + (if entries.len() >= cap && entries.len() > 0 {
            entries.drop_last()
        } else {
            entries
        })
    };
    assert forall|i: int| 0 <= i < out.len() implies (#[trigger] out[i]).len() > 0 by {
        if append && lwk && entries.len() > 0 {
            assert(entries[i].len() > 0);
        } else if i > 0 {
            assert(out[i] == (if entries.len() >= cap && entries.len() > 0 {
                entries.drop_last()
            } else {
                entries
            })[i - 1]);
            assert(entries[i - 1].len() > 0);
        }
    }
}

/// A well-formed ring with positive capacity never holds more entries than
/// its capacity.
pub proof fn lemma_kill_ring_within_capacity(r: KillRing)
    requires
        r.wf(),
        r.cap() >= 1,
    ensures
        r.entries_seq().len() <= r.cap(),
{
}

/// Stepping the yank pointer `k` times lands on `(p + k)` around the ring.
pub proof fn lemma_yank_step_adds(p: int, len: int, k: nat)
    requires
        0 <= p < len,
        k <= len - p,
    ensures
        yank_step_n(p, len, k) == if p + k < len {
            p + k
        } else {
            0
        },
    decreases k,
{
    if k > 0 {
        lemma_yank_step_adds(p, len, (k - 1) as nat);
    }
}

/// Successive `yank_pop` steps cycle with period `len`: after exactly `len`
/// steps the pointer is back where it started, and never earlier.
pub proof fn lemma_yank_pop_period(p: int, len: int)
    requires
        0 <= p < len,
    ensures
        yank_step_n(p, len, len as nat) == p,
        forall|k: nat| 0 < k < len ==> yank_step_n(p, len, k) != p,
{
    lemma_yank_step_adds(p, len, (len - p) as nat);
    assert(yank_step_n(p, len, (len - p) as nat) == 0);
    assert forall|k: nat| 0 < k < len implies yank_step_n(p, len, k) != p by {
        if k <= len - p {
            lemma_yank_step_adds(p, len, k);
        } else {
            lemma_yank_step_n_concat(p, len, (len - p) as nat, (k - (len - p)) as nat);
            lemma_yank_step_adds(0, len, (k - (len - p)) as nat);
        }
    }
    if len - p < len {
        lemma_yank_step_n_concat(p, len, (len - p) as nat, p as nat);
        lemma_yank_step_adds(0, len, p as nat);
    }
}

/// Stepping `a + b` times is stepping `a` times, then `b` more.
pub proof fn lemma_yank_step_n_concat(p: int, len: int, a: nat, b: nat)
    ensures
        yank_step_n(p, len, a + b) == yank_step_n(yank_step_n(p, len, a), len, b),
    decreases b,
{
    if b > 0 {
        lemma_yank_step_n_concat(p, len, a, (b - 1) as nat);
    }
}

} // verus!
