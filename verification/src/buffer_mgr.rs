//! The buffer manager: owns every buffer, hands out fresh identities, and
//! keeps a most-recently-used order and the current selection.
use vstd::prelude::*;
use vstd::string::StringExecFns;

use crate::buffer::Buffer;
use crate::buffer::BufferId;
use crate::undo::UndoTree;

verus! {

/// The index of the buffer with identity `id`, if present.
pub open spec fn buf_index_of(s: Seq<Buffer>, id: BufferId) -> Option<int>
    decreases s.len(),
{
    if s.len() == 0 {
        None
    } else if s[0].id == id {
        Some(0int)
    } else {
        match buf_index_of(s.drop_first(), id) {
            Some(i) => Some(i + 1),
            None => None,
        }
    }
}

/// The index of the first buffer named `name`, if any.
/// The index `buf_index_named` returns names a buffer of that name.
pub proof fn lemma_buf_index_named_names(s: Seq<Buffer>, name: Seq<char>)
    requires
        buf_index_named(s, name) is Some,
    ensures
        0 <= buf_index_named(s, name).unwrap() < s.len(),
        s[buf_index_named(s, name).unwrap()].name@ == name,
    decreases s.len(),
{
    if s.len() > 0 && s[0].name@ != name {
        lemma_buf_index_named_names(s.drop_first(), name);
        assert(s.drop_first()[buf_index_named(s.drop_first(), name).unwrap()] == s[buf_index_named(
            s,
            name,
        ).unwrap()]);
    }
}

pub open spec fn buf_index_named(s: Seq<Buffer>, name: Seq<char>) -> Option<int>
    decreases s.len(),
{
    if s.len() == 0 {
        None
    } else if s[0].name@ == name {
        Some(0int)
    } else {
        match buf_index_named(s.drop_first(), name) {
            Some(i) => Some(i + 1),
            None => None,
        }
    }
}

#[derive(Debug)]
pub struct BufferManager {
    pub buffers: Vec<Buffer>,
    pub order: Vec<BufferId>,
    pub current: Option<BufferId>,
    pub next_id: u64,
}

/// Identities are unique, below the id counter, and every buffer's undo
/// history is sound with no batch left open.
pub open spec fn buffers_wf(s: Seq<Buffer>, next_id: u64) -> bool {
    &&& (forall|i: int, j: int|
        0 <= i < j < s.len() ==> (#[trigger] s[i]).id != (#[trigger] s[j]).id)
    &&& (forall|i: int| 0 <= i < s.len() ==> (#[trigger] s[i]).id.0 < next_id)
    &&& (forall|i: int| 0 <= i < s.len() ==> (#[trigger] s[i]).wf())
}

/// Replacing a buffer with a consistent one of the same identity keeps the
/// collection consistent.
pub proof fn lemma_buffers_wf_update(s: Seq<Buffer>, i: int, b: Buffer, next_id: u64)
    requires
        buffers_wf(s, next_id),
        0 <= i < s.len(),
        b.id == s[i].id,
        b.wf(),
    ensures
        buffers_wf(s.update(i, b), next_id),
{
    let t = s.update(i, b);
    assert forall|a: int, c: int| 0 <= a < c < t.len() implies (#[trigger] t[a]).id != (
    #[trigger] t[c]).id by {
        assert(s[a].id != s[c].id);
    }
    assert forall|a: int| 0 <= a < t.len() implies (#[trigger] t[a]).id.0 < next_id && t[a].wf() by {
        if a != i {
            assert(t[a] == s[a]);
        }
    }
}

impl BufferManager {
    /// The buffers are consistent as a collection.
    pub open spec fn wf(self) -> bool {
        buffers_wf(self.buffers@, self.next_id)
    }

    pub fn new() -> (r: BufferManager)
        ensures
            r.buffers@.len() == 0,
            r.current is None,
            r.wf(),
    {
        BufferManager { buffers: Vec::new(), order: Vec::new(), current: None, next_id: 1 }
    }

    /// Adopt `buffer` under a fresh identity; the first buffer added becomes
    /// current.
    pub fn add(&mut self, buffer: Buffer) -> (r: BufferId)
        requires
            old(self).wf(),
            buffer.wf(),
        ensures
            final(self).wf(),
            old(self).next_id < u64::MAX ==> {
                &&& final(self).buffers@.len() == old(self).buffers@.len() + 1
                &&& final(self).buffers@.last().id == r
                &&& final(self).buffers@.last().name@ == buffer.name@
                &&& crate::rope::rope_text(&final(self).buffers@.last().text)
                    == crate::rope::rope_text(&buffer.text)
                &&& (forall|i: int|
                    0 <= i < old(self).buffers@.len() ==> #[trigger] final(self).buffers@[i]
                        == old(self).buffers@[i])
                &&& final(self).current == if old(self).current is None {
                    Some(r)
                } else {
                    old(self).current
                }
            },
            old(self).next_id == u64::MAX ==> *final(self) == *old(self),
    {
        if self.next_id == u64::MAX {
            return BufferId(u64::MAX);
        }
        let id = BufferId(self.next_id);
        self.next_id = self.next_id + 1;
        let mut b = buffer;
        b.id = id;
        self.buffers.push(b);
        self.order.push(id);
        if self.current.is_none() {
            self.current = Some(id);
        }
        proof {
            assert(self.buffers@.last() == b);
            assert(self.buffers@.last().id.0 == old(self).next_id);
            assert(UndoTree::wf_m(b.undo_tree.model()));
            assert(b.undo_tree.model().batch_depth == 0);
            assert(b.wf());
            assert forall|i: int, j: int| 0 <= i < j < self.buffers@.len() implies (
            #[trigger] self.buffers@[i]).id != (#[trigger] self.buffers@[j]).id by {
                if j == self.buffers@.len() - 1 {
                    assert(self.buffers@[i] == old(self).buffers@[i]);
                    assert(old(self).buffers@[i].id.0 < old(self).next_id);
                } else {
                    assert(self.buffers@[i] == old(self).buffers@[i]);
                    assert(self.buffers@[j] == old(self).buffers@[j]);
                }
            }
            assert forall|i: int| 0 <= i < self.buffers@.len() implies (
            #[trigger] self.buffers@[i]).id.0 < self.next_id && self.buffers@[i].wf() by {
                if i < self.buffers@.len() - 1 {
                    assert(self.buffers@[i] == old(self).buffers@[i]);
                } else {
                    assert(self.buffers@[i] == b);
                }
            }
        }
        id
    }

    /// Where the buffer with `id` sits, if it exists.
    pub fn index_of(&self, id: BufferId) -> (r: Option<usize>)
        ensures
            match r {
                Some(i) => buf_index_of(self.buffers@, id) == Some(i as int) && i
                    < self.buffers@.len() && self.buffers@[i as int].id == id,
                None => buf_index_of(self.buffers@, id) is None,
            },
    {
        let n = self.buffers.len();
        let mut i: usize = 0;
        proof {
            assert(self.buffers@.skip(0) =~= self.buffers@);
        }
        while i < n
            invariant
                i <= n,
                n == self.buffers@.len(),
                buf_index_of(self.buffers@, id) == match buf_index_of(
                    self.buffers@.skip(i as int),
                    id,
                ) {
                    Some(k) => Some(k + i),
                    None => None,
                },
            decreases n - i,
        {
            proof {
                assert(self.buffers@.skip(i as int)[0] == self.buffers@[i as int]);
                assert(self.buffers@.skip(i as int).drop_first() =~= self.buffers@.skip(
                    i as int + 1,
                ));
            }
            if self.buffers[i].id.0 == id.0 {
                return Some(i);
            }
            i += 1;
        }
        proof {
            assert(self.buffers@.skip(n as int) =~= Seq::<Buffer>::empty());
        }
        None
    }

    /// A shared view of the buffer with `id`.
    pub fn get(&self, id: BufferId) -> (r: Option<&Buffer>)
        ensures
            match r {
                Some(b) => buf_index_of(self.buffers@, id) matches Some(i) && *b
                    == self.buffers@[i],
                None => buf_index_of(self.buffers@, id) is None,
            },
    {
        match self.index_of(id) {
            Some(i) => Some(&self.buffers[i]),
            None => None,
        }
    }

    pub fn current_id(&self) -> (r: Option<BufferId>)
        ensures
            r == self.current,
    {
        self.current
    }

    /// A shared view of the current buffer.
    pub fn current(&self) -> (r: Option<&Buffer>)
        ensures
            match r {
                Some(b) => self.current matches Some(id) && buf_index_of(self.buffers@, id)
                    matches Some(i) && *b == self.buffers@[i],
                None => self.current is None || buf_index_of(
                    self.buffers@,
                    self.current.unwrap(),
                ) is None,
            },
    {
        match self.current {
            Some(id) => self.get(id),
            None => None,
        }
    }

    /// Select the buffer with `id` and move it to the front of the use
    /// order; false when it does not exist.
    #[verifier::loop_isolation(false)]
    pub fn set_current(&mut self, id: BufferId) -> (r: bool)
        ensures
            final(self).buffers@ == old(self).buffers@,
            final(self).next_id == old(self).next_id,
            r == (buf_index_of(old(self).buffers@, id) is Some),
            r ==> final(self).current == Some(id),
            !r ==> final(self).current == old(self).current,
            old(self).wf() ==> final(self).wf(),
    {
        match self.index_of(id) {
            Some(_) => {
                self.current = Some(id);
                let n = self.order.len();
                let mut i: usize = 0;
                while i < n
                    invariant
                        i <= n,
                        n == self.order@.len(),
                        self.buffers@ == old(self).buffers@,
                        self.next_id == old(self).next_id,
                        self.current == Some(id),
                    decreases n - i,
                {
                    if self.order[i].0 == id.0 {
                        let _ = self.order.remove(i);
                        self.order.insert(0, id);
                        return true;
                    }
                    i += 1;
                }
                true
            },
            None => false,
        }
    }

    /// The identity of the first buffer named `name`.
    pub fn find_by_name(&self, name: &str) -> (r: Option<BufferId>)
        ensures
            match r {
                Some(id) => buf_index_named(self.buffers@, name@) matches Some(i)
                    && self.buffers@[i].id == id,
                None => buf_index_named(self.buffers@, name@) is None,
            },
    {
        let n = self.buffers.len();
        let mut i: usize = 0;
        proof {
            assert(self.buffers@.skip(0) =~= self.buffers@);
        }
        while i < n
            invariant
                i <= n,
                n == self.buffers@.len(),
                buf_index_named(self.buffers@, name@) == match buf_index_named(
                    self.buffers@.skip(i as int),
                    name@,
                ) {
                    Some(k) => Some(k + i),
                    None => None,
                },
            decreases n - i,
        {
            proof {
                assert(self.buffers@.skip(i as int)[0] == self.buffers@[i as int]);
                assert(self.buffers@.skip(i as int).drop_first() =~= self.buffers@.skip(
                    i as int + 1,
                ));
            }
            if str_eq(self.buffers[i].name.as_str(), name) {
                return Some(self.buffers[i].id);
            }
            i += 1;
        }
        proof {
            assert(self.buffers@.skip(n as int) =~= Seq::<Buffer>::empty());
        }
        None
    }

    /// Select the first buffer named `name`, if any.
    pub fn switch_to_name(&mut self, name: &str) -> (r: bool)
        ensures
            final(self).buffers@ == old(self).buffers@,
            old(self).wf() ==> final(self).wf(),
            r == (buf_index_named(old(self).buffers@, name@) is Some),
    {
        match self.find_by_name(name) {
            Some(id) => {
                proof {
                    lemma_index_named_bounds(self.buffers@, name@);
                    match buf_index_named(self.buffers@, name@) {
                        Some(i) => {
                            lemma_id_found(self.buffers@, i);
                        },
                        None => {},
                    }
                }
                self.set_current(id)
            },
            None => false,
        }
    }

    /// Remove and return the buffer with `id`; a removed current selection
    /// falls back to the most recently used survivor.
    pub fn kill(&mut self, id: BufferId) -> (r: Option<Buffer>)
        requires
            old(self).wf(),
        ensures
            final(self).wf(),
            match r {
                Some(b) => buf_index_of(old(self).buffers@, id) matches Some(i) && b == old(
                    self,
                ).buffers@[i] && final(self).buffers@ == old(self).buffers@.remove(i)
                    && buf_index_of(final(self).buffers@, id) is None,
                None => buf_index_of(old(self).buffers@, id) is None && final(self).buffers@ == old(
                    self,
                ).buffers@,
            },
    {
        match self.index_of(id) {
            Some(i) => {
                let removed = self.buffers.remove(i);
                let mut j: usize = 0;
                let mut keep_order: Vec<BufferId> = Vec::new();
                while j < self.order.len()
                    invariant
                        j <= self.order@.len(),
                        self.buffers@ == old(self).buffers@.remove(i as int),
                        self.next_id == old(self).next_id,
                    decreases self.order@.len() - j,
                {
                    if self.order[j].0 != id.0 {
                        keep_order.push(self.order[j]);
                    }
                    j += 1;
                }
                self.order = keep_order;
                let is_current = match self.current {
                    Some(c) => c.0 == id.0,
                    None => false,
                };
                if is_current {
                    if self.order.len() > 0 {
                        self.current = Some(self.order[0]);
                    } else {
                        self.current = None;
                    }
                }
                proof {
                    lemma_removed_id_gone(old(self).buffers@, i as int, id);
                    assert forall|a: int, b: int| 0 <= a < b < self.buffers@.len() implies (
                    #[trigger] self.buffers@[a]).id != (#[trigger] self.buffers@[b]).id by {
                        let pa: int = if a < i {
                            a
                        } else {
                            a + 1
                        };
                        let pb: int = if b < i {
                            b
                        } else {
                            b + 1
                        };
                        assert(self.buffers@[a] == old(self).buffers@[pa]);
                        assert(self.buffers@[b] == old(self).buffers@[pb]);
                    }
                    assert forall|a: int| 0 <= a < self.buffers@.len() implies (
                    #[trigger] self.buffers@[a]).id.0 < self.next_id && self.buffers@[a].wf() by {
                        let pa: int = if a < i {
                            a
                        } else {
                            a + 1
                        };
                        assert(self.buffers@[a] == old(self).buffers@[pa]);
                    }
                }
                Some(removed)
            },
            None => None,
        }
    }

    /// Remove and return the current buffer.
    pub fn kill_current(&mut self) -> (r: Option<Buffer>)
        requires
            old(self).wf(),
        ensures
            final(self).wf(),
            old(self).current is None ==> r is None && final(self).buffers@ == old(self).buffers@,
    {
        match self.current {
            Some(id) => self.kill(id),
            None => None,
        }
    }

    pub fn count(&self) -> (r: usize)
        ensures
            r == self.buffers@.len(),
    {
        self.buffers.len()
    }

    pub fn is_empty(&self) -> (r: bool)
        ensures
            r == (self.buffers@.len() == 0),
    {
        self.buffers.len() == 0
    }

    /// The buffer names, in storage order.
    pub fn names(&self) -> (r: Vec<String>)
        ensures
            r@.len() == self.buffers@.len(),
            forall|i: int| 0 <= i < r@.len() ==> (#[trigger] r@[i])@ == self.buffers@[i].name@,
    {
        let mut out: Vec<String> = Vec::new();
        let n = self.buffers.len();
        let mut i: usize = 0;
        while i < n
            invariant
                i <= n,
                n == self.buffers@.len(),
                out@.len() == i,
                forall|j: int| 0 <= j < i ==> (#[trigger] out@[j])@ == self.buffers@[j].name@,
            decreases n - i,
        {
            out.push(self.buffers[i].name.clone());
            i += 1;
        }
        out
    }

    /// The scratch buffer's identity, creating `*scratch*` if it is missing.
    pub fn ensure_scratch(&mut self) -> (r: BufferId)
        requires
            old(self).wf(),
        ensures
            final(self).wf(),
            old(self).next_id < u64::MAX || buf_index_named(old(self).buffers@, "*scratch*"@)
                is Some ==> buf_index_of(final(self).buffers@, r) is Some,
    {
        match self.find_by_name("*scratch*") {
            Some(id) => {
                proof {
                    lemma_index_named_bounds(self.buffers@, "*scratch*"@);
                    match buf_index_named(self.buffers@, "*scratch*"@) {
                        Some(i) => {
                            lemma_id_found(self.buffers@, i);
                        },
                        None => {},
                    }
                }
                id
            },
            None => {
                let scratch = Buffer::new("*scratch*");
                let id = self.add(scratch);
                proof {
                    if self.buffers@.len() > 0 && self.buffers@.last().id == id {
                        lemma_index_of_last(self.buffers@, id);
                    }
                }
                id
            },
        }
    }
}

/// Removing the only buffer with `id` leaves no buffer with `id`.
proof fn lemma_removed_id_gone(s: Seq<Buffer>, i: int, id: BufferId)
    requires
        0 <= i < s.len(),
        s[i].id == id,
        forall|a: int, b: int| 0 <= a < b < s.len() ==> (#[trigger] s[a]).id != (#[trigger] s[b]).id,
    ensures
        buf_index_of(s.remove(i), id) is None,
{
    assert forall|a: int| 0 <= a < s.remove(i).len() implies (#[trigger] s.remove(i)[a]).id
        != id by {
        if a < i {
            assert(s.remove(i)[a] == s[a]);
        } else {
            assert(s.remove(i)[a] == s[a + 1]);
        }
    }
    lemma_no_id_no_index(s.remove(i), id);
}

proof fn lemma_no_id_no_index(s: Seq<Buffer>, id: BufferId)
    requires
        forall|a: int| 0 <= a < s.len() ==> (#[trigger] s[a]).id != id,
    ensures
        buf_index_of(s, id) is None,
    decreases s.len(),
{
    if s.len() > 0 {
        assert forall|a: int| 0 <= a < s.drop_first().len() implies (
        #[trigger] s.drop_first()[a]).id != id by {
            assert(s.drop_first()[a] == s[a + 1]);
        }
        lemma_no_id_no_index(s.drop_first(), id);
    }
}

/// A name hit indexes a buffer of that name.
proof fn lemma_index_named_bounds(s: Seq<Buffer>, name: Seq<char>)
    ensures
        match buf_index_named(s, name) {
            Some(i) => 0 <= i < s.len() && s[i].name@ == name,
            None => true,
        },
    decreases s.len(),
{
    if s.len() > 0 && !(s[0].name@ == name) {
        lemma_index_named_bounds(s.drop_first(), name);
        match buf_index_named(s.drop_first(), name) {
            Some(k) => {
                assert(s.drop_first()[k] == s[k + 1]);
            },
            None => {},
        }
    }
}

/// A buffer at any index can be found by its identity.
proof fn lemma_id_found(s: Seq<Buffer>, i: int)
    requires
        0 <= i < s.len(),
    ensures
        buf_index_of(s, s[i].id) is Some,
    decreases i,
{
    if s[0].id == s[i].id {
    } else {
        assert(i > 0);
        assert(s.drop_first()[i - 1] == s[i]);
        lemma_id_found(s.drop_first(), i - 1);
    }
}

/// The id of the last buffer is findable.
proof fn lemma_index_of_last(s: Seq<Buffer>, id: BufferId)
    requires
        s.len() > 0,
        s.last().id == id,
    ensures
        buf_index_of(s, id) is Some,
    decreases s.len(),
{
    if s.len() > 1 {
        if s[0].id == id {
        } else {
            assert(s.drop_first().last() == s.last());
            lemma_index_of_last(s.drop_first(), id);
        }
    }
}

/// Relies on str's `PartialEq`: string slices compare by their characters.
#[verifier::external_body]
pub fn str_eq(a: &str, b: &str) -> (r: bool)
    ensures
        r == (a@ == b@),
{
    a == b
}

} // verus!
