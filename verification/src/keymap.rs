//! Keymaps: a trie from key events to commands or nested prefix maps.
use vstd::prelude::*;

use crate::key::KeyEvent;

verus! {

/// What a key is bound to in a map.
#[derive(Debug)]
pub enum KeyBinding {
    Command(&'static str),
    Prefix(KeyMap),
    Unbound,
}

/// One level of the binding trie. Keys are unique.
#[derive(Debug)]
pub struct KeyMap {
    bindings: Vec<(KeyEvent, KeyBinding)>,
}

/// The first binding for `k`, scanning in order.
pub open spec fn lookup_m(s: Seq<(KeyEvent, KeyBinding)>, k: KeyEvent) -> Option<KeyBinding>
    decreases s.len(),
{
    if s.len() == 0 {
        None
    } else if s[0].0 == k {
        Some(s[0].1)
    } else {
        lookup_m(s.drop_first(), k)
    }
}

/// No two entries bind the same key.
pub open spec fn unique_keys(s: Seq<(KeyEvent, KeyBinding)>) -> bool {
    forall|i: int, j: int| 0 <= i < j < s.len() ==> (#[trigger] s[i]).0 != (#[trigger] s[j]).0
}

proof fn lemma_lookup_push(s: Seq<(KeyEvent, KeyBinding)>, p: (KeyEvent, KeyBinding), k: KeyEvent)
    ensures
        lookup_m(s.push(p), k) == if lookup_m(s, k) is Some {
            lookup_m(s, k)
        } else if p.0 == k {
            Some(p.1)
        } else {
            None
        },
    decreases s.len(),
{
    if s.len() == 0 {
        assert(s.push(p)[0] == p);
        assert(s.push(p).drop_first() =~= Seq::<(KeyEvent, KeyBinding)>::empty());
        assert(lookup_m(Seq::<(KeyEvent, KeyBinding)>::empty(), k) is None);
        assert(lookup_m(s.push(p), k) == if p.0 == k {
            Some(p.1)
        } else {
            lookup_m(Seq::<(KeyEvent, KeyBinding)>::empty(), k)
        });
    } else {
        assert(s.push(p)[0] == s[0]);
        assert(s.push(p).drop_first() =~= s.drop_first().push(p));
        lemma_lookup_push(s.drop_first(), p, k);
        assert(lookup_m(s.push(p), k) == if s[0].0 == k {
            Some(s[0].1)
        } else {
            lookup_m(s.drop_first().push(p), k)
        });
    }
}

proof fn lemma_lookup_update(
    s: Seq<(KeyEvent, KeyBinding)>,
    i: int,
    p: (KeyEvent, KeyBinding),
    k: KeyEvent,
)
    requires
        0 <= i < s.len(),
        s[i].0 == p.0,
        unique_keys(s),
    ensures
        lookup_m(s.update(i, p), k) == if p.0 == k {
            Some(p.1)
        } else {
            lookup_m(s, k)
        },
    decreases s.len(),
{
    if i == 0 {
        assert(s.update(0, p)[0] == p);
        assert(s.update(0, p).drop_first() =~= s.drop_first());
        if p.0 == k {
        } else {
        }
        if s[0].0 == k && p.0 != k {
            lemma_lookup_none_of_missing(s.drop_first(), k);
        }
    } else {
        assert(s.update(i, p)[0] == s[0]);
        assert(s.update(i, p).drop_first() =~= s.drop_first().update(i - 1, p));
        assert(unique_keys(s.drop_first())) by {
            assert forall|a: int, b: int| 0 <= a < b < s.drop_first().len() implies (
            #[trigger] s.drop_first()[a]).0 != (#[trigger] s.drop_first()[b]).0 by {
                assert(s.drop_first()[a] == s[a + 1]);
                assert(s.drop_first()[b] == s[b + 1]);
            }
        }
        assert(s.drop_first()[i - 1] == s[i]);
        lemma_lookup_update(s.drop_first(), i - 1, p, k);
        if s[0].0 == k {
            assert(s[0].0 != s[i].0);
        }
    }
}

/// A key absent from every entry looks up to nothing.
proof fn lemma_lookup_none_of_missing(s: Seq<(KeyEvent, KeyBinding)>, k: KeyEvent)
    requires
        forall|i: int| 0 <= i < s.len() ==> (#[trigger] s[i]).0 != k,
    ensures
        lookup_m(s, k) is None,
    decreases s.len(),
{
    if s.len() > 0 {
        assert forall|i: int| 0 <= i < s.drop_first().len() implies (
        #[trigger] s.drop_first()[i]).0 != k by {
            assert(s.drop_first()[i] == s[i + 1]);
        }
        lemma_lookup_none_of_missing(s.drop_first(), k);
    }
}

impl KeyMap {
    /// The map's bindings, in insertion order.
    pub closed spec fn bindings_seq(self) -> Seq<(KeyEvent, KeyBinding)> {
        self.bindings@
    }

    /// Keys are bound at most once.
    pub open spec fn wf(self) -> bool {
        unique_keys(self.bindings_seq())
    }

    pub fn new() -> (r: KeyMap)
        ensures
            r.bindings_seq() == Seq::<(KeyEvent, KeyBinding)>::empty(),
            r.wf(),
    {
        KeyMap { bindings: Vec::new() }
    }

    /// Bind `key`, replacing any existing binding for it.
    #[verifier::loop_isolation(false)]
    pub fn bind(&mut self, key: KeyEvent, binding: KeyBinding)
        requires
            old(self).wf(),
        ensures
            final(self).wf(),
            lookup_m(final(self).bindings_seq(), key) == Some(binding),
            forall|k: KeyEvent|
                k != key ==> #[trigger] lookup_m(final(self).bindings_seq(), k) == lookup_m(
                    old(self).bindings_seq(),
                    k,
                ),
    {
        let n = self.bindings.len();
        let mut i: usize = 0;
        while i < n
            invariant
                i <= n,
                n == self.bindings@.len(),
                *self == *old(self),
                forall|j: int| 0 <= j < i ==> (#[trigger] self.bindings@[j]).0 != key,
            decreases n - i,
        {
            if self.bindings[i].0 == key {
                let ghost pre = self.bindings@;
                self.bindings[i] = (key, binding);
                proof {
                    assert(self.bindings@ =~= pre.update(i as int, (key, binding)));
                    assert forall|k: KeyEvent| true implies #[trigger] lookup_m(
                        self.bindings@,
                        k,
                    ) == if k == key {
                        Some(binding)
                    } else {
                        lookup_m(pre, k)
                    } by {
                        lemma_lookup_update(pre, i as int, (key, binding), k);
                    }
                    assert forall|a: int, b: int| 0 <= a < b < self.bindings@.len() implies (
                    #[trigger] self.bindings@[a]).0 != (#[trigger] self.bindings@[b]).0 by {
                        assert(pre[a].0 != pre[b].0);
                    }
                }
                return ;
            }
            i += 1;
        }
        let ghost pre = self.bindings@;
        self.bindings.push((key, binding));
        proof {
            lemma_lookup_none_of_missing(pre, key);
            assert forall|k: KeyEvent| true implies #[trigger] lookup_m(self.bindings@, k) == if k
                == key {
                Some(binding)
            } else {
                lookup_m(pre, k)
            } by {
                lemma_lookup_push(pre, (key, binding), k);
                if k != key && lookup_m(pre, k) is None {
                }
            }
            assert forall|a: int, b: int| 0 <= a < b < self.bindings@.len() implies (
            #[trigger] self.bindings@[a]).0 != (#[trigger] self.bindings@[b]).0 by {
                if b < pre.len() {
                    assert(pre[a].0 != pre[b].0);
                } else {
                    assert(self.bindings@[b] == (key, binding));
                    assert(pre[a].0 != key);
                }
            }
        }
    }

    /// Bind `key` to the command `command`.
    pub fn bind_command(&mut self, key: KeyEvent, command: &'static str)
        requires
            old(self).wf(),
        ensures
            final(self).wf(),
            lookup_m(final(self).bindings_seq(), key) matches Some(b) && b matches
                KeyBinding::Command(name) && name@ == command@,
            forall|k: KeyEvent|
                k != key ==> #[trigger] lookup_m(final(self).bindings_seq(), k) == lookup_m(
                    old(self).bindings_seq(),
                    k,
                ),
    {
        self.bind(key, KeyBinding::Command(command));
    }

    /// Bind `key` as a prefix leading into `map`.
    pub fn bind_prefix(&mut self, key: KeyEvent, map: KeyMap)
        requires
            old(self).wf(),
        ensures
            final(self).wf(),
            lookup_m(final(self).bindings_seq(), key) == Some(KeyBinding::Prefix(map)),
            forall|k: KeyEvent|
                k != key ==> #[trigger] lookup_m(final(self).bindings_seq(), k) == lookup_m(
                    old(self).bindings_seq(),
                    k,
                ),
    {
        self.bind(key, KeyBinding::Prefix(map));
    }

    /// The binding for `key`, if any.
    #[verifier::loop_isolation(false)]
    pub fn get(&self, key: &KeyEvent) -> (r: Option<&KeyBinding>)
        ensures
            match r {
                Some(b) => lookup_m(self.bindings_seq(), *key) == Some(*b),
                None => lookup_m(self.bindings_seq(), *key) is None,
            },
    {
        let n = self.bindings.len();
        let mut i: usize = 0;
        proof {
            assert(self.bindings@.skip(0) =~= self.bindings@);
        }
        while i < n
            invariant
                i <= n,
                n == self.bindings@.len(),
                lookup_m(self.bindings@, *key) == lookup_m(self.bindings@.skip(i as int), *key),
            decreases n - i,
        {
            proof {
                assert(self.bindings@.skip(i as int)[0] == self.bindings@[i as int]);
                assert(self.bindings@.skip(i as int).drop_first() =~= self.bindings@.skip(
                    i as int + 1,
                ));
            }
            if self.bindings[i].0 == *key {
                return Some(&self.bindings[i].1);
            }
            i += 1;
        }
        proof {
            assert(self.bindings@.skip(n as int) =~= Seq::<(KeyEvent, KeyBinding)>::empty());
        }
        None
    }

    /// The binding for `key`, or `Unbound`.
    pub fn get_or_unbound(&self, key: &KeyEvent) -> (r: &KeyBinding)
        ensures
            match lookup_m(self.bindings_seq(), *key) {
                Some(b) => *r == b,
                None => *r is Unbound,
            },
    {
        match self.get(key) {
            Some(b) => b,
            None => &KeyBinding::Unbound,
        }
    }

    /// Remove any binding for `key`.
    #[verifier::loop_isolation(false)]
    pub fn unbind(&mut self, key: &KeyEvent)
        requires
            old(self).wf(),
        ensures
            final(self).wf(),
            lookup_m(final(self).bindings_seq(), *key) is None,
            forall|k: KeyEvent|
                k != *key ==> #[trigger] lookup_m(final(self).bindings_seq(), k) == lookup_m(
                    old(self).bindings_seq(),
                    k,
                ),
    {
        let n = self.bindings.len();
        let mut i: usize = 0;
        while i < n
            invariant
                i <= n,
                n == self.bindings@.len(),
                *self == *old(self),
                forall|j: int| 0 <= j < i ==> (#[trigger] self.bindings@[j]).0 != *key,
            decreases n - i,
        {
            if self.bindings[i].0 == *key {
                let ghost pre = self.bindings@;
                let _ = self.bindings.remove(i);
                proof {
                    assert(self.bindings@ =~= pre.take(i as int) + pre.skip(i as int + 1));
                    assert forall|j: int| 0 <= j < self.bindings@.len() implies (
                    #[trigger] self.bindings@[j]).0 != *key by {
                        if j < i {
                            assert(self.bindings@[j] == pre[j]);
                            assert(pre[j].0 != pre[i as int].0);
                        } else {
                            assert(self.bindings@[j] == pre[j + 1]);
                            assert(pre[j + 1].0 != pre[i as int].0);
                        }
                    }
                    lemma_lookup_none_of_missing(self.bindings@, *key);
                    assert forall|a: int, b: int| 0 <= a < b < self.bindings@.len() implies (
                    #[trigger] self.bindings@[a]).0 != (#[trigger] self.bindings@[b]).0 by {
                        let pa: int = if a < i {
                            a
                        } else {
                            a + 1
                        };
                        let pb: int = if b < i {
                            b
                        } else {
                            b + 1
                        };
                        assert(self.bindings@[a] == pre[pa]);
                        assert(self.bindings@[b] == pre[pb]);
                    }
                    assert forall|k: KeyEvent| k != *key implies #[trigger] lookup_m(
                        self.bindings@,
                        k,
                    ) == lookup_m(pre, k) by {
                        lemma_lookup_remove(pre, i as int, k);
                    }
                }
                return ;
            }
            i += 1;
        }
        proof {
            lemma_lookup_none_of_missing(self.bindings@, *key);
        }
    }

    /// Whether `key` leads into a nested map.
    pub fn is_prefix(&self, key: &KeyEvent) -> (r: bool)
        ensures
            r == (lookup_m(self.bindings_seq(), *key) matches Some(b) && b is Prefix),
    {
        match self.get(key) {
            Some(b) => matches!(b, KeyBinding::Prefix(_)),
            None => false,
        }
    }

    /// The nested map `key` leads into, if it is a prefix.
    pub fn get_prefix(&self, key: &KeyEvent) -> (r: Option<&KeyMap>)
        ensures
            match r {
                Some(m) => lookup_m(self.bindings_seq(), *key) == Some(KeyBinding::Prefix(*m)),
                None => !(lookup_m(self.bindings_seq(), *key) matches Some(b) && b is Prefix),
            },
    {
        match self.get(key) {
            Some(KeyBinding::Prefix(m)) => Some(m),
            _ => None,
        }
    }

    /// A snapshot view of the bindings, in order.
    pub fn iter(&self) -> (r: &Vec<(KeyEvent, KeyBinding)>)
        ensures
            r@ == self.bindings_seq(),
    {
        &self.bindings
    }
}

proof fn lemma_lookup_remove(s: Seq<(KeyEvent, KeyBinding)>, i: int, k: KeyEvent)
    requires
        0 <= i < s.len(),
        unique_keys(s),
        k != s[i].0,
    ensures
        lookup_m(s.take(i) + s.skip(i + 1), k) == lookup_m(s, k),
    decreases s.len(),
{
    if i == 0 {
        assert(s.take(0) + s.skip(1) =~= s.drop_first());
    } else {
        let rest = s.drop_first();
        assert(unique_keys(rest)) by {
            assert forall|a: int, b: int| 0 <= a < b < rest.len() implies (#[trigger] rest[a]).0
                != (#[trigger] rest[b]).0 by {
                assert(rest[a] == s[a + 1]);
                assert(rest[b] == s[b + 1]);
            }
        }
        assert(rest[i - 1] == s[i]);
        lemma_lookup_remove(rest, i - 1, k);
        assert(s.take(i) + s.skip(i + 1) =~= seq![s[0]] + (rest.take(i - 1) + rest.skip(i)));
        assert((s.take(i) + s.skip(i + 1))[0] == s[0]);
        assert((s.take(i) + s.skip(i + 1)).drop_first() =~= rest.take(i - 1) + rest.skip(i));
    }
}

} // verus!
