//! The key resolver: walks the keymap trie with a memory of pending prefix
//! keys and falls back to self-insertion for plain printable characters.
use vstd::prelude::*;
use vstd::string::StringExecFns;

use crate::key::Key;
use crate::key::KeyEvent;
use crate::key::event_display;
use crate::keymap::KeyBinding;
use crate::keymap::KeyMap;
use crate::keymap::lookup_m;

verus! {

/// What feeding a key into the resolver produced.
#[derive(Debug, PartialEq)]
pub enum KeyResolution {
    Complete(&'static str),
    Prefix(String),
    Unbound(Vec<KeyEvent>),
    SelfInsert(char),
}

/// The resolver: the prefix keys fed so far and their display form.
#[derive(Debug)]
pub struct KeyResolver {
    pending_keys: Vec<KeyEvent>,
    prefix_display: String,
}

/// The outcome of walking `keys` through the trie rooted at `m`: a complete
/// command name, a pending prefix, or no binding.
pub enum WalkM {
    Complete(Seq<char>),
    Pending,
    Nowhere,
}

/// Walk the keys through the map: a command binding completes on the last
/// key, a prefix binding descends, anything else is unbound.
pub open spec fn walk_m(m: KeyMap, keys: Seq<KeyEvent>) -> WalkM
    decreases keys.len(),
{
    if keys.len() == 0 {
        WalkM::Pending
    } else {
        match lookup_m(m.bindings_seq(), keys[0]) {
            Some(KeyBinding::Command(name)) => if keys.len() == 1 {
                WalkM::Complete(name@)
            } else {
                walk_m(m, keys.drop_first())
            },
            Some(KeyBinding::Prefix(sub)) => if keys.len() == 1 {
                WalkM::Pending
            } else {
                walk_m(sub, keys.drop_first())
            },
            _ => WalkM::Nowhere,
        }
    }
}

/// The echo-area text for a pending prefix: the keys joined by spaces, with a
/// trailing dash.
pub open spec fn pending_display_m(keys: Seq<KeyEvent>) -> Seq<char>
    decreases keys.len(),
{
    if keys.len() == 0 {
        "-"@
    } else if keys.len() == 1 {
        event_display(keys[0]) + "-"@
    } else {
        event_display(keys[0]) + " "@ + pending_display_m(keys.drop_first())
    }
}

impl KeyResolver {
    /// The keys of an unfinished prefix sequence, oldest first.
    pub closed spec fn pending(self) -> Seq<KeyEvent> {
        self.pending_keys@
    }

    pub fn new() -> (r: KeyResolver)
        ensures
            r.pending() == Seq::<KeyEvent>::empty(),
    {
        KeyResolver { pending_keys: Vec::new(), prefix_display: String::new() }
    }

    /// Drop any pending prefix keys.
    pub fn clear(&mut self)
        ensures
            final(self).pending() == Seq::<KeyEvent>::empty(),
    {
        self.pending_keys.clear();
        self.prefix_display = String::new();
    }

    /// Whether a prefix sequence is waiting for more keys.
    pub fn is_pending(&self) -> (r: bool)
        ensures
            r == (self.pending().len() > 0),
    {
        self.pending_keys.len() > 0
    }

    /// The display form of the pending prefix.
    pub fn pending_display(&self) -> (r: &str) {
        self.prefix_display.as_str()
    }

    fn update_prefix_display(&mut self)
        ensures
            final(self).pending() == old(self).pending(),
            final(self).prefix_display@ == pending_display_m(old(self).pending()),
    {
        let mut out = String::new();
        let n = self.pending_keys.len();
        let mut i: usize = 0;
        proof {
            assert(self.pending_keys@.skip(0) =~= self.pending_keys@);
            assert(out@ + pending_display_m(self.pending_keys@.skip(0)) =~= pending_display_m(
                self.pending_keys@,
            ));
        }
        while i < n
            invariant
                i <= n,
                n == self.pending_keys@.len(),
                *self == *old(self),
                pending_display_m(self.pending_keys@) == out@ + pending_display_m(
                    self.pending_keys@.skip(i as int),
                ),
            decreases n - i,
        {
            proof {
                assert(self.pending_keys@.skip(i as int)[0] == self.pending_keys@[i as int]);
                assert(self.pending_keys@.skip(i as int).drop_first() =~= self.pending_keys@.skip(
                    i as int + 1,
                ));
            }
            let d = self.pending_keys[i].display_string();
            out.append(d.as_str());
            if i + 1 < n {
                out.append(" ");
            }
            i += 1;
        }
        out.append("-");
        proof {
            assert(self.pending_keys@.skip(n as int) =~= Seq::<KeyEvent>::empty());
            if n == 0 {
                assert(out@ =~= pending_display_m(self.pending_keys@));
            }
        }
        self.prefix_display = out;
    }

    /// Feed one key. A completed binding or a dead end clears the pending
    /// keys; a prefix keeps them. A single unbound plain printable character
    /// becomes a self-insertion.
    #[verifier::loop_isolation(false)]
    pub fn resolve(&mut self, key: KeyEvent, keymap: &KeyMap) -> (r: KeyResolution)
        ensures
            ({
                let keys = old(self).pending().push(key);
                match walk_m(*keymap, keys) {
                    WalkM::Complete(name) => r matches KeyResolution::Complete(n) && n@ == name
                        && final(self).pending() == Seq::<KeyEvent>::empty(),
                    WalkM::Pending => r matches KeyResolution::Prefix(d) && d@
                        == pending_display_m(keys) && final(self).pending() == keys,
                    WalkM::Nowhere => final(self).pending() == Seq::<KeyEvent>::empty() && if keys.len()
                        == 1 && key.spec_is_printable() {
                        r matches KeyResolution::SelfInsert(c) && key.key == Key::Char(c)
                    } else {
                        r matches KeyResolution::Unbound(ks) && ks@ == keys
                    },
                }
            }),
    {
        self.pending_keys.push(key);
        let ghost keys = self.pending_keys@;
        let n = self.pending_keys.len();
        let mut current: &KeyMap = keymap;
        let mut i: usize = 0;
        proof {
            assert(keys.skip(0) =~= keys);
        }
        while i < n
            invariant
                i < n,
                n == keys.len(),
                self.pending_keys@ == keys,
                self.prefix_display == old(self).prefix_display,
                walk_m(*keymap, keys) == walk_m(*current, keys.skip(i as int)),
            decreases n - i,
        {
            proof {
                assert(keys.skip(i as int)[0] == keys[i as int]);
                assert(keys.skip(i as int).drop_first() =~= keys.skip(i as int + 1));
            }
            let k = self.pending_keys[i];
            match current.get(&k) {
                Some(KeyBinding::Command(cmd)) => {
                    if i == n - 1 {
                        let result = KeyResolution::Complete(*cmd);
                        self.clear();
                        return result;
                    }
                },
                Some(KeyBinding::Prefix(prefix_map)) => {
                    if i == n - 1 {
                        self.update_prefix_display();
                        let shown = self.prefix_display.clone();
                        return KeyResolution::Prefix(shown);
                    }
                    current = prefix_map;
                },
                _ => {
                    if i == 0 && n == 1 {
                        if let Key::Char(c) = key.key {
                            if key.is_printable() {
                                self.clear();
                                return KeyResolution::SelfInsert(c);
                            }
                        }
                    }
                    let mut unbound: Vec<KeyEvent> = Vec::new();
                    std::mem::swap(&mut unbound, &mut self.pending_keys);
                    self.clear();
                    return KeyResolution::Unbound(unbound);
                },
            }
            i += 1;
        }
        proof {
            assert(false);
        }
        let shown = self.prefix_display.clone();
        KeyResolution::Prefix(shown)
    }
}

} // verus!
