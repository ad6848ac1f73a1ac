//! Key events: a key, a set of modifiers, and the canonical display form
//! bindings are written in.
use vstd::prelude::*;
use vstd::string::StringExecFns;

use crate::chars::spec_control;
use crate::chars::is_control_char;
use crate::chars::spec_ascii_lower;
use crate::chars::to_ascii_lowercase_char;

verus! {

broadcast use vstd::string::group_string_axioms;

/// A physical key.
#[derive(Debug, Clone, Copy, PartialEq, Eq, Structural, Hash)]
pub enum Key {
    Char(char),
    F(u8),
    Backspace,
    Tab,
    Enter,
    Escape,
    Up,
    Down,
    Left,
    Right,
    Home,
    End,
    PageUp,
    PageDown,
    Insert,
    Delete,
}

/// The modifier set of a key event.
#[derive(Debug, Clone, Copy, PartialEq, Eq, Structural, Hash)]
pub struct Modifiers {
    pub ctrl: bool,
    pub meta: bool,
    pub shift: bool,
    pub super_key: bool,
}

impl Modifiers {
    pub open spec fn spec_none() -> Modifiers {
        Modifiers { ctrl: false, meta: false, shift: false, super_key: false }
    }

    pub fn none() -> (r: Modifiers)
        ensures
            r == Modifiers::spec_none(),
    {
        Modifiers { ctrl: false, meta: false, shift: false, super_key: false }
    }

    pub fn ctrl() -> (r: Modifiers)
        ensures
            r == (Modifiers { ctrl: true, ..Modifiers::spec_none() }),
    {
        Modifiers { ctrl: true, meta: false, shift: false, super_key: false }
    }

    pub fn meta() -> (r: Modifiers)
        ensures
            r == (Modifiers { meta: true, ..Modifiers::spec_none() }),
    {
        Modifiers { ctrl: false, meta: true, shift: false, super_key: false }
    }

    pub fn shift() -> (r: Modifiers)
        ensures
            r == (Modifiers { shift: true, ..Modifiers::spec_none() }),
    {
        Modifiers { ctrl: false, meta: false, shift: true, super_key: false }
    }

    /// This set with the other's modifiers added.
    pub fn with(self, other: Modifiers) -> (r: Modifiers)
        ensures
            r == (Modifiers {
                ctrl: self.ctrl || other.ctrl,
                meta: self.meta || other.meta,
                shift: self.shift || other.shift,
                super_key: self.super_key || other.super_key,
            }),
    {
        Modifiers {
            ctrl: self.ctrl || other.ctrl,
            meta: self.meta || other.meta,
            shift: self.shift || other.shift,
            super_key: self.super_key || other.super_key,
        }
    }
}

/// A key press with its modifiers.
#[derive(Debug, Clone, Copy, PartialEq, Eq, Structural, Hash)]
pub struct KeyEvent {
    pub key: Key,
    pub modifiers: Modifiers,
}

/// The decimal digits of `n`, most significant first.
pub open spec fn dec_str(n: int) -> Seq<char>
    decreases n,
{
    if n < 0 {
        Seq::empty()
    } else if n < 10 {
        seq![((48 + n) as u8) as char]
    } else {
        dec_str(n / 10) + seq![((48 + n % 10) as u8) as char]
    }
}

fn dec_u8(n: u8) -> (r: String)
    ensures
        r@ == dec_str(n as int),
    decreases n,
{
    if n < 10 {
        let c: char = ((48 + n) as u8) as char;
        crate::chars::char_to_string(c)
    } else {
        let high = dec_u8(n / 10);
        let c: char = ((48 + n % 10) as u8) as char;
        let low = crate::chars::char_to_string(c);
        high.concat(low.as_str())
    }
}

/// The display label of a key, in the form bindings are written in.
pub open spec fn key_label(k: Key) -> Seq<char> {
    match k {
        Key::Char(c) => seq![c],
        Key::F(n) => "<f"@ + dec_str(n as int) + ">"@,
        Key::Backspace => "<backspace>"@,
        Key::Tab => "<tab>"@,
        Key::Enter => "<return>"@,
        Key::Escape => "<escape>"@,
        Key::Up => "<up>"@,
        Key::Down => "<down>"@,
        Key::Left => "<left>"@,
        Key::Right => "<right>"@,
        Key::Home => "<home>"@,
        Key::End => "<end>"@,
        Key::PageUp => "<prior>"@,
        Key::PageDown => "<next>"@,
        Key::Insert => "<insert>"@,
        Key::Delete => "<delete>"@,
    }
}

/// The display form of a key event: modifier prefixes, then the key label.
pub open spec fn event_display(e: KeyEvent) -> Seq<char> {
    let c = if e.modifiers.ctrl {
        "C-"@
    } else {
        Seq::<char>::empty()
    };
    let m = if e.modifiers.meta {
        "M-"@
    } else {
        Seq::<char>::empty()
    };
    let s = if e.modifiers.super_key {
        "s-"@
    } else {
        Seq::<char>::empty()
    };
    let sh = if e.modifiers.shift {
        "S-"@
    } else {
        Seq::<char>::empty()
    };
    c + m + s + sh + key_label(e.key)
}

impl KeyEvent {
    pub fn new(key: Key, modifiers: Modifiers) -> (r: KeyEvent)
        ensures
            r == (KeyEvent { key, modifiers }),
    {
        KeyEvent { key, modifiers }
    }

    pub fn char(c: char) -> (r: KeyEvent)
        ensures
            r == (KeyEvent { key: Key::Char(c), modifiers: Modifiers::spec_none() }),
    {
        KeyEvent { key: Key::Char(c), modifiers: Modifiers::none() }
    }

    /// A control chord; letters are stored lowercase.
    pub fn ctrl(c: char) -> (r: KeyEvent)
        ensures
            r == (KeyEvent {
                key: Key::Char(spec_ascii_lower(c)),
                modifiers: Modifiers { ctrl: true, ..Modifiers::spec_none() },
            }),
    {
        KeyEvent { key: Key::Char(to_ascii_lowercase_char(c)), modifiers: Modifiers::ctrl() }
    }

    /// A meta chord; letters are stored lowercase.
    pub fn meta(c: char) -> (r: KeyEvent)
        ensures
            r == (KeyEvent {
                key: Key::Char(spec_ascii_lower(c)),
                modifiers: Modifiers { meta: true, ..Modifiers::spec_none() },
            }),
    {
        KeyEvent { key: Key::Char(to_ascii_lowercase_char(c)), modifiers: Modifiers::meta() }
    }

    pub fn ctrl_meta(c: char) -> (r: KeyEvent)
        ensures
            r == (KeyEvent {
                key: Key::Char(spec_ascii_lower(c)),
                modifiers: Modifiers { ctrl: true, meta: true, ..Modifiers::spec_none() },
            }),
    {
        KeyEvent {
            key: Key::Char(to_ascii_lowercase_char(c)),
            modifiers: Modifiers::ctrl().with(Modifiers::meta()),
        }
    }

    pub fn ctrl_shift(c: char) -> (r: KeyEvent)
        ensures
            r == (KeyEvent {
                key: Key::Char(spec_ascii_lower(c)),
                modifiers: Modifiers { ctrl: true, shift: true, ..Modifiers::spec_none() },
            }),
    {
        KeyEvent {
            key: Key::Char(to_ascii_lowercase_char(c)),
            modifiers: Modifiers::ctrl().with(Modifiers::shift()),
        }
    }

    pub fn meta_shift(c: char) -> (r: KeyEvent)
        ensures
            r == (KeyEvent {
                key: Key::Char(spec_ascii_lower(c)),
                modifiers: Modifiers { meta: true, shift: true, ..Modifiers::spec_none() },
            }),
    {
        KeyEvent {
            key: Key::Char(to_ascii_lowercase_char(c)),
            modifiers: Modifiers::meta().with(Modifiers::shift()),
        }
    }

    pub fn ctrl_key(key: Key) -> (r: KeyEvent)
        ensures
            r == (KeyEvent { key, modifiers: Modifiers { ctrl: true, ..Modifiers::spec_none() } }),
    {
        KeyEvent { key, modifiers: Modifiers::ctrl() }
    }

    pub fn meta_key(key: Key) -> (r: KeyEvent)
        ensures
            r == (KeyEvent { key, modifiers: Modifiers { meta: true, ..Modifiers::spec_none() } }),
    {
        KeyEvent { key, modifiers: Modifiers::meta() }
    }

    /// A plain printable character: a non-control char with no modifiers.
    pub open spec fn spec_is_printable(self) -> bool {
        match self.key {
            Key::Char(c) => !spec_control(c) && self.modifiers == Modifiers::spec_none(),
            _ => false,
        }
    }

    pub fn is_printable(&self) -> (r: bool)
        ensures
            r == self.spec_is_printable(),
    {
        match self.key {
            Key::Char(c) => !is_control_char(c) && !self.modifiers.ctrl && !self.modifiers.meta
                && !self.modifiers.shift && !self.modifiers.super_key,
            _ => false,
        }
    }

    /// The canonical form of a character key from a frontend: a control- or
    /// meta-modified uppercase ASCII letter becomes the lowercase letter with
    /// an added shift modifier, and a shifted symbol that is not alphanumeric
    /// drops the shift bit, since the symbol itself carries the intent.
    pub fn normalize_char_key(c: char, m: Modifiers) -> (r: KeyEvent)
        ensures
            'A' <= c && c <= 'Z' && (m.ctrl || m.meta) ==> r == (KeyEvent {
                key: Key::Char(spec_ascii_lower(c)),
                modifiers: Modifiers { shift: true, ..m },
            }),
            !('A' <= c && c <= 'Z' && (m.ctrl || m.meta)) && !crate::chars::spec_ascii_alnum(c)
                && m.shift ==> r == (KeyEvent {
                key: Key::Char(c),
                modifiers: Modifiers { shift: false, ..m },
            }),
            !('A' <= c && c <= 'Z' && (m.ctrl || m.meta)) && !(!crate::chars::spec_ascii_alnum(c)
                && m.shift) ==> r == (KeyEvent { key: Key::Char(c), modifiers: m }),
    {
        if 'A' <= c && c <= 'Z' && (m.ctrl || m.meta) {
            KeyEvent {
                key: Key::Char(to_ascii_lowercase_char(c)),
                modifiers: Modifiers { shift: true, ..m },
            }
        } else if !crate::chars::is_ascii_alnum_char(c) && m.shift {
            KeyEvent { key: Key::Char(c), modifiers: Modifiers { shift: false, ..m } }
        } else {
            KeyEvent { key: Key::Char(c), modifiers: m }
        }
    }

    /// The event rendered for the echo area, e.g. `C-x` or `M-<backspace>`.
    pub fn display_string(&self) -> (r: String)
        ensures
            r@ == event_display(*self),
    {
        let mut out = String::new();
        if self.modifiers.ctrl {
            out.append("C-");
        }
        if self.modifiers.meta {
            out.append("M-");
        }
        if self.modifiers.super_key {
            out.append("s-");
        }
        if self.modifiers.shift {
            out.append("S-");
        }
        match self.key {
            Key::Char(c) => {
                let cs = crate::chars::char_to_string(c);
                out.append(cs.as_str());
            },
            Key::F(n) => {
                out.append("<f");
                let d = dec_u8(n);
                out.append(d.as_str());
                out.append(">");
            },
            Key::Backspace => out.append("<backspace>"),
            Key::Tab => out.append("<tab>"),
            Key::Enter => out.append("<return>"),
            Key::Escape => out.append("<escape>"),
            Key::Up => out.append("<up>"),
            Key::Down => out.append("<down>"),
            Key::Left => out.append("<left>"),
            Key::Right => out.append("<right>"),
            Key::Home => out.append("<home>"),
            Key::End => out.append("<end>"),
            Key::PageUp => out.append("<prior>"),
            Key::PageDown => out.append("<next>"),
            Key::Insert => out.append("<insert>"),
            Key::Delete => out.append("<delete>"),
        }
        proof {
            assert(Seq::<char>::empty() + "C-"@ =~= "C-"@);
        }
        out
    }
}

} // verus!
