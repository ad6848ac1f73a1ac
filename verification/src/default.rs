//! The default key bindings: Emacs-style movement, editing, kill/yank, undo,
//! and the `C-x` and `M-g` prefix maps.
use vstd::prelude::*;

use crate::key::Key;
use crate::key::KeyEvent;
use crate::key::Modifiers;
use crate::keymap::KeyBinding;
use crate::keymap::KeyMap;
use crate::keymap::lookup_m;

verus! {

/// Build the default global keymap.
pub fn default_keymap() -> (map: KeyMap)
    ensures
        map.wf(),
        lookup_m(map.bindings_seq(), KeyEvent { key: Key::Char('f'), modifiers: Modifiers { ctrl: true, ..Modifiers::spec_none() } }) matches Some(b) && b matches
            KeyBinding::Command(n) && n@ == "forward-char"@,
        lookup_m(map.bindings_seq(), KeyEvent { key: Key::Char('b'), modifiers: Modifiers { ctrl: true, ..Modifiers::spec_none() } }) matches Some(b) && b matches
            KeyBinding::Command(n) && n@ == "backward-char"@,
        lookup_m(map.bindings_seq(), KeyEvent { key: Key::Char('n'), modifiers: Modifiers { ctrl: true, ..Modifiers::spec_none() } }) matches Some(b) && b matches
            KeyBinding::Command(n) && n@ == "next-line"@,
        lookup_m(map.bindings_seq(), KeyEvent { key: Key::Char('p'), modifiers: Modifiers { ctrl: true, ..Modifiers::spec_none() } }) matches Some(b) && b matches
            KeyBinding::Command(n) && n@ == "previous-line"@,
        lookup_m(map.bindings_seq(), KeyEvent { key: Key::Char('a'), modifiers: Modifiers { ctrl: true, ..Modifiers::spec_none() } }) matches Some(b) && b matches
            KeyBinding::Command(n) && n@ == "move-beginning-of-line"@,
        lookup_m(map.bindings_seq(), KeyEvent { key: Key::Char('e'), modifiers: Modifiers { ctrl: true, ..Modifiers::spec_none() } }) matches Some(b) && b matches
            KeyBinding::Command(n) && n@ == "move-end-of-line"@,
        lookup_m(map.bindings_seq(), KeyEvent { key: Key::Char('f'), modifiers: Modifiers { ctrl: true, shift: true, ..Modifiers::spec_none() } }) matches Some(b) && b matches
            KeyBinding::Command(n) && n@ == "forward-char-shift"@,
        lookup_m(map.bindings_seq(), KeyEvent { key: Key::Char('b'), modifiers: Modifiers { ctrl: true, shift: true, ..Modifiers::spec_none() } }) matches Some(b) && b matches
            KeyBinding::Command(n) && n@ == "backward-char-shift"@,
        lookup_m(map.bindings_seq(), KeyEvent { key: Key::Char('n'), modifiers: Modifiers { ctrl: true, shift: true, ..Modifiers::spec_none() } }) matches Some(b) && b matches
            KeyBinding::Command(n) && n@ == "next-line-shift"@,
        lookup_m(map.bindings_seq(), KeyEvent { key: Key::Char('p'), modifiers: Modifiers { ctrl: true, shift: true, ..Modifiers::spec_none() } }) matches Some(b) && b matches
            KeyBinding::Command(n) && n@ == "previous-line-shift"@,
        lookup_m(map.bindings_seq(), KeyEvent { key: Key::Char('a'), modifiers: Modifiers { ctrl: true, shift: true, ..Modifiers::spec_none() } }) matches Some(b) && b matches
            KeyBinding::Command(n) && n@ == "move-beginning-of-line-shift"@,
        lookup_m(map.bindings_seq(), KeyEvent { key: Key::Char('e'), modifiers: Modifiers { ctrl: true, shift: true, ..Modifiers::spec_none() } }) matches Some(b) && b matches
            KeyBinding::Command(n) && n@ == "move-end-of-line-shift"@,
        lookup_m(map.bindings_seq(), KeyEvent { key: Key::Char('f'), modifiers: Modifiers { meta: true, ..Modifiers::spec_none() } }) matches Some(b) && b matches
            KeyBinding::Command(n) && n@ == "forward-word"@,
        lookup_m(map.bindings_seq(), KeyEvent { key: Key::Char('b'), modifiers: Modifiers { meta: true, ..Modifiers::spec_none() } }) matches Some(b) && b matches
            KeyBinding::Command(n) && n@ == "backward-word"@,
        lookup_m(map.bindings_seq(), KeyEvent { key: Key::Char('f'), modifiers: Modifiers { meta: true, shift: true, ..Modifiers::spec_none() } }) matches Some(b) && b matches
            KeyBinding::Command(n) && n@ == "forward-word-shift"@,
        lookup_m(map.bindings_seq(), KeyEvent { key: Key::Char('b'), modifiers: Modifiers { meta: true, shift: true, ..Modifiers::spec_none() } }) matches Some(b) && b matches
            KeyBinding::Command(n) && n@ == "backward-word-shift"@,
        lookup_m(map.bindings_seq(), KeyEvent { key: Key::Char('<'), modifiers: Modifiers { meta: true, ..Modifiers::spec_none() } }) matches Some(b) && b matches
            KeyBinding::Command(n) && n@ == "beginning-of-buffer"@,
        lookup_m(map.bindings_seq(), KeyEvent { key: Key::Char('>'), modifiers: Modifiers { meta: true, ..Modifiers::spec_none() } }) matches Some(b) && b matches
            KeyBinding::Command(n) && n@ == "end-of-buffer"@,
        lookup_m(map.bindings_seq(), KeyEvent { key: Key::Char('<'), modifiers: Modifiers { meta: true, shift: true, ..Modifiers::spec_none() } }) matches Some(b) && b matches
            KeyBinding::Command(n) && n@ == "beginning-of-buffer-shift"@,
        lookup_m(map.bindings_seq(), KeyEvent { key: Key::Char('>'), modifiers: Modifiers { meta: true, shift: true, ..Modifiers::spec_none() } }) matches Some(b) && b matches
            KeyBinding::Command(n) && n@ == "end-of-buffer-shift"@,
        lookup_m(map.bindings_seq(), KeyEvent { key: Key::Char('v'), modifiers: Modifiers { ctrl: true, ..Modifiers::spec_none() } }) matches Some(b) && b matches
            KeyBinding::Command(n) && n@ == "scroll-up-command"@,
        lookup_m(map.bindings_seq(), KeyEvent { key: Key::Char('v'), modifiers: Modifiers { meta: true, ..Modifiers::spec_none() } }) matches Some(b) && b matches
            KeyBinding::Command(n) && n@ == "scroll-down-command"@,
        lookup_m(map.bindings_seq(), KeyEvent { key: Key::Char('l'), modifiers: Modifiers { ctrl: true, ..Modifiers::spec_none() } }) matches Some(b) && b matches
            KeyBinding::Command(n) && n@ == "recenter-top-bottom"@,
        lookup_m(map.bindings_seq(), KeyEvent { key: Key::Right, modifiers: Modifiers::spec_none() }) matches Some(b) && b matches
            KeyBinding::Command(n) && n@ == "forward-char"@,
        lookup_m(map.bindings_seq(), KeyEvent { key: Key::Left, modifiers: Modifiers::spec_none() }) matches Some(b) && b matches
            KeyBinding::Command(n) && n@ == "backward-char"@,
        lookup_m(map.bindings_seq(), KeyEvent { key: Key::Down, modifiers: Modifiers::spec_none() }) matches Some(b) && b matches
            KeyBinding::Command(n) && n@ == "next-line"@,
        lookup_m(map.bindings_seq(), KeyEvent { key: Key::Up, modifiers: Modifiers::spec_none() }) matches Some(b) && b matches
            KeyBinding::Command(n) && n@ == "previous-line"@,
        lookup_m(map.bindings_seq(), KeyEvent { key: Key::Home, modifiers: Modifiers::spec_none() }) matches Some(b) && b matches
            KeyBinding::Command(n) && n@ == "move-beginning-of-line"@,
        lookup_m(map.bindings_seq(), KeyEvent { key: Key::End, modifiers: Modifiers::spec_none() }) matches Some(b) && b matches
            KeyBinding::Command(n) && n@ == "move-end-of-line"@,
        lookup_m(map.bindings_seq(), KeyEvent { key: Key::PageUp, modifiers: Modifiers::spec_none() }) matches Some(b) && b matches
            KeyBinding::Command(n) && n@ == "scroll-down-command"@,
        lookup_m(map.bindings_seq(), KeyEvent { key: Key::PageDown, modifiers: Modifiers::spec_none() }) matches Some(b) && b matches
            KeyBinding::Command(n) && n@ == "scroll-up-command"@,
        lookup_m(map.bindings_seq(), KeyEvent { key: Key::Right, modifiers: Modifiers { shift: true, ..Modifiers::spec_none() } }) matches Some(b) && b matches
            KeyBinding::Command(n) && n@ == "forward-char-shift"@,
        lookup_m(map.bindings_seq(), KeyEvent { key: Key::Left, modifiers: Modifiers { shift: true, ..Modifiers::spec_none() } }) matches Some(b) && b matches
            KeyBinding::Command(n) && n@ == "backward-char-shift"@,
        lookup_m(map.bindings_seq(), KeyEvent { key: Key::Down, modifiers: Modifiers { shift: true, ..Modifiers::spec_none() } }) matches Some(b) && b matches
            KeyBinding::Command(n) && n@ == "next-line-shift"@,
        lookup_m(map.bindings_seq(), KeyEvent { key: Key::Up, modifiers: Modifiers { shift: true, ..Modifiers::spec_none() } }) matches Some(b) && b matches
            KeyBinding::Command(n) && n@ == "previous-line-shift"@,
        lookup_m(map.bindings_seq(), KeyEvent { key: Key::Home, modifiers: Modifiers { shift: true, ..Modifiers::spec_none() } }) matches Some(b) && b matches
            KeyBinding::Command(n) && n@ == "move-beginning-of-line-shift"@,
        lookup_m(map.bindings_seq(), KeyEvent { key: Key::End, modifiers: Modifiers { shift: true, ..Modifiers::spec_none() } }) matches Some(b) && b matches
            KeyBinding::Command(n) && n@ == "move-end-of-line-shift"@,
        lookup_m(map.bindings_seq(), KeyEvent { key: Key::Right, modifiers: Modifiers { meta: true, shift: true, ..Modifiers::spec_none() } }) matches Some(b) && b matches
            KeyBinding::Command(n) && n@ == "forward-word-shift"@,
        lookup_m(map.bindings_seq(), KeyEvent { key: Key::Left, modifiers: Modifiers { meta: true, shift: true, ..Modifiers::spec_none() } }) matches Some(b) && b matches
            KeyBinding::Command(n) && n@ == "backward-word-shift"@,
        lookup_m(map.bindings_seq(), KeyEvent { key: Key::Right, modifiers: Modifiers { meta: true, ..Modifiers::spec_none() } }) matches Some(b) && b matches
            KeyBinding::Command(n) && n@ == "forward-word"@,
        lookup_m(map.bindings_seq(), KeyEvent { key: Key::Left, modifiers: Modifiers { meta: true, ..Modifiers::spec_none() } }) matches Some(b) && b matches
            KeyBinding::Command(n) && n@ == "backward-word"@,
        lookup_m(map.bindings_seq(), KeyEvent { key: Key::Home, modifiers: Modifiers { ctrl: true, shift: true, ..Modifiers::spec_none() } }) matches Some(b) && b matches
            KeyBinding::Command(n) && n@ == "beginning-of-buffer-shift"@,
        lookup_m(map.bindings_seq(), KeyEvent { key: Key::End, modifiers: Modifiers { ctrl: true, shift: true, ..Modifiers::spec_none() } }) matches Some(b) && b matches
            KeyBinding::Command(n) && n@ == "end-of-buffer-shift"@,
        lookup_m(map.bindings_seq(), KeyEvent { key: Key::Home, modifiers: Modifiers { ctrl: true, ..Modifiers::spec_none() } }) matches Some(b) && b matches
            KeyBinding::Command(n) && n@ == "beginning-of-buffer"@,
        lookup_m(map.bindings_seq(), KeyEvent { key: Key::End, modifiers: Modifiers { ctrl: true, ..Modifiers::spec_none() } }) matches Some(b) && b matches
            KeyBinding::Command(n) && n@ == "end-of-buffer"@,
        lookup_m(map.bindings_seq(), KeyEvent { key: Key::Char('d'), modifiers: Modifiers { ctrl: true, ..Modifiers::spec_none() } }) matches Some(b) && b matches
            KeyBinding::Command(n) && n@ == "delete-char"@,
        lookup_m(map.bindings_seq(), KeyEvent { key: Key::Delete, modifiers: Modifiers::spec_none() }) matches Some(b) && b matches
            KeyBinding::Command(n) && n@ == "delete-char"@,
        lookup_m(map.bindings_seq(), KeyEvent { key: Key::Backspace, modifiers: Modifiers::spec_none() }) matches Some(b) && b matches
            KeyBinding::Command(n) && n@ == "delete-backward-char"@,
        lookup_m(map.bindings_seq(), KeyEvent { key: Key::Enter, modifiers: Modifiers::spec_none() }) matches Some(b) && b matches
            KeyBinding::Command(n) && n@ == "newline"@,
        lookup_m(map.bindings_seq(), KeyEvent { key: Key::Char('o'), modifiers: Modifiers { ctrl: true, ..Modifiers::spec_none() } }) matches Some(b) && b matches
            KeyBinding::Command(n) && n@ == "open-line"@,
        lookup_m(map.bindings_seq(), KeyEvent { key: Key::Char('t'), modifiers: Modifiers { ctrl: true, ..Modifiers::spec_none() } }) matches Some(b) && b matches
            KeyBinding::Command(n) && n@ == "transpose-chars"@,
        lookup_m(map.bindings_seq(), KeyEvent { key: Key::Char('j'), modifiers: Modifiers { ctrl: true, ..Modifiers::spec_none() } }) matches Some(b) && b matches
            KeyBinding::Command(n) && n@ == "newline"@,
        lookup_m(map.bindings_seq(), KeyEvent { key: Key::Char('k'), modifiers: Modifiers { ctrl: true, ..Modifiers::spec_none() } }) matches Some(b) && b matches
            KeyBinding::Command(n) && n@ == "kill-line"@,
        lookup_m(map.bindings_seq(), KeyEvent { key: Key::Char('d'), modifiers: Modifiers { meta: true, ..Modifiers::spec_none() } }) matches Some(b) && b matches
            KeyBinding::Command(n) && n@ == "kill-word"@,
        lookup_m(map.bindings_seq(), KeyEvent { key: Key::Backspace, modifiers: Modifiers { meta: true, ..Modifiers::spec_none() } }) matches Some(b) && b matches
            KeyBinding::Command(n) && n@ == "backward-kill-word"@,
        lookup_m(map.bindings_seq(), KeyEvent { key: Key::Char('w'), modifiers: Modifiers { ctrl: true, ..Modifiers::spec_none() } }) matches Some(b) && b matches
            KeyBinding::Command(n) && n@ == "kill-region"@,
        lookup_m(map.bindings_seq(), KeyEvent { key: Key::Char('w'), modifiers: Modifiers { meta: true, ..Modifiers::spec_none() } }) matches Some(b) && b matches
            KeyBinding::Command(n) && n@ == "copy-region-as-kill"@,
        lookup_m(map.bindings_seq(), KeyEvent { key: Key::Char('y'), modifiers: Modifiers { ctrl: true, ..Modifiers::spec_none() } }) matches Some(b) && b matches
            KeyBinding::Command(n) && n@ == "yank"@,
        lookup_m(map.bindings_seq(), KeyEvent { key: Key::Char('y'), modifiers: Modifiers { meta: true, ..Modifiers::spec_none() } }) matches Some(b) && b matches
            KeyBinding::Command(n) && n@ == "yank-pop"@,
        lookup_m(map.bindings_seq(), KeyEvent { key: Key::Char(' '), modifiers: Modifiers { ctrl: true, ..Modifiers::spec_none() } }) matches Some(b) && b matches
            KeyBinding::Command(n) && n@ == "set-mark-command"@,
        lookup_m(map.bindings_seq(), KeyEvent { key: Key::Char('h'), modifiers: Modifiers { meta: true, ..Modifiers::spec_none() } }) matches Some(b) && b matches
            KeyBinding::Command(n) && n@ == "mark-paragraph"@,
        lookup_m(map.bindings_seq(), KeyEvent { key: Key::Char('/'), modifiers: Modifiers { ctrl: true, ..Modifiers::spec_none() } }) matches Some(b) && b matches
            KeyBinding::Command(n) && n@ == "undo"@,
        lookup_m(map.bindings_seq(), KeyEvent { key: Key::Char('\''), modifiers: Modifiers { ctrl: true, ..Modifiers::spec_none() } }) matches Some(b) && b matches
            KeyBinding::Command(n) && n@ == "spawn-cursors-at-word-matches"@,
        lookup_m(map.bindings_seq(), KeyEvent { key: Key::Char('x'), modifiers: Modifiers { meta: true, ..Modifiers::spec_none() } }) matches Some(b) && b matches
            KeyBinding::Command(n) && n@ == "execute-extended-command"@,
        lookup_m(map.bindings_seq(), KeyEvent { key: Key::Char('g'), modifiers: Modifiers { ctrl: true, ..Modifiers::spec_none() } }) matches Some(b) && b matches
            KeyBinding::Prefix(sub) && ({
            &&& (lookup_m(sub.bindings_seq(), KeyEvent { key: Key::Char('g'), modifiers: Modifiers { ctrl: true, ..Modifiers::spec_none() } }) matches Some(b2) && b2 matches
    KeyBinding::Command(n2) && n2@ == "keyboard-quit"@)
        }),
        lookup_m(map.bindings_seq(), KeyEvent { key: Key::Char('x'), modifiers: Modifiers { ctrl: true, ..Modifiers::spec_none() } }) matches Some(b) && b matches
            KeyBinding::Prefix(sub) && ({
            &&& (lookup_m(sub.bindings_seq(), KeyEvent { key: Key::Char('s'), modifiers: Modifiers { ctrl: true, ..Modifiers::spec_none() } }) matches Some(b2) && b2 matches
    KeyBinding::Command(n2) && n2@ == "save-buffer"@)
            &&& (lookup_m(sub.bindings_seq(), KeyEvent { key: Key::Char('w'), modifiers: Modifiers { ctrl: true, ..Modifiers::spec_none() } }) matches Some(b2) && b2 matches
    KeyBinding::Command(n2) && n2@ == "write-file"@)
            &&& (lookup_m(sub.bindings_seq(), KeyEvent { key: Key::Char('f'), modifiers: Modifiers { ctrl: true, ..Modifiers::spec_none() } }) matches Some(b2) && b2 matches
    KeyBinding::Command(n2) && n2@ == "find-file"@)
            &&& (lookup_m(sub.bindings_seq(), KeyEvent { key: Key::Char('b'), modifiers: Modifiers::spec_none() }) matches Some(b2) && b2 matches
    KeyBinding::Command(n2) && n2@ == "switch-to-buffer"@)
            &&& (lookup_m(sub.bindings_seq(), KeyEvent { key: Key::Char('k'), modifiers: Modifiers::spec_none() }) matches Some(b2) && b2 matches
    KeyBinding::Command(n2) && n2@ == "kill-buffer"@)
            &&& (lookup_m(sub.bindings_seq(), KeyEvent { key: Key::Char('b'), modifiers: Modifiers { ctrl: true, ..Modifiers::spec_none() } }) matches Some(b2) && b2 matches
    KeyBinding::Command(n2) && n2@ == "list-buffers"@)
            &&& (lookup_m(sub.bindings_seq(), KeyEvent { key: Key::Char('2'), modifiers: Modifiers::spec_none() }) matches Some(b2) && b2 matches
    KeyBinding::Command(n2) && n2@ == "split-window-below"@)
            &&& (lookup_m(sub.bindings_seq(), KeyEvent { key: Key::Char('3'), modifiers: Modifiers::spec_none() }) matches Some(b2) && b2 matches
    KeyBinding::Command(n2) && n2@ == "split-window-right"@)
            &&& (lookup_m(sub.bindings_seq(), KeyEvent { key: Key::Char('0'), modifiers: Modifiers::spec_none() }) matches Some(b2) && b2 matches
    KeyBinding::Command(n2) && n2@ == "delete-window"@)
            &&& (lookup_m(sub.bindings_seq(), KeyEvent { key: Key::Char('1'), modifiers: Modifiers::spec_none() }) matches Some(b2) && b2 matches
    KeyBinding::Command(n2) && n2@ == "delete-other-windows"@)
            &&& (lookup_m(sub.bindings_seq(), KeyEvent { key: Key::Char('o'), modifiers: Modifiers::spec_none() }) matches Some(b2) && b2 matches
    KeyBinding::Command(n2) && n2@ == "other-window"@)
            &&& (lookup_m(sub.bindings_seq(), KeyEvent { key: Key::Char('x'), modifiers: Modifiers { ctrl: true, ..Modifiers::spec_none() } }) matches Some(b2) && b2 matches
    KeyBinding::Command(n2) && n2@ == "exchange-point-and-mark"@)
            &&& (lookup_m(sub.bindings_seq(), KeyEvent { key: Key::Char('h'), modifiers: Modifiers::spec_none() }) matches Some(b2) && b2 matches
    KeyBinding::Command(n2) && n2@ == "mark-whole-buffer"@)
            &&& (lookup_m(sub.bindings_seq(), KeyEvent { key: Key::Char('u'), modifiers: Modifiers::spec_none() }) matches Some(b2) && b2 matches
    KeyBinding::Command(n2) && n2@ == "undo"@)
            &&& (lookup_m(sub.bindings_seq(), KeyEvent { key: Key::Char('m'), modifiers: Modifiers::spec_none() }) matches Some(b2) && b2 matches
    KeyBinding::Command(n2) && n2@ == "spawn-cursors-at-word-matches"@)
            &&& (lookup_m(sub.bindings_seq(), KeyEvent { key: Key::Char('c'), modifiers: Modifiers { ctrl: true, ..Modifiers::spec_none() } }) matches Some(b2) && b2 matches
    KeyBinding::Command(n2) && n2@ == "exit"@)
        }),
        lookup_m(map.bindings_seq(), KeyEvent { key: Key::Char('g'), modifiers: Modifiers { meta: true, ..Modifiers::spec_none() } }) matches Some(b) && b matches
            KeyBinding::Prefix(sub) && ({
            &&& (lookup_m(sub.bindings_seq(), KeyEvent { key: Key::Char('g'), modifiers: Modifiers::spec_none() }) matches Some(b2) && b2 matches
    KeyBinding::Command(n2) && n2@ == "goto-line"@)
        }),
{
    let mut map = KeyMap::new();

    map.bind_command(KeyEvent::ctrl('f'), "forward-char");
    map.bind_command(KeyEvent::ctrl('b'), "backward-char");
    map.bind_command(KeyEvent::ctrl('n'), "next-line");
    map.bind_command(KeyEvent::ctrl('p'), "previous-line");
    map.bind_command(KeyEvent::ctrl('a'), "move-beginning-of-line");
    map.bind_command(KeyEvent::ctrl('e'), "move-end-of-line");

    map.bind_command(KeyEvent::ctrl_shift('f'), "forward-char-shift");
    map.bind_command(KeyEvent::ctrl_shift('b'), "backward-char-shift");
    map.bind_command(KeyEvent::ctrl_shift('n'), "next-line-shift");
    map.bind_command(KeyEvent::ctrl_shift('p'), "previous-line-shift");
    map.bind_command(KeyEvent::ctrl_shift('a'), "move-beginning-of-line-shift");
    map.bind_command(KeyEvent::ctrl_shift('e'), "move-end-of-line-shift");

    map.bind_command(KeyEvent::meta('f'), "forward-word");
    map.bind_command(KeyEvent::meta('b'), "backward-word");
    map.bind_command(KeyEvent::meta_shift('f'), "forward-word-shift");
    map.bind_command(KeyEvent::meta_shift('b'), "backward-word-shift");

    map.bind_command(KeyEvent::new(Key::Char('<'), Modifiers::meta()), "beginning-of-buffer");
    map.bind_command(KeyEvent::new(Key::Char('>'), Modifiers::meta()), "end-of-buffer");
    map.bind_command(
        KeyEvent::new(Key::Char('<'), Modifiers::meta().with(Modifiers::shift())),
        "beginning-of-buffer-shift",
    );
    map.bind_command(
        KeyEvent::new(Key::Char('>'), Modifiers::meta().with(Modifiers::shift())),
        "end-of-buffer-shift",
    );

    map.bind_command(KeyEvent::ctrl('v'), "scroll-up-command");
    map.bind_command(KeyEvent::meta('v'), "scroll-down-command");
    map.bind_command(KeyEvent::ctrl('l'), "recenter-top-bottom");

    map.bind_command(KeyEvent::new(Key::Right, Modifiers::none()), "forward-char");
    map.bind_command(KeyEvent::new(Key::Left, Modifiers::none()), "backward-char");
    map.bind_command(KeyEvent::new(Key::Down, Modifiers::none()), "next-line");
    map.bind_command(KeyEvent::new(Key::Up, Modifiers::none()), "previous-line");
    map.bind_command(KeyEvent::new(Key::Home, Modifiers::none()), "move-beginning-of-line");
    map.bind_command(KeyEvent::new(Key::End, Modifiers::none()), "move-end-of-line");
    map.bind_command(KeyEvent::new(Key::PageUp, Modifiers::none()), "scroll-down-command");
    map.bind_command(KeyEvent::new(Key::PageDown, Modifiers::none()), "scroll-up-command");

    map.bind_command(KeyEvent::new(Key::Right, Modifiers::shift()), "forward-char-shift");
    map.bind_command(KeyEvent::new(Key::Left, Modifiers::shift()), "backward-char-shift");
    map.bind_command(KeyEvent::new(Key::Down, Modifiers::shift()), "next-line-shift");
    map.bind_command(KeyEvent::new(Key::Up, Modifiers::shift()), "previous-line-shift");
    map.bind_command(KeyEvent::new(Key::Home, Modifiers::shift()), "move-beginning-of-line-shift");
    map.bind_command(KeyEvent::new(Key::End, Modifiers::shift()), "move-end-of-line-shift");

    map.bind_command(
        KeyEvent::new(Key::Right, Modifiers::shift().with(Modifiers::meta())),
        "forward-word-shift",
    );
    map.bind_command(
        KeyEvent::new(Key::Left, Modifiers::shift().with(Modifiers::meta())),
        "backward-word-shift",
    );
    map.bind_command(KeyEvent::new(Key::Right, Modifiers::meta()), "forward-word");
    map.bind_command(KeyEvent::new(Key::Left, Modifiers::meta()), "backward-word");

    map.bind_command(
        KeyEvent::new(Key::Home, Modifiers::ctrl().with(Modifiers::shift())),
        "beginning-of-buffer-shift",
    );
    map.bind_command(
        KeyEvent::new(Key::End, Modifiers::ctrl().with(Modifiers::shift())),
        "end-of-buffer-shift",
    );
    map.bind_command(KeyEvent::new(Key::Home, Modifiers::ctrl()), "beginning-of-buffer");
    map.bind_command(KeyEvent::new(Key::End, Modifiers::ctrl()), "end-of-buffer");

    map.bind_command(KeyEvent::ctrl('d'), "delete-char");
    map.bind_command(KeyEvent::new(Key::Delete, Modifiers::none()), "delete-char");
    map.bind_command(KeyEvent::new(Key::Backspace, Modifiers::none()), "delete-backward-char");
    map.bind_command(KeyEvent::new(Key::Enter, Modifiers::none()), "newline");
    map.bind_command(KeyEvent::ctrl('o'), "open-line");
    map.bind_command(KeyEvent::ctrl('t'), "transpose-chars");
    map.bind_command(KeyEvent::ctrl('j'), "newline");

    map.bind_command(KeyEvent::ctrl('k'), "kill-line");
    map.bind_command(KeyEvent::meta('d'), "kill-word");
    map.bind_command(KeyEvent::new(Key::Backspace, Modifiers::meta()), "backward-kill-word");
    map.bind_command(KeyEvent::ctrl('w'), "kill-region");
    map.bind_command(KeyEvent::meta('w'), "copy-region-as-kill");
    map.bind_command(KeyEvent::ctrl('y'), "yank");
    map.bind_command(KeyEvent::meta('y'), "yank-pop");

    map.bind_command(KeyEvent::new(Key::Char(' '), Modifiers::ctrl()), "set-mark-command");
    map.bind_command(KeyEvent::meta('h'), "mark-paragraph");

    map.bind_command(KeyEvent::new(Key::Char('/'), Modifiers::ctrl()), "undo");

    map.bind_command(KeyEvent::ctrl('\''), "spawn-cursors-at-word-matches");

    let mut cg_map = KeyMap::new();
    cg_map.bind_command(KeyEvent::ctrl('g'), "keyboard-quit");
    map.bind_prefix(KeyEvent::ctrl('g'), cg_map);
    map.bind_command(KeyEvent::meta('x'), "execute-extended-command");

    let mut cx_map = KeyMap::new();
    cx_map.bind_command(KeyEvent::ctrl('s'), "save-buffer");
    cx_map.bind_command(KeyEvent::ctrl('w'), "write-file");
    cx_map.bind_command(KeyEvent::ctrl('f'), "find-file");
    cx_map.bind_command(KeyEvent::char('b'), "switch-to-buffer");
    cx_map.bind_command(KeyEvent::char('k'), "kill-buffer");
    cx_map.bind_command(KeyEvent::ctrl('b'), "list-buffers");

    cx_map.bind_command(KeyEvent::char('2'), "split-window-below");
    cx_map.bind_command(KeyEvent::char('3'), "split-window-right");
    cx_map.bind_command(KeyEvent::char('0'), "delete-window");
    cx_map.bind_command(KeyEvent::char('1'), "delete-other-windows");
    cx_map.bind_command(KeyEvent::char('o'), "other-window");

    cx_map.bind_command(KeyEvent::ctrl('x'), "exchange-point-and-mark");
    cx_map.bind_command(KeyEvent::char('h'), "mark-whole-buffer");
    cx_map.bind_command(KeyEvent::char('u'), "undo");
    cx_map.bind_command(KeyEvent::char('m'), "spawn-cursors-at-word-matches");

    cx_map.bind_command(KeyEvent::ctrl('c'), "exit");

    map.bind_prefix(KeyEvent::ctrl('x'), cx_map);

    let mut mg_map = KeyMap::new();
    mg_map.bind_command(KeyEvent::char('g'), "goto-line");
    map.bind_prefix(KeyEvent::meta('g'), mg_map);

    map
}

} // verus!
