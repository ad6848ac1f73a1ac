use enacs::default::default_keymap;
use enacs::key::{Key, KeyEvent, Modifiers};
use enacs::keymap::{KeyBinding, KeyMap};
use enacs::resolver::{KeyResolution, KeyResolver};

#[test]
fn test_key_display() {
    assert_eq!(KeyEvent::ctrl('x').display_string(), "C-x");
    assert_eq!(KeyEvent::meta('x').display_string(), "M-x");
    assert_eq!(KeyEvent::ctrl_meta('x').display_string(), "C-M-x");
    assert_eq!(KeyEvent::char('a').display_string(), "a");
}

#[test]
fn test_is_printable() {
    assert!(KeyEvent::char('a').is_printable());
    assert!(!KeyEvent::ctrl('a').is_printable());
    assert!(!KeyEvent::new(Key::Backspace, Modifiers::none()).is_printable());
}

#[test]
fn test_bind_command() {
    let mut map = KeyMap::new();
    map.bind_command(KeyEvent::ctrl('f'), "forward-char");

    match map.get(&KeyEvent::ctrl('f')) {
        Some(KeyBinding::Command(name)) => assert_eq!(*name, "forward-char"),
        _ => panic!("Expected command binding"),
    }
}

#[test]
fn test_bind_prefix() {
    let mut map = KeyMap::new();
    let mut prefix = KeyMap::new();
    prefix.bind_command(KeyEvent::ctrl('s'), "save-buffer");
    map.bind_prefix(KeyEvent::ctrl('x'), prefix);

    assert!(map.is_prefix(&KeyEvent::ctrl('x')));

    if let Some(prefix_map) = map.get_prefix(&KeyEvent::ctrl('x')) {
        match prefix_map.get(&KeyEvent::ctrl('s')) {
            Some(KeyBinding::Command(name)) => assert_eq!(*name, "save-buffer"),
            _ => panic!("Expected command binding"),
        }
    } else {
        panic!("Expected prefix map");
    }
}

fn make_test_keymap() -> KeyMap {
    let mut map = KeyMap::new();
    map.bind_command(KeyEvent::ctrl('f'), "forward-char");
    map.bind_command(KeyEvent::ctrl('b'), "backward-char");

    let mut cx_map = KeyMap::new();
    cx_map.bind_command(KeyEvent::ctrl('s'), "save-buffer");
    cx_map.bind_command(KeyEvent::ctrl('f'), "find-file");
    cx_map.bind_command(KeyEvent::char('b'), "switch-to-buffer");
    map.bind_prefix(KeyEvent::ctrl('x'), cx_map);

    map
}

#[test]
fn test_resolve_direct_command() {
    let keymap = make_test_keymap();
    let mut resolver = KeyResolver::new();

    let result = resolver.resolve(KeyEvent::ctrl('f'), &keymap);
    assert_eq!(result, KeyResolution::Complete("forward-char"));
    assert!(!resolver.is_pending());
}

#[test]
fn test_resolve_prefix_then_command() {
    let keymap = make_test_keymap();
    let mut resolver = KeyResolver::new();

    let result = resolver.resolve(KeyEvent::ctrl('x'), &keymap);
    assert!(matches!(result, KeyResolution::Prefix(_)));
    assert!(resolver.is_pending());

    let result = resolver.resolve(KeyEvent::ctrl('s'), &keymap);
    assert_eq!(result, KeyResolution::Complete("save-buffer"));
    assert!(!resolver.is_pending());
}

#[test]
fn test_resolve_self_insert() {
    let keymap = make_test_keymap();
    let mut resolver = KeyResolver::new();

    let result = resolver.resolve(KeyEvent::char('a'), &keymap);
    assert_eq!(result, KeyResolution::SelfInsert('a'));
}

#[test]
fn test_resolve_unbound() {
    let keymap = make_test_keymap();
    let mut resolver = KeyResolver::new();

    let result = resolver.resolve(KeyEvent::ctrl('z'), &keymap);
    assert!(matches!(result, KeyResolution::Unbound(_)));
}

#[test]
fn test_resolve_unbound_after_prefix() {
    let keymap = make_test_keymap();
    let mut resolver = KeyResolver::new();

    let _ = resolver.resolve(KeyEvent::ctrl('x'), &keymap);
    let result = resolver.resolve(KeyEvent::ctrl('z'), &keymap);
    assert!(matches!(result, KeyResolution::Unbound(_)));
}

#[test]
fn test_prefix_display_text() {
    let keymap = make_test_keymap();
    let mut resolver = KeyResolver::new();
    let result = resolver.resolve(KeyEvent::ctrl('x'), &keymap);
    match result {
        KeyResolution::Prefix(display) => assert_eq!(display, "C-x-"),
        _ => panic!("Expected prefix"),
    }
}

#[test]
fn test_default_keymap_has_basic_bindings() {
    let keymap = default_keymap();

    assert!(matches!(
        keymap.get(&KeyEvent::ctrl('f')),
        Some(KeyBinding::Command("forward-char"))
    ));

    assert!(keymap.is_prefix(&KeyEvent::ctrl('x')));

    if let Some(cx_map) = keymap.get_prefix(&KeyEvent::ctrl('x')) {
        assert!(matches!(
            cx_map.get(&KeyEvent::ctrl('s')),
            Some(KeyBinding::Command("save-buffer"))
        ));
    }
}

#[test]
fn test_unbind_removes_binding() {
    let mut map = KeyMap::new();
    map.bind_command(KeyEvent::ctrl('f'), "forward-char");
    map.unbind(&KeyEvent::ctrl('f'));
    assert!(map.get(&KeyEvent::ctrl('f')).is_none());
}

#[test]
fn test_normalize_char_key() {
    // Ctrl+uppercase letter: lowercased, shift added.
    let r = KeyEvent::normalize_char_key('A', Modifiers::ctrl());
    assert_eq!(r.key, Key::Char('a'));
    assert!(r.modifiers.ctrl && r.modifiers.shift);
    // Meta+uppercase letter likewise.
    let r = KeyEvent::normalize_char_key('X', Modifiers::meta());
    assert_eq!(r.key, Key::Char('x'));
    assert!(r.modifiers.meta && r.modifiers.shift);
    // A shifted symbol drops the shift bit.
    let r = KeyEvent::normalize_char_key('<', Modifiers::shift());
    assert_eq!(r, KeyEvent::char('<'));
    // A shifted letter keeps it.
    let r = KeyEvent::normalize_char_key('A', Modifiers::shift());
    assert_eq!(
        r,
        KeyEvent::new(Key::Char('A'), Modifiers::shift())
    );
    // A plain character is unchanged.
    let r = KeyEvent::normalize_char_key('a', Modifiers::none());
    assert_eq!(r, KeyEvent::char('a'));
}
