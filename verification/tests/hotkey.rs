use tts_read::hotkey::{
    named_key, parse, HotkeyError, HotkeyEvent, Key, KeyEvent, ListenerState, Part,
};

fn mods(mut v: Vec<Key>) -> Vec<Key> {
    v.sort_by_key(|k| format!("{k:?}"));
    v
}

#[test]
fn parses_alt_r() {
    let d = parse("alt+r").unwrap();
    assert_eq!(d.key, Key::KeyR);
    assert_eq!(d.modifiers, vec![Key::Alt]);
}

#[test]
fn parts_are_trimmed_and_lowercased() {
    let d = parse(" Ctrl + SHIFT + F5 ").unwrap();
    assert_eq!(d.key, Key::F5);
    assert_eq!(mods(d.modifiers), mods(vec![Key::ControlLeft, Key::ShiftLeft]));
}

#[test]
fn modifier_synonyms() {
    let d = parse("win+altgr+right_ctrl+rshift+space").unwrap();
    assert_eq!(d.key, Key::Space);
    assert_eq!(
        mods(d.modifiers),
        mods(vec![Key::MetaLeft, Key::AltGr, Key::ControlRight, Key::ShiftRight])
    );
}

#[test]
fn repeated_modifier_counts_once() {
    let d = parse("alt+alt+9").unwrap();
    assert_eq!(d.modifiers, vec![Key::Alt]);
    assert_eq!(d.key, Key::Num9);
}

#[test]
fn last_main_key_wins() {
    assert_eq!(parse("a+b").unwrap().key, Key::KeyB);
}

#[test]
fn missing_main_key_is_refused() {
    match parse("alt+shift") {
        Err(e @ HotkeyError::MissingKey(_)) => {
            assert_eq!(e.message(), "hotkey must include a non-modifier key: alt+shift")
        }
        other => panic!("unexpected {other:?}"),
    }
}

#[test]
fn unknown_and_unsupported_names() {
    match parse("alt+foo") {
        Err(e @ HotkeyError::UnknownKeyName(_)) => assert_eq!(e.message(), "unknown key name: foo"),
        other => panic!("unexpected {other:?}"),
    }
    match parse("alt+-") {
        Err(e @ HotkeyError::UnsupportedKey(_)) => assert_eq!(e.message(), "unsupported key: -"),
        other => panic!("unexpected {other:?}"),
    }
    assert!(matches!(parse("alt+"), Err(HotkeyError::UnknownKeyName(s)) if s.is_empty()));
}

#[test]
fn first_bad_part_is_reported() {
    assert!(matches!(parse("foo+-+r"), Err(HotkeyError::UnknownKeyName(s)) if s == "foo"));
}

#[test]
fn named_keys() {
    assert_eq!(named_key("esc").unwrap(), Key::Escape);
    assert_eq!(named_key("return").unwrap(), Key::Return);
    assert_eq!(named_key("page_down").unwrap(), Key::PageDown);
    assert_eq!(named_key("f12").unwrap(), Key::F12);
    assert_eq!(named_key("q").unwrap(), Key::KeyQ);
    assert_eq!(named_key("0").unwrap(), Key::Num0);
    assert!(matches!(named_key("\u{e9}"), Err(HotkeyError::UnknownKeyName(_))));
    assert!(matches!(named_key("f13"), Err(HotkeyError::UnknownKeyName(_))));
    assert_eq!(tts_read::hotkey::parse_part("lctrl").unwrap(), Part::Modifier(Key::ControlLeft));
}

#[test]
fn fires_once_per_press() {
    let hk = parse("alt+r").unwrap();
    let mut st = ListenerState::new();
    assert_eq!(st.handle_event(&hk, KeyEvent::Press(Key::Alt)), None);
    assert_eq!(st.handle_event(&hk, KeyEvent::Press(Key::KeyR)), Some(HotkeyEvent::Triggered));
    // auto-repeat while held
    assert_eq!(st.handle_event(&hk, KeyEvent::Press(Key::KeyR)), None);
    assert_eq!(st.handle_event(&hk, KeyEvent::Other), None);
    assert_eq!(st.handle_event(&hk, KeyEvent::Release(Key::KeyR)), None);
    assert_eq!(st.handle_event(&hk, KeyEvent::Press(Key::KeyR)), Some(HotkeyEvent::Triggered));
    assert_eq!(st.handle_event(&hk, KeyEvent::Release(Key::KeyR)), None);
    assert_eq!(st.handle_event(&hk, KeyEvent::Release(Key::Alt)), None);
    assert_eq!(st.handle_event(&hk, KeyEvent::Press(Key::KeyR)), None);
}

#[test]
fn extra_modifier_blocks_the_hotkey() {
    let hk = parse("alt+r").unwrap();
    let mut st = ListenerState::new();
    st.handle_event(&hk, KeyEvent::Press(Key::ControlLeft));
    st.handle_event(&hk, KeyEvent::Press(Key::Alt));
    assert_eq!(st.handle_event(&hk, KeyEvent::Press(Key::KeyR)), None);
    st.handle_event(&hk, KeyEvent::Release(Key::KeyR));
    st.handle_event(&hk, KeyEvent::Release(Key::ControlLeft));
    assert_eq!(st.handle_event(&hk, KeyEvent::Press(Key::KeyR)), Some(HotkeyEvent::Triggered));
    let mut st = ListenerState::new();
    st.handle_event(&hk, KeyEvent::Press(Key::MetaRight));
    st.handle_event(&hk, KeyEvent::Press(Key::Alt));
    assert_eq!(st.handle_event(&hk, KeyEvent::Press(Key::KeyR)), None);
}

#[test]
fn extra_plain_key_does_not_block() {
    let hk = parse("alt+r").unwrap();
    let mut st = ListenerState::new();
    st.handle_event(&hk, KeyEvent::Press(Key::KeyQ));
    st.handle_event(&hk, KeyEvent::Press(Key::Alt));
    assert_eq!(st.handle_event(&hk, KeyEvent::Press(Key::KeyR)), Some(HotkeyEvent::Triggered));
}
