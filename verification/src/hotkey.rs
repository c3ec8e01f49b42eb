//! The global hotkey: its textual grammar ("alt+r", "ctrl+shift+f5", ...)
//! and the key-tracking state that decides when a press triggers it.
//!
//! No key is ever suppressed: the listener forwards every event to the
//! focused application and only observes it. Press the combination once and
//! it fires once; it does not fire again until its main key is released and
//! pressed again. Modifier tracking is strict: the modifiers held when the
//! main key is pressed must be exactly the hotkey's (for "alt+r", Alt must
//! be the only modifier held).
use crate::text::{chars_of, spells, split_on, split_str, trim, trim_str, views};
use vstd::prelude::*;

verus! {

/// Keys that the hotkey grammar can name, and `Other` for any key it cannot.
#[derive(Debug, Clone, Copy, PartialEq, Eq, Structural)]
pub enum Key {
    ShiftLeft,
    ShiftRight,
    ControlLeft,
    ControlRight,
    Alt,
    AltGr,
    MetaLeft,
    /// A modifier that the grammar cannot name, tracked so that holding it
    /// blocks the hotkey.
    MetaRight,
    Space,
    Tab,
    Return,
    Escape,
    Backspace,
    CapsLock,
    Insert,
    Delete,
    Home,
    End,
    PageUp,
    PageDown,
    F1,
    F2,
    F3,
    F4,
    F5,
    F6,
    F7,
    F8,
    F9,
    F10,
    F11,
    F12,
    KeyA,
    KeyB,
    KeyC,
    KeyD,
    KeyE,
    KeyF,
    KeyG,
    KeyH,
    KeyI,
    KeyJ,
    KeyK,
    KeyL,
    KeyM,
    KeyN,
    KeyO,
    KeyP,
    KeyQ,
    KeyR,
    KeyS,
    KeyT,
    KeyU,
    KeyV,
    KeyW,
    KeyX,
    KeyY,
    KeyZ,
    Num0,
    Num1,
    Num2,
    Num3,
    Num4,
    Num5,
    Num6,
    Num7,
    Num8,
    Num9,
    Other,
}

/// Sent to the worker each time the hotkey fires.
#[derive(Debug, Clone, Copy, PartialEq, Eq, Structural)]
pub enum HotkeyEvent {
    Triggered,
}

/// Why a hotkey description was refused. Each variant carries the text it
/// was refused for.
#[derive(Debug)]
pub enum HotkeyError {
    /// A single character that names no key.
    UnsupportedKey(String),
    /// A longer name that names no key.
    UnknownKeyName(String),
    /// No main (non-modifier) key in the description.
    MissingKey(String),
}

/// The mathematical value of a `HotkeyError`.
pub enum HotkeyErrorView {
    UnsupportedKey(Seq<char>),
    UnknownKeyName(Seq<char>),
    MissingKey(Seq<char>),
}

impl View for HotkeyError {
    type V = HotkeyErrorView;

    open spec fn view(&self) -> HotkeyErrorView {
        match self {
            HotkeyError::UnsupportedKey(s) => HotkeyErrorView::UnsupportedKey(s@),
            HotkeyError::UnknownKeyName(s) => HotkeyErrorView::UnknownKeyName(s@),
            HotkeyError::MissingKey(s) => HotkeyErrorView::MissingKey(s@),
        }
    }
}

/// The text of an error message: its prefix followed by the offending text.
pub open spec fn error_message(e: HotkeyErrorView) -> Seq<char> {
    match e {
        HotkeyErrorView::UnsupportedKey(s) => "unsupported key: "@ + s,
        HotkeyErrorView::UnknownKeyName(s) => "unknown key name: "@ + s,
        HotkeyErrorView::MissingKey(s) => "hotkey must include a non-modifier key: "@ + s,
    }
}

impl HotkeyError {
    /// The human-readable message for this error.
    pub fn message(&self) -> (m: String)
        ensures
            m@ == error_message(self@),
    {
        let (prefix, s) = match self {
            HotkeyError::UnsupportedKey(s) => ("unsupported key: ", s),
            HotkeyError::UnknownKeyName(s) => ("unknown key name: ", s),
            HotkeyError::MissingKey(s) => ("hotkey must include a non-modifier key: ", s),
        };
        let mut m = String::from_str(prefix);
        m.append(s.as_str());
        m
    }
}

/// A result whose error is taken by its view.
pub open spec fn result_view<T>(r: Result<T, HotkeyError>) -> Result<T, HotkeyErrorView> {
    match r {
        Ok(t) => Ok(t),
        Err(e) => Err(e@),
    }
}

/// The key named by a single character, once upper-cased: letters and digits.
pub open spec fn char_key(c: char) -> Option<Key> {
    if c == 'A' { Some(Key::KeyA) }
    else if c == 'B' { Some(Key::KeyB) }
    else if c == 'C' { Some(Key::KeyC) }
    else if c == 'D' { Some(Key::KeyD) }
    else if c == 'E' { Some(Key::KeyE) }
    else if c == 'F' { Some(Key::KeyF) }
    else if c == 'G' { Some(Key::KeyG) }
    else if c == 'H' { Some(Key::KeyH) }
    else if c == 'I' { Some(Key::KeyI) }
    else if c == 'J' { Some(Key::KeyJ) }
    else if c == 'K' { Some(Key::KeyK) }
    else if c == 'L' { Some(Key::KeyL) }
    else if c == 'M' { Some(Key::KeyM) }
    else if c == 'N' { Some(Key::KeyN) }
    else if c == 'O' { Some(Key::KeyO) }
    else if c == 'P' { Some(Key::KeyP) }
    else if c == 'Q' { Some(Key::KeyQ) }
    else if c == 'R' { Some(Key::KeyR) }
    else if c == 'S' { Some(Key::KeyS) }
    else if c == 'T' { Some(Key::KeyT) }
    else if c == 'U' { Some(Key::KeyU) }
    else if c == 'V' { Some(Key::KeyV) }
    else if c == 'W' { Some(Key::KeyW) }
    else if c == 'X' { Some(Key::KeyX) }
    else if c == 'Y' { Some(Key::KeyY) }
    else if c == 'Z' { Some(Key::KeyZ) }
    else if c == '0' { Some(Key::Num0) }
    else if c == '1' { Some(Key::Num1) }
    else if c == '2' { Some(Key::Num2) }
    else if c == '3' { Some(Key::Num3) }
    else if c == '4' { Some(Key::Num4) }
    else if c == '5' { Some(Key::Num5) }
    else if c == '6' { Some(Key::Num6) }
    else if c == '7' { Some(Key::Num7) }
    else if c == '8' { Some(Key::Num8) }
    else if c == '9' { Some(Key::Num9) }
    else { None }
}

/// `c` with ASCII lower-case letters made upper-case, as `char::to_ascii_uppercase`.
pub open spec fn ascii_upper(c: char) -> char {
    if 'a' <= c && c <= 'z' {
        (((c as u32) - 32) as u8) as char
    } else {
        c
    }
}

/// The key named by a (lower-cased) key name, or why it names none. A name
/// of one byte (one ASCII character) names a letter or a digit.
pub open spec fn named_key_spec(name: Seq<char>) -> Result<Key, HotkeyErrorView> {
    if name == "space"@ { Ok(Key::Space) }
    else if name == "tab"@ { Ok(Key::Tab) }
    else if name == "enter"@ || name == "return"@ { Ok(Key::Return) }
    else if name == "escape"@ || name == "esc"@ { Ok(Key::Escape) }
    else if name == "backspace"@ { Ok(Key::Backspace) }
    else if name == "capslock"@ || name == "caps_lock"@ { Ok(Key::CapsLock) }
    else if name == "insert"@ { Ok(Key::Insert) }
    else if name == "delete"@ || name == "del"@ { Ok(Key::Delete) }
    else if name == "home"@ { Ok(Key::Home) }
    else if name == "end"@ { Ok(Key::End) }
    else if name == "pageup"@ || name == "page_up"@ { Ok(Key::PageUp) }
    else if name == "pagedown"@ || name == "page_down"@ { Ok(Key::PageDown) }
    else if name == "f1"@ { Ok(Key::F1) }
    else if name == "f2"@ { Ok(Key::F2) }
    else if name == "f3"@ { Ok(Key::F3) }
    else if name == "f4"@ { Ok(Key::F4) }
    else if name == "f5"@ { Ok(Key::F5) }
    else if name == "f6"@ { Ok(Key::F6) }
    else if name == "f7"@ { Ok(Key::F7) }
    else if name == "f8"@ { Ok(Key::F8) }
    else if name == "f9"@ { Ok(Key::F9) }
    else if name == "f10"@ { Ok(Key::F10) }
    else if name == "f11"@ { Ok(Key::F11) }
    else if name == "f12"@ { Ok(Key::F12) }
    else if name.len() == 1 && (name[0] as u32) < 0x80 {
        match char_key(ascii_upper(name[0])) {
            Some(k) => Ok(k),
            None => Err(HotkeyErrorView::UnsupportedKey(name)),
        }
    } else {
        Err(HotkeyErrorView::UnknownKeyName(name))
    }
}

/// The longer key names that `named_key` accepts.
pub open spec fn key_names() -> Set<Seq<char>> {
    set![
        "space"@,
        "tab"@,
        "enter"@,
        "return"@,
        "escape"@,
        "esc"@,
        "backspace"@,
        "capslock"@,
        "caps_lock"@,
        "insert"@,
        "delete"@,
        "del"@,
        "home"@,
        "end"@,
        "pageup"@,
        "page_up"@,
        "pagedown"@,
        "page_down"@,
        "f1"@,
        "f2"@,
        "f3"@,
        "f4"@,
        "f5"@,
        "f6"@,
        "f7"@,
        "f8"@,
        "f9"@,
        "f10"@,
        "f11"@,
        "f12"@,
    ]
}

/// An ASCII letter or digit.
pub open spec fn ascii_alnum(c: char) -> bool {
    ('a' <= c && c <= 'z') || ('A' <= c && c <= 'Z') || ('0' <= c && c <= '9')
}

/// Exactly which names name a key: the listed names and single ASCII
/// letters and digits. Any other single ASCII character is an unsupported
/// key; any other name is an unknown key name.
pub proof fn lemma_named_key_accepts(name: Seq<char>)
    ensures
        named_key_spec(name) is Ok <==> (key_names().contains(name) || (name.len() == 1
            && ascii_alnum(name[0]))),
        (name.len() == 1 && (name[0] as u32) < 0x80 && !ascii_alnum(name[0])) ==> named_key_spec(
            name,
        ) == Err::<Key, HotkeyErrorView>(HotkeyErrorView::UnsupportedKey(name)),
        (!key_names().contains(name) && !(name.len() == 1 && (name[0] as u32) < 0x80))
            ==> named_key_spec(name) == Err::<Key, HotkeyErrorView>(
            HotkeyErrorView::UnknownKeyName(name),
        ),
{
    reveal_strlit("space");
    reveal_strlit("tab");
    reveal_strlit("enter");
    reveal_strlit("return");
    reveal_strlit("escape");
    reveal_strlit("esc");
    reveal_strlit("backspace");
    reveal_strlit("capslock");
    reveal_strlit("caps_lock");
    reveal_strlit("insert");
    reveal_strlit("delete");
    reveal_strlit("del");
    reveal_strlit("home");
    reveal_strlit("end");
    reveal_strlit("pageup");
    reveal_strlit("page_up");
    reveal_strlit("pagedown");
    reveal_strlit("page_down");
    reveal_strlit("f1");
    reveal_strlit("f2");
    reveal_strlit("f3");
    reveal_strlit("f4");
    reveal_strlit("f5");
    reveal_strlit("f6");
    reveal_strlit("f7");
    reveal_strlit("f8");
    reveal_strlit("f9");
    reveal_strlit("f10");
    reveal_strlit("f11");
    reveal_strlit("f12");
    if name.len() == 1 {
        let c = name[0];
        assert(ascii_alnum(c) ==> (c as u32) < 0x80);
        if (c as u32) < 0x80 {
            assert(char_key(ascii_upper(c)) is Some <==> ascii_alnum(c)) by {
                if 'a' <= c && c <= 'z' {
                    assert(((((c as u32) - 32) as u8) as char) as u32 == (c as u32) - 32);
                }
            }
        }
    }
}

/// The character printed on a letter or digit key, in lower case; none
/// for other keys.
pub open spec fn key_label(k: Key) -> Option<char> {
    match k {
        Key::KeyA => Some('a'),
        Key::KeyB => Some('b'),
        Key::KeyC => Some('c'),
        Key::KeyD => Some('d'),
        Key::KeyE => Some('e'),
        Key::KeyF => Some('f'),
        Key::KeyG => Some('g'),
        Key::KeyH => Some('h'),
        Key::KeyI => Some('i'),
        Key::KeyJ => Some('j'),
        Key::KeyK => Some('k'),
        Key::KeyL => Some('l'),
        Key::KeyM => Some('m'),
        Key::KeyN => Some('n'),
        Key::KeyO => Some('o'),
        Key::KeyP => Some('p'),
        Key::KeyQ => Some('q'),
        Key::KeyR => Some('r'),
        Key::KeyS => Some('s'),
        Key::KeyT => Some('t'),
        Key::KeyU => Some('u'),
        Key::KeyV => Some('v'),
        Key::KeyW => Some('w'),
        Key::KeyX => Some('x'),
        Key::KeyY => Some('y'),
        Key::KeyZ => Some('z'),
        Key::Num0 => Some('0'),
        Key::Num1 => Some('1'),
        Key::Num2 => Some('2'),
        Key::Num3 => Some('3'),
        Key::Num4 => Some('4'),
        Key::Num5 => Some('5'),
        Key::Num6 => Some('6'),
        Key::Num7 => Some('7'),
        Key::Num8 => Some('8'),
        Key::Num9 => Some('9'),
        _ => None,
    }
}

/// A lower-case ASCII letter or a digit.
pub open spec fn lower_alnum(c: char) -> bool {
    ('a' <= c && c <= 'z') || ('0' <= c && c <= '9')
}

/// A one-character name names the key printed with that character: `a` to
/// `z` name the letter keys A to Z, `0` to `9` the digit keys, and an
/// upper-case letter names the same key as its lower-case letter.
pub proof fn lemma_single_char_key(c: char)
    ensures
        lower_alnum(c) ==> (named_key_spec(seq![c]) matches Ok(k) && key_label(k) == Some(c)),
        ('A' <= c && c <= 'Z') ==> (named_key_spec(seq![c]) matches Ok(k) && key_label(k) == Some(
            (((c as u32) + 32) as u8) as char,
        )),
{
    reveal_strlit("space");
    reveal_strlit("tab");
    reveal_strlit("enter");
    reveal_strlit("return");
    reveal_strlit("escape");
    reveal_strlit("esc");
    reveal_strlit("backspace");
    reveal_strlit("capslock");
    reveal_strlit("caps_lock");
    reveal_strlit("insert");
    reveal_strlit("delete");
    reveal_strlit("del");
    reveal_strlit("home");
    reveal_strlit("end");
    reveal_strlit("pageup");
    reveal_strlit("page_up");
    reveal_strlit("pagedown");
    reveal_strlit("page_down");
    reveal_strlit("f1");
    reveal_strlit("f2");
    reveal_strlit("f3");
    reveal_strlit("f4");
    reveal_strlit("f5");
    reveal_strlit("f6");
    reveal_strlit("f7");
    reveal_strlit("f8");
    reveal_strlit("f9");
    reveal_strlit("f10");
    reveal_strlit("f11");
    reveal_strlit("f12");
    if 'a' <= c && c <= 'z' {
        assert(((((c as u32) - 32) as u8) as char) as u32 == (c as u32) - 32);
    }
    if 'A' <= c && c <= 'Z' {
        assert(((((c as u32) + 32) as u8) as char) as u32 == (c as u32) + 32);
    }
}

/// Distinct one-character names among `a`-`z` and `0`-`9` name distinct
/// keys; in particular no letter names a digit key.
pub proof fn lemma_single_char_keys_distinct(c1: char, c2: char)
    requires
        lower_alnum(c1),
        lower_alnum(c2),
        named_key_spec(seq![c1]) == named_key_spec(seq![c2]),
    ensures
        c1 == c2,
{
    lemma_single_char_key(c1);
    lemma_single_char_key(c2);
}

/// One `+`-separated part of a hotkey description.
#[derive(Debug, Clone, Copy, PartialEq, Eq, Structural)]
pub enum Part {
    /// A modifier that must be held.
    Modifier(Key),
    /// The main key.
    Main(Key),
}

/// What a (trimmed, lower-cased) part of a hotkey description stands for.
pub open spec fn part_spec(p: Seq<char>) -> Result<Part, HotkeyErrorView> {
    if p == "shift"@ || p == "lshift"@ || p == "left_shift"@ {
        Ok(Part::Modifier(Key::ShiftLeft))
    } else if p == "rshift"@ || p == "right_shift"@ {
        Ok(Part::Modifier(Key::ShiftRight))
    } else if p == "ctrl"@ || p == "control"@ || p == "lctrl"@ || p == "left_ctrl"@ {
        Ok(Part::Modifier(Key::ControlLeft))
    } else if p == "rctrl"@ || p == "right_ctrl"@ {
        Ok(Part::Modifier(Key::ControlRight))
    } else if p == "alt"@ {
        Ok(Part::Modifier(Key::Alt))
    } else if p == "ralt"@ || p == "right_alt"@ || p == "altgr"@ {
        Ok(Part::Modifier(Key::AltGr))
    } else if p == "cmd"@ || p == "win"@ || p == "super"@ || p == "meta"@ {
        Ok(Part::Modifier(Key::MetaLeft))
    } else {
        match named_key_spec(p) {
            Ok(k) => Ok(Part::Main(k)),
            Err(e) => Err(e),
        }
    }
}

/// The modifiers and main key described by the parts, read left to right:
/// the first part that names nothing is the error, modifiers accumulate, and
/// the last main key wins.
pub open spec fn parts_spec(parts: Seq<Seq<char>>) -> Result<(Set<Key>, Option<Key>), HotkeyErrorView>
    decreases parts.len(),
{
    if parts.len() == 0 {
        Ok((Set::empty(), None))
    } else {
        match parts_spec(parts.drop_last()) {
            Err(e) => Err(e),
            Ok((mods, key)) => match part_spec(parts.last()) {
                Err(e) => Err(e),
                Ok(Part::Modifier(m)) => Ok((mods.insert(m), key)),
                Ok(Part::Main(k)) => Ok((mods, Some(k))),
            },
        }
    }
}

/// A parsed hotkey: the modifiers that must be held and the main key.
#[derive(Debug, Clone)]
pub struct HotkeyDef {
    pub modifiers: Vec<Key>,
    pub key: Key,
}

impl HotkeyDef {
    /// The set of modifiers and the main key.
    pub open spec fn view_pair(&self) -> (Set<Key>, Key) {
        (self.modifiers@.to_set(), self.key)
    }
}

/// The hotkey that `source` describes, given its parts already trimmed and
/// lower-cased; or why it describes none.
pub open spec fn hotkey_spec(source: Seq<char>, parts: Seq<Seq<char>>) -> Result<(Set<Key>, Key), HotkeyErrorView> {
    match parts_spec(parts) {
        Err(e) => Err(e),
        Ok((mods, None)) => Err(HotkeyErrorView::MissingKey(source)),
        Ok((mods, Some(k))) => Ok((mods, k)),
    }
}

/// Names of keys as `str::to_lowercase` gives them back: full Unicode
/// lower-case mapping of the whole string.
pub uninterp spec fn lowercase(s: Seq<char>) -> Seq<char>;

/// `c` with ASCII upper-case letters made lower-case, as `char::to_ascii_lowercase`.
pub open spec fn ascii_lower(c: char) -> char {
    if 'A' <= c && c <= 'Z' {
        (((c as u32) + 32) as u8) as char
    } else {
        c
    }
}

/// Whether every character of `s` is ASCII.
pub open spec fn all_ascii(s: Seq<char>) -> bool {
    forall|i: int| 0 <= i < s.len() ==> (#[trigger] s[i]) < '\u{80}'
}

/// `s` in lower case, by `str::to_lowercase`: the full Unicode mapping,
/// named `lowercase`. On ASCII text it lower-cases the letters `A` to `Z`
/// and keeps every other character, as `str::to_ascii_lowercase` does.
#[verifier::external_body]
fn to_lowercase(s: &str) -> (r: String)
    ensures
        r@ == lowercase(s@),
        all_ascii(s@) ==> r@ == s@.map_values(|c: char| ascii_lower(c)),
{
    s.to_lowercase()
}

/// The parts of a hotkey description as the parser reads them: split on
/// `+`, each trimmed and lower-cased.
pub open spec fn normalized_parts(s: Seq<char>) -> Seq<Seq<char>> {
    split_on(s, '+').map_values(|p: Seq<char>| lowercase(trim(p)))
}

/// ASCII upper-casing of one character.
pub fn to_ascii_upper(c: char) -> (u: char)
    ensures
        u == ascii_upper(c),
{
    if 'a' <= c && c <= 'z' {
        (((c as u32) - 32) as u8) as char
    } else {
        c
    }
}

/// The key for an upper-cased letter or a digit.
pub fn key_for_char(c: char) -> (k: Option<Key>)
    ensures
        k == char_key(c),
{
    match c {
        'A' => Some(Key::KeyA),
        'B' => Some(Key::KeyB),
        'C' => Some(Key::KeyC),
        'D' => Some(Key::KeyD),
        'E' => Some(Key::KeyE),
        'F' => Some(Key::KeyF),
        'G' => Some(Key::KeyG),
        'H' => Some(Key::KeyH),
        'I' => Some(Key::KeyI),
        'J' => Some(Key::KeyJ),
        'K' => Some(Key::KeyK),
        'L' => Some(Key::KeyL),
        'M' => Some(Key::KeyM),
        'N' => Some(Key::KeyN),
        'O' => Some(Key::KeyO),
        'P' => Some(Key::KeyP),
        'Q' => Some(Key::KeyQ),
        'R' => Some(Key::KeyR),
        'S' => Some(Key::KeyS),
        'T' => Some(Key::KeyT),
        'U' => Some(Key::KeyU),
        'V' => Some(Key::KeyV),
        'W' => Some(Key::KeyW),
        'X' => Some(Key::KeyX),
        'Y' => Some(Key::KeyY),
        'Z' => Some(Key::KeyZ),
        '0' => Some(Key::Num0),
        '1' => Some(Key::Num1),
        '2' => Some(Key::Num2),
        '3' => Some(Key::Num3),
        '4' => Some(Key::Num4),
        '5' => Some(Key::Num5),
        '6' => Some(Key::Num6),
        '7' => Some(Key::Num7),
        '8' => Some(Key::Num8),
        '9' => Some(Key::Num9),
        _ => None,
    }
}

/// The key that a lower-cased key name stands for.
pub fn named_key(name: &str) -> (r: Result<Key, HotkeyError>)
    ensures
        result_view(r) == named_key_spec(name@),
{
    let v = chars_of(name);
    if spells(&v, "space") {
        Ok(Key::Space)
    } else if spells(&v, "tab") {
        Ok(Key::Tab)
    } else if spells(&v, "enter") || spells(&v, "return") {
        Ok(Key::Return)
    } else if spells(&v, "escape") || spells(&v, "esc") {
        Ok(Key::Escape)
    } else if spells(&v, "backspace") {
        Ok(Key::Backspace)
    } else if spells(&v, "capslock") || spells(&v, "caps_lock") {
        Ok(Key::CapsLock)
    } else if spells(&v, "insert") {
        Ok(Key::Insert)
    } else if spells(&v, "delete") || spells(&v, "del") {
        Ok(Key::Delete)
    } else if spells(&v, "home") {
        Ok(Key::Home)
    } else if spells(&v, "end") {
        Ok(Key::End)
    } else if spells(&v, "pageup") || spells(&v, "page_up") {
        Ok(Key::PageUp)
    } else if spells(&v, "pagedown") || spells(&v, "page_down") {
        Ok(Key::PageDown)
    } else if spells(&v, "f1") {
        Ok(Key::F1)
    } else if spells(&v, "f2") {
        Ok(Key::F2)
    } else if spells(&v, "f3") {
        Ok(Key::F3)
    } else if spells(&v, "f4") {
        Ok(Key::F4)
    } else if spells(&v, "f5") {
        Ok(Key::F5)
    } else if spells(&v, "f6") {
        Ok(Key::F6)
    } else if spells(&v, "f7") {
        Ok(Key::F7)
    } else if spells(&v, "f8") {
        Ok(Key::F8)
    } else if spells(&v, "f9") {
        Ok(Key::F9)
    } else if spells(&v, "f10") {
        Ok(Key::F10)
    } else if spells(&v, "f11") {
        Ok(Key::F11)
    } else if spells(&v, "f12") {
        Ok(Key::F12)
    } else if v.len() == 1 && (v[0] as u32) < 0x80 {
        match key_for_char(to_ascii_upper(v[0])) {
            Some(k) => Ok(k),
            None => Err(HotkeyError::UnsupportedKey(String::from_str(name))),
        }
    } else {
        Err(HotkeyError::UnknownKeyName(String::from_str(name)))
    }
}

/// What one trimmed, lower-cased part of a hotkey description stands for.
pub fn parse_part(p: &str) -> (r: Result<Part, HotkeyError>)
    ensures
        result_view(r) == part_spec(p@),
{
    let v = chars_of(p);
    if spells(&v, "shift") || spells(&v, "lshift") || spells(&v, "left_shift") {
        Ok(Part::Modifier(Key::ShiftLeft))
    } else if spells(&v, "rshift") || spells(&v, "right_shift") {
        Ok(Part::Modifier(Key::ShiftRight))
    } else if spells(&v, "ctrl") || spells(&v, "control") || spells(&v, "lctrl") || spells(
        &v,
        "left_ctrl",
    ) {
        Ok(Part::Modifier(Key::ControlLeft))
    } else if spells(&v, "rctrl") || spells(&v, "right_ctrl") {
        Ok(Part::Modifier(Key::ControlRight))
    } else if spells(&v, "alt") {
        Ok(Part::Modifier(Key::Alt))
    } else if spells(&v, "ralt") || spells(&v, "right_alt") || spells(&v, "altgr") {
        Ok(Part::Modifier(Key::AltGr))
    } else if spells(&v, "cmd") || spells(&v, "win") || spells(&v, "super") || spells(&v, "meta") {
        Ok(Part::Modifier(Key::MetaLeft))
    } else {
        match named_key(p) {
            Ok(k) => Ok(Part::Main(k)),
            Err(e) => Err(e),
        }
    }
}

/// Whether `k` is among `keys`.
pub fn keys_contain(keys: &Vec<Key>, k: Key) -> (b: bool)
    ensures
        b == keys@.contains(k),
{
    let mut i: usize = 0;
    while i < keys.len()
        invariant
            i <= keys.len(),
            forall|j: int| 0 <= j < i ==> keys@[j] != k,
        decreases keys.len() - i,
    {
        if keys[i] == k {
            return true;
        }
        i = i + 1;
    }
    false
}

/// Adds `k` to the key set `keys` unless it is already there.
pub fn keys_insert(keys: &mut Vec<Key>, k: Key)
    requires
        old(keys)@.no_duplicates(),
    ensures
        final(keys)@.no_duplicates(),
        final(keys)@.to_set() == old(keys)@.to_set().insert(k),
{
    let ghost before = keys@;
    if !keys_contain(keys, k) {
        keys.push(k);
        assert forall|x: Key| keys@.contains(x) <==> (before.contains(x) || x == k) by {
            if before.contains(x) {
                let j = choose|j: int| 0 <= j < before.len() && before[j] == x;
                assert(keys@[j] == x);
            }
            if x == k {
                assert(keys@[before.len() as int] == k);
            }
            if keys@.contains(x) {
                let j = choose|j: int| 0 <= j < keys@.len() && keys@[j] == x;
                if j < before.len() {
                    assert(before[j] == x);
                }
            }
        }
    }
    assert(keys@.to_set() =~= old(keys)@.to_set().insert(k));
}

/// Removes `k` from the key set `keys`.
pub fn keys_remove(keys: &mut Vec<Key>, k: Key)
    requires
        old(keys)@.no_duplicates(),
    ensures
        final(keys)@.no_duplicates(),
        final(keys)@.to_set() == old(keys)@.to_set().remove(k),
{
    let mut kept: Vec<Key> = Vec::new();
    let mut i: usize = 0;
    while i < keys.len()
        invariant
            i <= keys.len(),
            keys@.no_duplicates(),
            kept@.no_duplicates(),
            forall|x: Key|
                #[trigger] kept@.contains(x) ==> x != k && exists|j: int|
                    0 <= j < i && keys@[j] == x,
            forall|j: int| 0 <= j < i && keys@[j] != k ==> kept@.contains(#[trigger] keys@[j]),
        decreases keys.len() - i,
    {
        let x = keys[i];
        if x != k {
            proof {
                if kept@.contains(x) {
                    let j = choose|j: int| 0 <= j < i && keys@[j] == x;
                    assert(keys@[j] == keys@[i as int]);
                }
            }
            let ghost before = kept@;
            kept.push(x);
            assert forall|y: Key| #[trigger] kept@.contains(y) implies y != k && exists|j: int|
                0 <= j < i + 1 && keys@[j] == y by {
                if y != x {
                    assert(before.contains(y));
                } else {
                    assert(keys@[i as int] == y);
                }
            }
            assert forall|j: int| 0 <= j < i + 1 && keys@[j] != k implies kept@.contains(
                #[trigger] keys@[j],
            ) by {
                if j < i {
                    assert(before.contains(keys@[j]));
                    let idx = choose|idx: int| 0 <= idx < before.len() && before[idx] == keys@[j];
                    assert(kept@[idx] == keys@[j]);
                } else {
                    assert(kept@[kept@.len() - 1] == keys@[j]);
                    assert(kept@.contains(keys@[j]));
                }
            }
        }
        i = i + 1;
    }
    assert forall|x: Key| kept@.contains(x) <==> (old(keys)@.contains(x) && x != k) by {
        if old(keys)@.contains(x) && x != k {
            let j = choose|j: int| 0 <= j < keys@.len() && keys@[j] == x;
            assert(kept@.contains(keys@[j]));
        }
    }
    *keys = kept;
    assert(keys@.to_set() =~= old(keys)@.to_set().remove(k));
}

/// The hotkey that a description's trimmed, lower-cased parts describe;
/// `source` is the description itself, named in the error when there is no
/// main key.
pub fn parse_parts(source: &str, parts: &Vec<String>) -> (r: Result<HotkeyDef, HotkeyError>)
    ensures
        match r {
            Ok(d) => hotkey_spec(source@, views(parts@)) == Ok::<
                (Set<Key>, Key),
                HotkeyErrorView,
            >(d.view_pair()) && d.modifiers@.no_duplicates(),
            Err(e) => hotkey_spec(source@, views(parts@)) == Err::<
                (Set<Key>, Key),
                HotkeyErrorView,
            >(e@),
        },
{
    let ghost pv = views(parts@);
    let mut modifiers: Vec<Key> = Vec::new();
    let mut key: Option<Key> = None;
    let mut i: usize = 0;
    assert(pv.take(0) =~= Seq::<Seq<char>>::empty());
    assert(modifiers@.to_set() =~= Set::<Key>::empty());
    while i < parts.len()
        invariant
            i <= parts.len(),
            pv == views(parts@),
            modifiers@.no_duplicates(),
            parts_spec(pv.take(i as int)) == Ok::<(Set<Key>, Option<Key>), HotkeyErrorView>(
                (modifiers@.to_set(), key),
            ),
        decreases parts.len() - i,
    {
        assert(pv.take(i + 1).drop_last() =~= pv.take(i as int));
        assert(pv.take(i + 1).last() == parts@[i as int]@);
        match parse_part(parts[i].as_str()) {
            Ok(Part::Modifier(m)) => {
                keys_insert(&mut modifiers, m);
            },
            Ok(Part::Main(k)) => {
                key = Some(k);
            },
            Err(e) => {
                proof {
                    lemma_parts_error_sticks(pv, i as int + 1, e@);
                }
                assert(pv.take(pv.len() as int) =~= pv);
                return Err(e);
            },
        }
        i = i + 1;
    }
    assert(pv.take(parts.len() as int) =~= pv);
    match key {
        Some(k) => Ok(HotkeyDef { modifiers, key: k }),
        None => Err(HotkeyError::MissingKey(String::from_str(source))),
    }
}

/// Once a prefix of the parts is refused, so is every longer prefix, for the
/// same reason.
proof fn lemma_parts_error_sticks(parts: Seq<Seq<char>>, i: int, e: HotkeyErrorView)
    requires
        0 <= i <= parts.len(),
        parts_spec(parts.take(i)) == Err::<(Set<Key>, Option<Key>), HotkeyErrorView>(e),
    ensures
        parts_spec(parts.take(parts.len() as int)) == Err::<(Set<Key>, Option<Key>), HotkeyErrorView>(e),
    decreases parts.len() - i,
{
    if i < parts.len() {
        assert(parts.take(i + 1).drop_last() =~= parts.take(i));
        lemma_parts_error_sticks(parts, i + 1, e);
    }
}

/// Parses a hotkey description such as "alt+r": `+`-separated parts, each
/// trimmed and lower-cased, naming modifiers and one main key (the last one
/// named wins).
pub fn parse(s: &str) -> (r: Result<HotkeyDef, HotkeyError>)
    ensures
        match r {
            Ok(d) => hotkey_spec(s@, normalized_parts(s@)) == Ok::<
                (Set<Key>, Key),
                HotkeyErrorView,
            >(d.view_pair()) && d.modifiers@.no_duplicates(),
            Err(e) => hotkey_spec(s@, normalized_parts(s@)) == Err::<
                (Set<Key>, Key),
                HotkeyErrorView,
            >(e@),
        },
        forall|j: int|
            0 <= j < split_on(s@, '+').len() && all_ascii(trim(split_on(s@, '+')[j]))
                ==> #[trigger] normalized_parts(s@)[j] == trim(split_on(s@, '+')[j]).map_values(
                |c: char| ascii_lower(c),
            ),
{
    let raw = split_str(s, '+');
    let mut parts: Vec<String> = Vec::new();
    let mut i: usize = 0;
    while i < raw.len()
        invariant
            i <= raw.len(),
            views(raw@) == split_on(s@, '+'),
            parts@.len() == i,
            forall|j: int|
                0 <= j < i ==> (#[trigger] parts@[j])@ == lowercase(trim(raw@[j]@)),
            forall|j: int|
                0 <= j < i && all_ascii(trim(raw@[j]@)) ==> (#[trigger] parts@[j])@
                    == trim(raw@[j]@).map_values(|c: char| ascii_lower(c)),
        decreases raw.len() - i,
    {
        let t = trim_str(raw[i].as_str());
        parts.push(to_lowercase(t.as_str()));
        i = i + 1;
    }
    assert(views(parts@) =~= normalized_parts(s@)) by {
        assert forall|j: int| 0 <= j < parts@.len() implies views(parts@)[j]
            == normalized_parts(s@)[j] by {
            assert(views(raw@)[j] == raw@[j]@);
        }
    }
    assert forall|j: int|
        0 <= j < split_on(s@, '+').len() && all_ascii(trim(split_on(s@, '+')[j])) implies
        #[trigger] normalized_parts(s@)[j] == trim(split_on(s@, '+')[j]).map_values(
            |c: char| ascii_lower(c),
        ) by {
        assert(views(raw@)[j] == raw@[j]@);
        assert(views(parts@)[j] == parts@[j]@);
    }
    parse_parts(s, &parts)
}

/// The modifier keys: those the grammar names, and the right Meta key.
pub open spec fn is_modifier_key(k: Key) -> bool {
    ||| k == Key::ShiftLeft
    ||| k == Key::ShiftRight
    ||| k == Key::ControlLeft
    ||| k == Key::ControlRight
    ||| k == Key::Alt
    ||| k == Key::AltGr
    ||| k == Key::MetaLeft
    ||| k == Key::MetaRight
}

/// Whether `k` is a modifier key.
pub fn is_modifier(k: Key) -> (b: bool)
    ensures
        b == is_modifier_key(k),
{
    match k {
        Key::ShiftLeft | Key::ShiftRight | Key::ControlLeft | Key::ControlRight | Key::Alt
        | Key::AltGr | Key::MetaLeft | Key::MetaRight => true,
        _ => false,
    }
}

/// Whether the hotkey's combination is held: its main key, every one of its
/// modifiers, and no other modifier.
pub open spec fn combo_spec(hk: (Set<Key>, Key), held: Set<Key>) -> bool {
    &&& held.contains(hk.1)
    &&& hk.0.subset_of(held)
    &&& forall|m: Key| held.contains(m) && is_modifier_key(m) ==> hk.0.contains(m)
}

/// Whether the main key and every modifier of `hk` are among `held`, and no
/// other modifier is.
pub fn combo_satisfied(hk: &HotkeyDef, held: &Vec<Key>) -> (b: bool)
    ensures
        b == combo_spec(hk.view_pair(), held@.to_set()),
{
    if !keys_contain(held, hk.key) {
        return false;
    }
    let mut i: usize = 0;
    while i < hk.modifiers.len()
        invariant
            i <= hk.modifiers.len(),
            forall|j: int| 0 <= j < i ==> held@.contains(#[trigger] hk.modifiers@[j]),
        decreases hk.modifiers.len() - i,
    {
        if !keys_contain(held, hk.modifiers[i]) {
            assert(hk.modifiers@.to_set().contains(hk.modifiers@[i as int]));
            assert(!held@.to_set().contains(hk.modifiers@[i as int]));
            return false;
        }
        i = i + 1;
    }
    assert(hk.modifiers@.to_set().subset_of(held@.to_set()));
    let mut j: usize = 0;
    while j < held.len()
        invariant
            j <= held.len(),
            forall|k: int|
                0 <= k < j && is_modifier_key(#[trigger] held@[k]) ==> hk.modifiers@.contains(
                    held@[k],
                ),
        decreases held.len() - j,
    {
        if is_modifier(held[j]) && !keys_contain(&hk.modifiers, held[j]) {
            assert(held@.to_set().contains(held@[j as int]));
            return false;
        }
        j = j + 1;
    }
    assert forall|m: Key| held@.to_set().contains(m) && is_modifier_key(m) implies hk.modifiers@.to_set().contains(m) by {
        let k = choose|k: int| 0 <= k < held@.len() && held@[k] == m;
        assert(is_modifier_key(held@[k]));
    }
    true
}

/// A keyboard event, as the listener sees it.
#[derive(Debug, Clone, Copy, PartialEq, Eq, Structural)]
pub enum KeyEvent {
    Press(Key),
    Release(Key),
    /// Anything that is not a key press or release (mouse, wheel, ...).
    Other,
}

/// What the listener remembers between events: the keys held, and whether
/// the main key is still down since it last fired.
#[derive(Debug)]
pub struct ListenerState {
    held: Vec<Key>,
    key_down: bool,
}

impl View for ListenerState {
    type V = (Set<Key>, bool);

    closed spec fn view(&self) -> (Set<Key>, bool) {
        (self.held@.to_set(), self.key_down)
    }
}

/// One listener step: the state after `ev`, and whether the hotkey fires.
pub open spec fn listener_step(st: (Set<Key>, bool), hk: (Set<Key>, Key), ev: KeyEvent) -> ((Set<Key>, bool), bool) {
    match ev {
        KeyEvent::Press(k) => {
            let held = st.0.insert(k);
            if k == hk.1 && !st.1 && combo_spec(hk, held) {
                ((held, true), true)
            } else {
                ((held, st.1), false)
            }
        },
        KeyEvent::Release(k) => {
            let held = st.0.remove(k);
            if k == hk.1 {
                ((held, false), false)
            } else {
                ((held, st.1), false)
            }
        },
        KeyEvent::Other => (st, false),
    }
}

/// The state after a run of events, and how many times the hotkey fired.
pub open spec fn listener_run(st: (Set<Key>, bool), hk: (Set<Key>, Key), evs: Seq<KeyEvent>) -> ((Set<Key>, bool), nat)
    decreases evs.len(),
{
    if evs.len() == 0 {
        (st, 0)
    } else {
        let prev = listener_run(st, hk, evs.drop_last());
        let next = listener_step(prev.0, hk, evs.last());
        (next.0, prev.1 + if next.1 { 1nat } else { 0nat })
    }
}

impl ListenerState {
    /// The listener's own invariant: each held key is recorded once.
    pub closed spec fn wf(&self) -> bool {
        self.held@.no_duplicates()
    }

    /// The state of a listener that has seen nothing yet.
    pub fn new() -> (s: Self)
        ensures
            s@ == (Set::<Key>::empty(), false),
            s.wf(),
    {
        let s = ListenerState { held: Vec::new(), key_down: false };
        assert(s.held@.to_set() =~= Set::<Key>::empty());
        s
    }

    /// Records one keyboard event; returns `Triggered` when the hotkey fires.
    pub fn handle_event(&mut self, hotkey: &HotkeyDef, ev: KeyEvent) -> (r: Option<HotkeyEvent>)
        requires
            old(self).wf(),
        ensures
            final(self).wf(),
            (final(self)@, r is Some) == listener_step(old(self)@, hotkey.view_pair(), ev),
    {
        match ev {
            KeyEvent::Press(k) => {
                keys_insert(&mut self.held, k);
                if k == hotkey.key && !self.key_down && combo_satisfied(hotkey, &self.held) {
                    self.key_down = true;
                    Some(HotkeyEvent::Triggered)
                } else {
                    None
                }
            },
            KeyEvent::Release(k) => {
                keys_remove(&mut self.held, k);
                if k == hotkey.key {
                    self.key_down = false;
                }
                None
            },
            KeyEvent::Other => None,
        }
    }
}

/// Holding the hotkey's main key does not repeat it: over any run of events
/// that never releases the main key, the hotkey fires at most once, and not
/// at all if the main key was already down since it last fired.
pub proof fn lemma_fires_once_per_press(st: (Set<Key>, bool), hk: (Set<Key>, Key), evs: Seq<KeyEvent>)
    requires
        forall|i: int| 0 <= i < evs.len() ==> evs[i] != KeyEvent::Release(hk.1),
    ensures
        listener_run(st, hk, evs).1 <= (if st.1 { 0nat } else { 1nat }),
        listener_run(st, hk, evs).1 == 1 ==> listener_run(st, hk, evs).0.1,
        st.1 ==> listener_run(st, hk, evs).0.1,
    decreases evs.len(),
{
    if evs.len() > 0 {
        lemma_fires_once_per_press(st, hk, evs.drop_last());
        assert(evs.last() == evs[evs.len() - 1]);
    }
}

/// A press of the main key while every modifier of the hotkey, and no other
/// modifier, is held fires the hotkey, unless the main key is still down
/// since it last fired; releasing the main key re-arms it.
pub proof fn lemma_press_fires(st: (Set<Key>, bool), hk: (Set<Key>, Key))
    requires
        hk.0.subset_of(st.0),
        forall|m: Key| st.0.contains(m) && is_modifier_key(m) ==> hk.0.contains(m),
        !is_modifier_key(hk.1),
    ensures
        listener_step(st, hk, KeyEvent::Press(hk.1)).1 == !st.1,
        !listener_step(st, hk, KeyEvent::Release(hk.1)).0.1,
{
}

/// When the hotkey fires, and only then: on a press of its main key, when
/// it has not fired since that key was last released, with every modifier
/// of the hotkey held and no other modifier held. In particular a press of
/// the main key while some modifier of the hotkey is not held does not
/// fire (Ctrl+R does not fire Ctrl+Shift+R).
pub proof fn lemma_fires_only_on_combo(st: (Set<Key>, bool), hk: (Set<Key>, Key), ev: KeyEvent)
    ensures
        listener_step(st, hk, ev).1 ==> {
            &&& ev == KeyEvent::Press(hk.1)
            &&& !st.1
            &&& forall|m: Key| #[trigger] hk.0.contains(m) ==> st.0.insert(hk.1).contains(m)
            &&& forall|m: Key|
                #[trigger] st.0.insert(hk.1).contains(m) && is_modifier_key(m) ==> hk.0.contains(m)
        },
        !hk.0.subset_of(st.0.insert(hk.1)) ==> !listener_step(st, hk, KeyEvent::Press(hk.1)).1,
{
}

/// Modifier tracking is strict: while a modifier that is not one of the
/// hotkey's is held, pressing the main key does not fire it.
pub proof fn lemma_extra_modifier_blocks(st: (Set<Key>, bool), hk: (Set<Key>, Key), m: Key)
    requires
        is_modifier_key(m),
        !hk.0.contains(m),
        st.0.contains(m),
    ensures
        !listener_step(st, hk, KeyEvent::Press(hk.1)).1,
{
    assert(st.0.insert(hk.1).contains(m));
}

proof fn lemma_part_kind(p: Seq<char>)
    ensures
        part_spec(p) matches Ok(Part::Modifier(m)) ==> is_modifier_key(m),
        part_spec(p) matches Ok(Part::Main(k)) ==> !is_modifier_key(k),
{
}

proof fn lemma_parts_kinds(parts: Seq<Seq<char>>)
    ensures
        parts_spec(parts) matches Ok((mods, key)) ==> (forall|m: Key|
            mods.contains(m) ==> is_modifier_key(m)) && (key matches Some(k) ==> !is_modifier_key(k)),
    decreases parts.len(),
{
    if parts.len() > 0 {
        lemma_parts_kinds(parts.drop_last());
        lemma_part_kind(parts.last());
    }
}

/// The main key of a hotkey is never one of its modifiers.
pub proof fn lemma_key_not_modifier(source: Seq<char>, parts: Seq<Seq<char>>)
    ensures
        hotkey_spec(source, parts) matches Ok((mods, k)) ==> !mods.contains(k),
{
    lemma_parts_kinds(parts);
}

/// Key presses of `keys`, in order.
pub open spec fn presses(keys: Seq<Key>) -> Seq<KeyEvent> {
    keys.map_values(|k: Key| KeyEvent::Press(k))
}

proof fn lemma_modifier_presses(hk: (Set<Key>, Key), mods: Seq<Key>)
    requires
        !mods.contains(hk.1),
    ensures
        listener_run((Set::empty(), false), hk, presses(mods)) == ((mods.to_set(), false), 0nat),
    decreases mods.len(),
{
    if mods.len() == 0 {
        assert(mods.to_set() =~= Set::<Key>::empty());
    } else {
        let init = mods.drop_last();
        assert(!init.contains(hk.1)) by {
            if init.contains(hk.1) {
                let j = choose|j: int| 0 <= j < init.len() && init[j] == hk.1;
                assert(mods[j] == hk.1);
            }
        }
        lemma_modifier_presses(hk, init);
        assert(presses(mods).drop_last() =~= presses(init));
        assert(presses(mods).last() == KeyEvent::Press(mods.last()));
        assert(mods.last() != hk.1) by {
            assert(mods[mods.len() - 1] == mods.last());
        }
        assert forall|x: Key| mods.contains(x) <==> (init.contains(x) || x == mods.last()) by {
            if mods.contains(x) {
                let j = choose|j: int| 0 <= j < mods.len() && mods[j] == x;
                if j < mods.len() - 1 {
                    assert(init[j] == x);
                }
            }
            if init.contains(x) {
                let j = choose|j: int| 0 <= j < init.len() && init[j] == x;
                assert(mods[j] == x);
            }
            if x == mods.last() {
                assert(mods[mods.len() - 1] == x);
            }
        }
        assert(mods.to_set() =~= init.to_set().insert(mods.last()));
    }
}

/// Pressing a hotkey works: from a listener that has seen nothing, pressing
/// every one of its modifiers and no other modifier (in any order, repeats
/// and other keys allowed) and then its main key fires it exactly once.
pub proof fn lemma_pressing_combo_fires(hk: (Set<Key>, Key), mods: Seq<Key>)
    requires
        !mods.contains(hk.1),
        !is_modifier_key(hk.1),
        hk.0.subset_of(mods.to_set()),
        forall|i: int| 0 <= i < mods.len() && is_modifier_key(#[trigger] mods[i]) ==> hk.0.contains(mods[i]),
    ensures
        listener_run((Set::empty(), false), hk, presses(mods).push(KeyEvent::Press(hk.1))).1 == 1,
{
    lemma_modifier_presses(hk, mods);
    let evs = presses(mods).push(KeyEvent::Press(hk.1));
    assert(evs.drop_last() =~= presses(mods));
    let held = mods.to_set().insert(hk.1);
    assert forall|m: Key| held.contains(m) && is_modifier_key(m) implies hk.0.contains(m) by {
        if m != hk.1 {
            let i = choose|i: int| 0 <= i < mods.len() && mods[i] == m;
            assert(is_modifier_key(mods[i]));
        }
    }
}

/// Whether every part names something.
pub open spec fn parts_all_ok(p: Seq<Seq<char>>) -> bool {
    forall|i: int| 0 <= i < p.len() ==> (#[trigger] part_spec(p[i])) is Ok
}

/// The modifiers that the parts name.
pub open spec fn parts_modifiers(p: Seq<Seq<char>>) -> Set<Key> {
    Set::new(|m: Key| exists|i: int| 0 <= i < p.len() && part_spec(p[i]) == Ok::<Part, HotkeyErrorView>(Part::Modifier(m)))
}

/// Whether some part names a main key.
pub open spec fn parts_have_main(p: Seq<Seq<char>>) -> bool {
    exists|i: int| 0 <= i < p.len() && (#[trigger] part_spec(p[i])) matches Ok(Part::Main(_))
}

proof fn lemma_parts_meaning(p: Seq<Seq<char>>)
    ensures
        parts_spec(p) is Ok <==> parts_all_ok(p),
        parts_spec(p) matches Ok((mods, key)) ==> mods == parts_modifiers(p) && (key is None
            <==> !parts_have_main(p)) && (key matches Some(k) ==> exists|i: int|
            0 <= i < p.len() && part_spec(p[i]) == Ok::<Part, HotkeyErrorView>(Part::Main(k))),
    decreases p.len(),
{
    if p.len() == 0 {
        assert(parts_modifiers(p) =~= Set::<Key>::empty());
    } else {
        let q = p.drop_last();
        lemma_parts_meaning(q);
        let n = p.len() - 1;
        assert(p.last() == p[n]);
        assert forall|i: int| 0 <= i < q.len() implies q[i] == p[i] by {}
        if parts_all_ok(p) {
            assert forall|i: int| 0 <= i < q.len() implies (#[trigger] part_spec(q[i])) is Ok by {
                assert(q[i] == p[i]);
            }
        }
        if parts_all_ok(q) && part_spec(p[n]) is Ok {
            assert forall|i: int| 0 <= i < p.len() implies (#[trigger] part_spec(p[i])) is Ok by {
                if i < n {
                    assert(q[i] == p[i]);
                }
            }
        }
        if !parts_all_ok(q) {
            let i = choose|i: int| 0 <= i < q.len() && !(part_spec(q[i]) is Ok);
            assert(p[i] == q[i]);
        }
        if let Ok((mods, key)) = parts_spec(p) {
            let (qm, qk) = parts_spec(q)->Ok_0;
            match part_spec(p[n]) {
                Ok(Part::Modifier(m)) => {
                    assert forall|x: Key| mods.contains(x) <==> parts_modifiers(p).contains(x) by {
                        if parts_modifiers(q).contains(x) {
                            let i = choose|i: int| 0 <= i < q.len() && part_spec(q[i]) == Ok::<Part, HotkeyErrorView>(Part::Modifier(x));
                            assert(p[i] == q[i]);
                        }
                        if parts_modifiers(p).contains(x) {
                            let i = choose|i: int| 0 <= i < p.len() && part_spec(p[i]) == Ok::<Part, HotkeyErrorView>(Part::Modifier(x));
                            if i < n {
                                assert(q[i] == p[i]);
                            }
                        }
                    }
                    assert(mods =~= parts_modifiers(p));
                    if parts_have_main(p) {
                        let i = choose|i: int| 0 <= i < p.len() && (#[trigger] part_spec(p[i])) matches Ok(Part::Main(_));
                        assert(i < n);
                        assert(q[i] == p[i]);
                    }
                    if parts_have_main(q) {
                        let i = choose|i: int| 0 <= i < q.len() && (#[trigger] part_spec(q[i])) matches Ok(Part::Main(_));
                        assert(p[i] == q[i]);
                    }
                    if let Some(k) = key {
                        let i = choose|i: int| 0 <= i < q.len() && part_spec(q[i]) == Ok::<Part, HotkeyErrorView>(Part::Main(k));
                        assert(p[i] == q[i]);
                    }
                },
                Ok(Part::Main(k)) => {
                    assert forall|x: Key| mods.contains(x) <==> parts_modifiers(p).contains(x) by {
                        if parts_modifiers(q).contains(x) {
                            let i = choose|i: int| 0 <= i < q.len() && part_spec(q[i]) == Ok::<Part, HotkeyErrorView>(Part::Modifier(x));
                            assert(p[i] == q[i]);
                        }
                        if parts_modifiers(p).contains(x) {
                            let i = choose|i: int| 0 <= i < p.len() && part_spec(p[i]) == Ok::<Part, HotkeyErrorView>(Part::Modifier(x));
                            if i < n {
                                assert(q[i] == p[i]);
                            }
                        }
                    }
                    assert(mods =~= parts_modifiers(p));
                    assert(parts_have_main(p));
                },
                Err(_) => {},
            }
        }
    }
}

/// The order of the parts does not matter, nor does repeating one: two
/// descriptions whose trimmed, lower-cased parts are the same set, and whose
/// parts name at most one main key, describe the same hotkey (or are both
/// refused).
pub proof fn lemma_parts_order_free(s1: Seq<char>, s2: Seq<char>)
    requires
        normalized_parts(s1).to_set() == normalized_parts(s2).to_set(),
        forall|a: Seq<char>, b: Seq<char>|
            #![trigger normalized_parts(s1).contains(a), normalized_parts(s1).contains(b)]
            normalized_parts(s1).contains(a) && normalized_parts(s1).contains(b) && (part_spec(a) matches Ok(Part::Main(_)))
                && (part_spec(b) matches Ok(Part::Main(_))) ==> part_spec(a) == part_spec(b),
    ensures
        hotkey_spec(s1, normalized_parts(s1)) is Ok <==> hotkey_spec(s2, normalized_parts(s2)) is Ok,
        hotkey_spec(s1, normalized_parts(s1)) is Ok ==> hotkey_spec(s1, normalized_parts(s1))
            == hotkey_spec(s2, normalized_parts(s2)),
{
    let p = normalized_parts(s1);
    let q = normalized_parts(s2);
    lemma_parts_meaning(p);
    lemma_parts_meaning(q);
    assert forall|x: Seq<char>| p.contains(x) <==> q.contains(x) by {
        assert(p.to_set().contains(x) == q.to_set().contains(x));
    }
    assert(parts_all_ok(p) <==> parts_all_ok(q)) by {
        if parts_all_ok(p) {
            assert forall|i: int| 0 <= i < q.len() implies (#[trigger] part_spec(q[i])) is Ok by {
                assert(q.contains(q[i]));
                let j = choose|j: int| 0 <= j < p.len() && p[j] == q[i];
            }
        }
        if parts_all_ok(q) {
            assert forall|i: int| 0 <= i < p.len() implies (#[trigger] part_spec(p[i])) is Ok by {
                assert(p.contains(p[i]));
                let j = choose|j: int| 0 <= j < q.len() && q[j] == p[i];
            }
        }
    }
    assert(parts_modifiers(p) =~= parts_modifiers(q)) by {
        assert forall|m: Key| parts_modifiers(p).contains(m) <==> parts_modifiers(q).contains(m) by {
            if parts_modifiers(p).contains(m) {
                let i = choose|i: int| 0 <= i < p.len() && part_spec(p[i]) == Ok::<Part, HotkeyErrorView>(Part::Modifier(m));
                assert(p.contains(p[i]));
                let j = choose|j: int| 0 <= j < q.len() && q[j] == p[i];
            }
            if parts_modifiers(q).contains(m) {
                let i = choose|i: int| 0 <= i < q.len() && part_spec(q[i]) == Ok::<Part, HotkeyErrorView>(Part::Modifier(m));
                assert(q.contains(q[i]));
                let j = choose|j: int| 0 <= j < p.len() && p[j] == q[i];
            }
        }
    }
    assert(parts_have_main(p) <==> parts_have_main(q)) by {
        if parts_have_main(p) {
            let i = choose|i: int| 0 <= i < p.len() && (#[trigger] part_spec(p[i])) matches Ok(Part::Main(_));
            assert(p.contains(p[i]));
            let j = choose|j: int| 0 <= j < q.len() && q[j] == p[i];
        }
        if parts_have_main(q) {
            let i = choose|i: int| 0 <= i < q.len() && (#[trigger] part_spec(q[i])) matches Ok(Part::Main(_));
            assert(q.contains(q[i]));
            let j = choose|j: int| 0 <= j < p.len() && p[j] == q[i];
        }
    }
    if let (Ok((pm, Some(kp))), Ok((qm, Some(kq)))) = (parts_spec(p), parts_spec(q)) {
        let i = choose|i: int| 0 <= i < p.len() && part_spec(p[i]) == Ok::<Part, HotkeyErrorView>(Part::Main(kp));
        let j = choose|j: int| 0 <= j < q.len() && part_spec(q[j]) == Ok::<Part, HotkeyErrorView>(Part::Main(kq));
        assert(q.contains(q[j]));
        assert(p.contains(q[j]));
        assert(p.contains(p[i]));
    }
}

} // verus!
