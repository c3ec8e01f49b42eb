//! The tray menu: its voice and speed choices, which of them are checked,
//! and the control events that clicks on them send to the worker.
use crate::text::{chars_eq, chars_of, views};
use vstd::prelude::*;

verus! {

/// Sent from the tray to the worker. Speeds are in thousandths of normal
/// speed.
#[derive(Debug)]
pub enum ControlEvent {
    SetVoice(String),
    SetSpeed(i32),
    Quit,
}

/// The speeds offered in the menu, in thousandths: 0.5x to 2.0x in steps
/// of 0.1x.
pub open spec fn speed_values() -> Seq<i32> {
    seq![500, 600, 700, 800, 900, 1000, 1100, 1200, 1300, 1400, 1500, 1600, 1700, 1800, 1900, 2000]
}

/// The labels of the speeds offered in the menu.
pub open spec fn speed_labels() -> Seq<Seq<char>> {
    seq![
        "0.5\u{d7} (half)"@,
        "0.6\u{d7}"@,
        "0.7\u{d7}"@,
        "0.8\u{d7}"@,
        "0.9\u{d7}"@,
        "1.0\u{d7} (normal)"@,
        "1.1\u{d7}"@,
        "1.2\u{d7}"@,
        "1.3\u{d7}"@,
        "1.4\u{d7}"@,
        "1.5\u{d7}"@,
        "1.6\u{d7}"@,
        "1.7\u{d7}"@,
        "1.8\u{d7}"@,
        "1.9\u{d7}"@,
        "2.0\u{d7} (double)"@,
    ]
}

/// One entry of the speed submenu.
#[derive(Debug)]
pub struct SpeedOption {
    pub value: i32,
    pub label: String,
}

/// The speed submenu's entries, in order.
pub fn speed_options() -> (opts: Vec<SpeedOption>)
    ensures
        opts@.len() == 16,
        forall|i: int|
            0 <= i < 16 ==> (#[trigger] opts@[i]).value == speed_values()[i] && opts@[i].label@
                == speed_labels()[i],
{
    let mut opts: Vec<SpeedOption> = Vec::new();
    opts.push(SpeedOption { value: 500, label: String::from_str("0.5\u{d7} (half)") });
    opts.push(SpeedOption { value: 600, label: String::from_str("0.6\u{d7}") });
    opts.push(SpeedOption { value: 700, label: String::from_str("0.7\u{d7}") });
    opts.push(SpeedOption { value: 800, label: String::from_str("0.8\u{d7}") });
    opts.push(SpeedOption { value: 900, label: String::from_str("0.9\u{d7}") });
    opts.push(SpeedOption { value: 1000, label: String::from_str("1.0\u{d7} (normal)") });
    opts.push(SpeedOption { value: 1100, label: String::from_str("1.1\u{d7}") });
    opts.push(SpeedOption { value: 1200, label: String::from_str("1.2\u{d7}") });
    opts.push(SpeedOption { value: 1300, label: String::from_str("1.3\u{d7}") });
    opts.push(SpeedOption { value: 1400, label: String::from_str("1.4\u{d7}") });
    opts.push(SpeedOption { value: 1500, label: String::from_str("1.5\u{d7}") });
    opts.push(SpeedOption { value: 1600, label: String::from_str("1.6\u{d7}") });
    opts.push(SpeedOption { value: 1700, label: String::from_str("1.7\u{d7}") });
    opts.push(SpeedOption { value: 1800, label: String::from_str("1.8\u{d7}") });
    opts.push(SpeedOption { value: 1900, label: String::from_str("1.9\u{d7}") });
    opts.push(SpeedOption { value: 2000, label: String::from_str("2.0\u{d7} (double)") });
    opts
}

/// Whether a voice entry starts checked: it is the current voice, or no
/// voice is chosen and it is the first entry.
pub open spec fn voice_initially_checked(name: Seq<char>, current: Seq<char>, i: int) -> bool {
    name == current || (current.len() == 0 && i == 0)
}

/// Whether a speed entry starts checked: it lies within 0.01x of the
/// current speed.
pub open spec fn speed_initially_checked(value: int, current: int) -> bool {
    -10 < current - value < 10
}

/// The choices of the tray menu and which of them are checked.
#[derive(Debug)]
pub struct TrayMenu {
    voices: Vec<String>,
    voice_checked: Vec<bool>,
    speeds: Vec<i32>,
    speed_checked: Vec<bool>,
}

/// The mathematical value of a tray menu: the voice names and speeds on
/// offer, and which of them are checked.
pub struct TrayMenuView {
    pub voices: Seq<Seq<char>>,
    pub voice_checked: Seq<bool>,
    pub speeds: Seq<i32>,
    pub speed_checked: Seq<bool>,
}

impl View for TrayMenu {
    type V = TrayMenuView;

    closed spec fn view(&self) -> TrayMenuView {
        TrayMenuView {
            voices: views(self.voices@),
            voice_checked: self.voice_checked@,
            speeds: self.speeds@,
            speed_checked: self.speed_checked@,
        }
    }
}

/// A menu entry, found again by its position in its submenu.
#[derive(Debug, Clone, Copy, PartialEq, Eq, Structural)]
pub enum MenuTarget {
    Voice(usize),
    Speed(usize),
    Quit,
    /// An entry that does nothing (the header, the hint).
    Other,
}

impl TrayMenu {
    /// The menu's own invariant: one check mark per entry.
    pub closed spec fn wf(&self) -> bool {
        &&& self.voice_checked@.len() == self.voices@.len()
        &&& self.speed_checked@.len() == self.speeds@.len()
    }

    /// The voice names on offer, in menu order.
    pub fn voices(&self) -> (v: &Vec<String>)
        ensures
            views(v@) == self@.voices,
    {
        &self.voices
    }

    /// Which voices are checked, in menu order.
    pub fn voice_checked(&self) -> (v: &Vec<bool>)
        ensures
            v@ == self@.voice_checked,
    {
        &self.voice_checked
    }

    /// The speeds on offer, in menu order, in thousandths.
    pub fn speeds(&self) -> (v: &Vec<i32>)
        ensures
            v@ == self@.speeds,
    {
        &self.speeds
    }

    /// Which speeds are checked, in menu order.
    pub fn speed_checked(&self) -> (v: &Vec<bool>)
        ensures
            v@ == self@.speed_checked,
    {
        &self.speed_checked
    }

    /// The menu for the engine's `voices` with the current voice and speed
    /// checked.
    pub fn new(voices: Vec<String>, current_voice: &str, current_speed: i32) -> (m: TrayMenu)
        ensures
            m.wf(),
            m@.voices == views(voices@),
            m@.voice_checked.len() == voices@.len(),
            forall|i: int|
                0 <= i < voices@.len() ==> #[trigger] m@.voice_checked[i]
                    == voice_initially_checked(voices@[i]@, current_voice@, i),
            m@.speeds == speed_values(),
            m@.speed_checked.len() == m@.speeds.len(),
            forall|i: int|
                0 <= i < m@.speeds.len() ==> #[trigger] m@.speed_checked[i]
                    == speed_initially_checked(speed_values()[i] as int, current_speed as int),
    {
        let cur = chars_of(current_voice);
        let mut voice_checked: Vec<bool> = Vec::new();
        let mut i: usize = 0;
        while i < voices.len()
            invariant
                i <= voices.len(),
                cur@ == current_voice@,
                voice_checked@.len() == i,
                forall|j: int|
                    0 <= j < i ==> #[trigger] voice_checked@[j] == voice_initially_checked(
                        voices@[j]@,
                        current_voice@,
                        j,
                    ),
            decreases voices.len() - i,
        {
            let name = chars_of(voices[i].as_str());
            let checked = chars_eq(&name, &cur) || (cur.len() == 0 && i == 0);
            voice_checked.push(checked);
            i = i + 1;
        }
        let opts = speed_options();
        let mut speeds: Vec<i32> = Vec::new();
        let mut speed_checked: Vec<bool> = Vec::new();
        let mut k: usize = 0;
        while k < opts.len()
            invariant
                k <= opts.len(),
                opts@.len() == 16,
                forall|j: int| 0 <= j < 16 ==> (#[trigger] opts@[j]).value == speed_values()[j],
                speeds@ == speed_values().take(k as int),
                speed_checked@.len() == k,
                forall|j: int|
                    0 <= j < k ==> #[trigger] speed_checked@[j] == speed_initially_checked(
                        speed_values()[j] as int,
                        current_speed as int,
                    ),
            decreases opts.len() - k,
        {
            let v = opts[k].value;
            let d: i64 = current_speed as i64 - v as i64;
            speeds.push(v);
            speed_checked.push(-10 < d && d < 10);
            assert(speeds@ =~= speed_values().take(k + 1));
            k = k + 1;
        }
        assert(speed_values().take(16) =~= speed_values());
        TrayMenu { voices, voice_checked, speeds, speed_checked }
    }

    /// Handles a click. A voice or a speed becomes the only one checked in
    /// its submenu and is sent to the worker; Quit is sent as it is; other
    /// entries do nothing.
    pub fn handle_click(&mut self, target: MenuTarget) -> (ev: Option<ControlEvent>)
        requires
            old(self).wf(),
        ensures
            final(self).wf(),
            final(self)@.voices == old(self)@.voices,
            final(self)@.speeds == old(self)@.speeds,
            final(self)@.voice_checked.len() == final(self)@.voices.len(),
            final(self)@.speed_checked.len() == final(self)@.speeds.len(),
            match target {
                MenuTarget::Voice(i) => if i < old(self)@.voices.len() {
                    &&& ev is Some && ev->0 is SetVoice && ev->0->SetVoice_0@ == old(self)@.voices[i as int]
                    &&& forall|j: int| 0 <= j < final(self)@.voice_checked.len() ==> #[trigger] final(self)@.voice_checked[j] == (j == i)
                    &&& final(self)@.speed_checked == old(self)@.speed_checked
                } else {
                    ev is None && final(self)@.voice_checked == old(self)@.voice_checked
                        && final(self)@.speed_checked == old(self)@.speed_checked
                },
                MenuTarget::Speed(i) => if i < old(self)@.speeds.len() {
                    &&& ev is Some && ev->0 is SetSpeed && ev->0->SetSpeed_0 == old(self)@.speeds[i as int]
                    &&& forall|j: int| 0 <= j < final(self)@.speed_checked.len() ==> #[trigger] final(self)@.speed_checked[j] == (j == i)
                    &&& final(self)@.voice_checked == old(self)@.voice_checked
                } else {
                    ev is None && final(self)@.voice_checked == old(self)@.voice_checked
                        && final(self)@.speed_checked == old(self)@.speed_checked
                },
                MenuTarget::Quit => ev is Some && ev->0 is Quit
                    && final(self)@.voice_checked == old(self)@.voice_checked
                    && final(self)@.speed_checked == old(self)@.speed_checked,
                MenuTarget::Other => ev is None
                    && final(self)@.voice_checked == old(self)@.voice_checked
                    && final(self)@.speed_checked == old(self)@.speed_checked,
            },
    {
        match target {
            MenuTarget::Voice(i) => {
                if i < self.voices.len() {
                    self.voice_checked = only_checked(self.voices.len(), i);
                    Some(ControlEvent::SetVoice(self.voices[i].clone()))
                } else {
                    None
                }
            },
            MenuTarget::Speed(i) => {
                if i < self.speeds.len() {
                    self.speed_checked = only_checked(self.speeds.len(), i);
                    Some(ControlEvent::SetSpeed(self.speeds[i]))
                } else {
                    None
                }
            },
            MenuTarget::Quit => Some(ControlEvent::Quit),
            MenuTarget::Other => None,
        }
    }
}

/// `n` check marks with only the one at `i` set.
pub fn only_checked(n: usize, i: usize) -> (v: Vec<bool>)
    ensures
        v@.len() == n,
        forall|j: int| 0 <= j < n ==> #[trigger] v@[j] == (j == i),
{
    let mut v: Vec<bool> = Vec::new();
    let mut k: usize = 0;
    while k < n
        invariant
            k <= n,
            v@.len() == k,
            forall|j: int| 0 <= j < k ==> #[trigger] v@[j] == (j == i),
        decreases n - k,
    {
        v.push(k == i);
        k = k + 1;
    }
    v
}

/// The number of checked marks.
pub open spec fn count_checked(v: Seq<bool>) -> nat
    decreases v.len(),
{
    if v.len() == 0 {
        0
    } else {
        count_checked(v.drop_last()) + if v.last() { 1nat } else { 0nat }
    }
}

/// After a click on an entry, exactly one entry of its submenu is checked.
pub proof fn lemma_one_checked(v: Seq<bool>, i: int)
    requires
        0 <= i < v.len(),
        forall|j: int| 0 <= j < v.len() ==> #[trigger] v[j] == (j == i),
    ensures
        count_checked(v) == 1,
    decreases v.len(),
{
    if v.len() - 1 == i {
        lemma_none_checked(v.drop_last());
    } else {
        lemma_one_checked(v.drop_last(), i);
    }
}

proof fn lemma_none_checked(v: Seq<bool>)
    requires
        forall|j: int| 0 <= j < v.len() ==> !(#[trigger] v[j]),
    ensures
        count_checked(v) == 0,
    decreases v.len(),
{
    if v.len() > 0 {
        lemma_none_checked(v.drop_last());
    }
}

} // verus!
