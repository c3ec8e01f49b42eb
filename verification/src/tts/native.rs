//! The platform's own speech: the `say` command on macOS, the system
//! synthesiser elsewhere. Both show "reading" while audio plays and "idle"
//! otherwise; neither has a noticeable synthesis pause.
use crate::overlay::OverlayState;
use crate::text::{chars_of, is_whitespace, is_ws, push_char, split_on, split_str, views};
use crate::tts::{clamp, clamp_speed, round_div, TtsCommand};
use vstd::prelude::*;

verus! {

/// Words per minute that `say` is asked for at `speed` thousandths of normal
/// speed: 175 wpm at normal speed, rounded, limited to 60..600.
pub open spec fn say_rate_spec(speed: int) -> int {
    clamp(round_div(175 * speed, 1000), 60, 600)
}

/// Words per minute for `say` at a speed in thousandths.
pub fn say_rate(speed: i32) -> (wpm: u32)
    ensures
        wpm == say_rate_spec(speed as int),
{
    let n: i64 = 175 * (speed as i64);
    let q: i64 = if n >= 0 {
        (2 * n + 1000) / 2000
    } else {
        let m: i64 = 0 - n;
        0 - (2 * m + 1000) / 2000
    };
    if q < 60 {
        60
    } else if q > 600 {
        600
    } else {
        q as u32
    }
}

/// The digit character for `d < 10`.
pub open spec fn digit_char(d: nat) -> char {
    ((48 + d) as u8) as char
}

/// The decimal notation of `n`, without leading zeros.
pub open spec fn decimal_spec(n: nat) -> Seq<char>
    decreases n,
{
    if n < 10 {
        seq![digit_char(n)]
    } else {
        decimal_spec(n / 10).push(digit_char(n % 10))
    }
}

/// The decimal notation of `n`, as `u32::to_string`.
pub fn decimal(n: u32) -> (s: String)
    ensures
        s@ == decimal_spec(n as nat),
    decreases n,
{
    if n < 10 {
        let mut s = String::new();
        push_char(&mut s, ((48 + n) as u8) as char);
        assert(s@ =~= decimal_spec(n as nat));
        s
    } else {
        let mut s = decimal(n / 10);
        push_char(&mut s, ((48 + n % 10) as u8) as char);
        s
    }
}

/// The arguments of a `say` call: the voice when one is chosen, the rate,
/// then the text.
pub open spec fn say_args_spec(voice: Option<Seq<char>>, wpm: nat, text: Seq<char>) -> Seq<Seq<char>> {
    let tail = seq!["-r"@, decimal_spec(wpm), text];
    match voice {
        Some(v) => seq!["-v"@, v] + tail,
        None => tail,
    }
}

/// The optional voice, by its text.
pub open spec fn opt_view(o: Option<String>) -> Option<Seq<char>> {
    match o {
        Some(s) => Some(s@),
        None => None,
    }
}

/// The arguments of a `say` call.
pub fn say_args(voice: &Option<String>, wpm: u32, text: &str) -> (args: Vec<String>)
    ensures
        views(args@) == say_args_spec(opt_view(*voice), wpm as nat, text@),
{
    let mut args: Vec<String> = Vec::new();
    match voice {
        Some(v) => {
            args.push(String::from_str("-v"));
            args.push(v.clone());
        },
        None => {},
    }
    args.push(String::from_str("-r"));
    args.push(decimal(wpm));
    args.push(String::from_str(text));
    assert(views(args@) =~= say_args_spec(opt_view(*voice), wpm as nat, text@));
    args
}

/// The characters of `s` up to its first whitespace.
pub open spec fn take_word(s: Seq<char>) -> Seq<char>
    decreases s.len(),
{
    if s.len() == 0 || is_ws(s[0]) {
        Seq::empty()
    } else {
        seq![s[0]] + take_word(s.drop_first())
    }
}

/// The characters of `s` without its leading whitespace.
pub open spec fn skip_ws(s: Seq<char>) -> Seq<char>
    decreases s.len(),
{
    if s.len() > 0 && is_ws(s[0]) {
        skip_ws(s.drop_first())
    } else {
        s
    }
}

/// The first whitespace-separated word of a line (empty when it has none).
pub open spec fn first_word(line: Seq<char>) -> Seq<char> {
    take_word(skip_ws(line))
}

/// The first word of each line that has one.
pub open spec fn words_of_lines(lines: Seq<Seq<char>>) -> Seq<Seq<char>>
    decreases lines.len(),
{
    if lines.len() == 0 {
        Seq::empty()
    } else {
        let prev = words_of_lines(lines.drop_last());
        let w = first_word(lines.last());
        if w.len() > 0 {
            prev.push(w)
        } else {
            prev
        }
    }
}

/// The voice names in the listing printed by `say -v ?`: the first word of
/// each line that has one.
pub open spec fn say_voices_spec(listing: Seq<char>) -> Seq<Seq<char>> {
    words_of_lines(split_on(listing, '\n'))
}

proof fn lemma_word_from(s: Seq<char>, i: int, j: int)
    requires
        0 <= i <= j <= s.len(),
        forall|k: int| 0 <= k < i ==> is_ws(#[trigger] s[k]),
        i == s.len() || !is_ws(s[i]),
        forall|k: int| i <= k < j ==> !is_ws(#[trigger] s[k]),
        j == s.len() || is_ws(s[j]),
    ensures
        first_word(s) == s.subrange(i, j),
    decreases s.len(),
{
    if i > 0 {
        assert(is_ws(s[0]));
        lemma_word_from(s.drop_first(), i - 1, j - 1);
        assert(s.drop_first().subrange(i - 1, j - 1) =~= s.subrange(i, j));
    } else {
        assert(skip_ws(s) == s);
        lemma_take_word(s, j);
    }
}

proof fn lemma_take_word(s: Seq<char>, j: int)
    requires
        0 <= j <= s.len(),
        forall|k: int| 0 <= k < j ==> !is_ws(#[trigger] s[k]),
        j == s.len() || is_ws(s[j]),
    ensures
        take_word(s) == s.subrange(0, j),
    decreases s.len(),
{
    if j == 0 {
        assert(s.subrange(0, 0) =~= Seq::<char>::empty());
    } else {
        assert(!is_ws(s[0]));
        lemma_take_word(s.drop_first(), j - 1);
        assert(seq![s[0]] + s.drop_first().subrange(0, j - 1) =~= s.subrange(0, j));
    }
}

/// The first whitespace-separated word of `line`.
pub fn line_first_word(line: &str) -> (w: String)
    ensures
        w@ == first_word(line@),
{
    let v = chars_of(line);
    let mut i: usize = 0;
    while i < v.len() && is_whitespace(v[i])
        invariant
            i <= v.len(),
            forall|k: int| 0 <= k < i ==> is_ws(#[trigger] v@[k]),
        decreases v.len() - i,
    {
        i = i + 1;
    }
    let mut w = String::new();
    let mut j: usize = i;
    while j < v.len() && !is_whitespace(v[j])
        invariant
            i <= j <= v.len(),
            forall|k: int| i <= k < j ==> !is_ws(#[trigger] v@[k]),
            w@ == v@.subrange(i as int, j as int),
        decreases v.len() - j,
    {
        push_char(&mut w, v[j]);
        assert(v@.subrange(i as int, j + 1) =~= v@.subrange(i as int, j as int).push(v@[j as int]));
        j = j + 1;
    }
    proof {
        lemma_word_from(v@, i as int, j as int);
    }
    w
}

/// The voice names in the listing printed by `say -v ?`.
pub fn voices_from_say_listing(listing: &str) -> (names: Vec<String>)
    ensures
        views(names@) == say_voices_spec(listing@),
{
    let lines = split_str(listing, '\n');
    let ghost lv = views(lines@);
    let mut names: Vec<String> = Vec::new();
    let mut i: usize = 0;
    assert(lv.take(0) =~= Seq::<Seq<char>>::empty());
    assert(views(names@) =~= Seq::<Seq<char>>::empty());
    while i < lines.len()
        invariant
            i <= lines.len(),
            lv == views(lines@),
            views(names@) == words_of_lines(lv.take(i as int)),
        decreases lines.len() - i,
    {
        assert(lv.take(i + 1).drop_last() =~= lv.take(i as int));
        assert(lv.take(i + 1).last() == lines@[i as int]@);
        let w = line_first_word(lines[i].as_str());
        if w.as_str().is_empty() {
        } else {
            let ghost before = names@;
            names.push(w);
            assert(views(names@) =~= views(before).push(w@));
        }
        i = i + 1;
    }
    assert(lv.take(lines.len() as int) =~= lv);
    names
}

/// Whether the `say` loop stops the running `say` on `cmd`: on a new read,
/// on Stop and on Quit.
pub open spec fn stops_child(cmd: TtsCommand) -> bool {
    cmd is Speak || cmd is Stop || cmd is Quit
}

/// Whether the `say` loop starts `say` on `cmd`: on a new read only.
pub open spec fn starts_say(cmd: TtsCommand) -> bool {
    cmd is Speak
}

/// A command's effect on whether `say` is running, and the step that
/// answers it: stop the running `say`, start a new one, the status to show,
/// and whether to leave the loop.
pub open spec fn say_command(speaking: bool, cmd: TtsCommand) -> (bool, (bool, bool, Option<OverlayState>, bool)) {
    (
        speaking && !stops_child(cmd),
        (
            stops_child(cmd),
            starts_say(cmd),
            if cmd is Stop || cmd is Quit { Some(OverlayState::Idle) } else { None },
            cmd is Quit,
        ),
    )
}

/// Whether `say` is running once it was started (or failed to start), and
/// the status to show: reading, or idle.
pub open spec fn say_spawned(started: bool) -> (bool, OverlayState) {
    (started, if started { OverlayState::Reading } else { OverlayState::Idle })
}

/// Whether `say` is running after a timed-out wait that found it `exited`,
/// and the status to show: idle once a running `say` has exited.
pub open spec fn say_tick(speaking: bool, exited: bool) -> (bool, Option<OverlayState>) {
    (speaking && !exited, if speaking && exited { Some(OverlayState::Idle) } else { None })
}

/// What reaches the `say` loop: a command (with, for a new read, whether
/// `say` could be started), or a wait that timed out (with whether the
/// running `say`, if any, has exited).
pub enum SayEvent {
    Command(TtsCommand, bool),
    Tick(bool),
}

/// The `say` loop after one event, as the session's steps make it: whether
/// the session records a running `say`, how many `say` processes are alive,
/// and the status shown. The loop kills and reaps the running process when
/// the step says to stop it, has one more alive when `say` starts, drops
/// the process once the session has seen it exit, and shows the statuses
/// the session returns.
pub open spec fn say_loop_step(st: (bool, nat, OverlayState), ev: SayEvent) -> (bool, nat, OverlayState) {
    match ev {
        SayEvent::Command(cmd, started) => {
            let (sp1, a) = say_command(st.0, cmd);
            let alive = if a.0 { 0 } else { st.1 };
            let shown = match a.2 {
                Some(o) => o,
                None => st.2,
            };
            if a.1 {
                let (sp2, o) = say_spawned(started);
                (sp2, alive + if started { 1nat } else { 0nat }, o)
            } else {
                (sp1, alive, shown)
            }
        },
        SayEvent::Tick(exited) => {
            let gone = exited && st.1 > 0;
            let (sp1, o) = say_tick(st.0, gone);
            match o {
                Some(shown) => (sp1, 0, shown),
                None => (sp1, st.1, st.2),
            }
        },
    }
}

/// The `say` loop after a run of events from start-up: no `say` running,
/// none alive, the status idle.
pub open spec fn say_loop_run(evs: Seq<SayEvent>) -> (bool, nat, OverlayState)
    decreases evs.len(),
{
    if evs.len() == 0 {
        (false, 0, OverlayState::Idle)
    } else {
        say_loop_step(say_loop_run(evs.drop_last()), evs.last())
    }
}

/// At most one `say` is alive at any time, whatever the commands and
/// whatever becomes of the processes: the previous one is killed and reaped
/// before a new read starts one, and on Stop and Quit. One is alive exactly
/// while the session records it running, and exactly then the status shows
/// reading: reading when `say` starts, idle when it fails to start, on Stop
/// and Quit, and when it exits.
pub proof fn lemma_say_one_child(evs: Seq<SayEvent>)
    ensures
        say_loop_run(evs).1 <= 1,
        say_loop_run(evs).1 == 1 <==> say_loop_run(evs).0,
        say_loop_run(evs).2 == OverlayState::Reading <==> say_loop_run(evs).0,
    decreases evs.len(),
{
    if evs.len() > 0 {
        lemma_say_one_child(evs.drop_last());
    }
}

/// The state of the `say` engine between events: the voice (none for the
/// system default), the speed, and whether a `say` process is running.
#[derive(Debug)]
pub struct SaySession {
    pub voice: Option<String>,
    pub speed: i32,
    pub speaking: bool,
}

/// What the `say` loop does in answer to a command.
#[derive(Debug)]
pub struct SayStep {
    /// Kill the running `say` process, if any, and wait for it.
    pub stop_child: bool,
    /// Start `say` with these arguments.
    pub spawn: Option<Vec<String>>,
    /// The status to show, if it changes.
    pub overlay: Option<OverlayState>,
    /// Leave the loop.
    pub exit: bool,
}

impl SaySession {
    /// The session at start-up: no voice means the system default.
    pub fn new(initial_voice: String, initial_speed: i32) -> (s: Self)
        ensures
            opt_view(s.voice) == (if initial_voice@.len() == 0 { None } else { Some(initial_voice@) }),
            s.speed == initial_speed,
            !s.speaking,
    {
        let voice = if initial_voice.as_str().is_empty() { None } else { Some(initial_voice) };
        SaySession { voice, speed: initial_speed, speaking: false }
    }

    /// Handles a command. A new read replaces the running one: `say` is
    /// started with the chosen voice, the rate for the current speed, and
    /// the text.
    pub fn on_command(&mut self, cmd: TtsCommand) -> (step: SayStep)
        ensures
            (final(self).speaking, (step.stop_child, step.spawn is Some, step.overlay, step.exit))
                == say_command(old(self).speaking, cmd),
            match cmd {
                TtsCommand::Speak { text } => {
                    &&& step.stop_child
                    &&& step.spawn is Some
                    &&& views(step.spawn->0@) == say_args_spec(
                        opt_view(old(self).voice),
                        say_rate_spec(old(self).speed as int) as nat,
                        text@,
                    )
                    &&& step.overlay is None
                    &&& !step.exit
                    &&& !final(self).speaking
                    &&& final(self).voice == old(self).voice
                    &&& final(self).speed == old(self).speed
                },
                TtsCommand::Stop => {
                    &&& step.stop_child && step.spawn is None
                    &&& step.overlay == Some(OverlayState::Idle)
                    &&& !step.exit
                    &&& !final(self).speaking
                    &&& final(self).voice == old(self).voice
                    &&& final(self).speed == old(self).speed
                },
                TtsCommand::SetVoice(v) => {
                    &&& !step.stop_child && step.spawn is None && step.overlay is None && !step.exit
                    &&& opt_view(final(self).voice) == (if v@.len() == 0 { None } else { Some(v@) })
                    &&& final(self).speed == old(self).speed
                    &&& final(self).speaking == old(self).speaking
                },
                TtsCommand::SetSpeed(sp) => {
                    &&& !step.stop_child && step.spawn is None && step.overlay is None && !step.exit
                    &&& final(self).speed == clamp(sp as int, 500, 3000)
                    &&& final(self).voice == old(self).voice
                    &&& final(self).speaking == old(self).speaking
                },
                TtsCommand::Quit => {
                    &&& step.stop_child && step.spawn is None
                    &&& step.overlay == Some(OverlayState::Idle)
                    &&& step.exit
                    &&& !final(self).speaking
                },
            },
    {
        match cmd {
            TtsCommand::Speak { text } => {
                self.speaking = false;
                let wpm = say_rate(self.speed);
                let args = say_args(&self.voice, wpm, text.as_str());
                SayStep { stop_child: true, spawn: Some(args), overlay: None, exit: false }
            },
            TtsCommand::Stop => {
                self.speaking = false;
                SayStep {
                    stop_child: true,
                    spawn: None,
                    overlay: Some(OverlayState::Idle),
                    exit: false,
                }
            },
            TtsCommand::SetVoice(v) => {
                self.voice = if v.as_str().is_empty() { None } else { Some(v) };
                SayStep { stop_child: false, spawn: None, overlay: None, exit: false }
            },
            TtsCommand::SetSpeed(sp) => {
                self.speed = clamp_speed(sp);
                SayStep { stop_child: false, spawn: None, overlay: None, exit: false }
            },
            TtsCommand::Quit => {
                self.speaking = false;
                SayStep {
                    stop_child: true,
                    spawn: None,
                    overlay: Some(OverlayState::Idle),
                    exit: true,
                }
            },
        }
    }

    /// Records whether `say` started; returns the status to show.
    pub fn on_spawned(&mut self, started: bool) -> (st: OverlayState)
        ensures
            (final(self).speaking, st) == say_spawned(started),
            final(self).speaking == started,
            st == (if started { OverlayState::Reading } else { OverlayState::Idle }),
            final(self).voice == old(self).voice,
            final(self).speed == old(self).speed,
    {
        self.speaking = started;
        if started {
            OverlayState::Reading
        } else {
            OverlayState::Idle
        }
    }

    /// Notices that the running `say` process has exited on its own; the
    /// status then returns to idle (the result is `Some(Idle)`).
    pub fn on_tick(&mut self, exited: bool) -> (st: Option<OverlayState>)
        ensures
            (final(self).speaking, st) == say_tick(old(self).speaking, exited),
            st == (if old(self).speaking && exited { Some(OverlayState::Idle) } else { None }),
            final(self).speaking == (old(self).speaking && !exited),
            final(self).voice == old(self).voice,
            final(self).speed == old(self).speed,
    {
        if self.speaking && exited {
            self.speaking = false;
            Some(OverlayState::Idle)
        } else {
            None
        }
    }
}

/// The position of the first voice called `name`, if any.
pub fn find_voice(names: &Vec<String>, name: &str) -> (r: Option<usize>)
    ensures
        match r {
            Some(i) => i < names.len() && names@[i as int]@ == name@ && forall|j: int|
                0 <= j < i ==> names@[j]@ != name@,
            None => forall|j: int| 0 <= j < names.len() ==> names@[j]@ != name@,
        },
{
    let target = chars_of(name);
    let mut i: usize = 0;
    while i < names.len()
        invariant
            i <= names.len(),
            target@ == name@,
            forall|j: int| 0 <= j < i ==> names@[j]@ != name@,
        decreases names.len() - i,
    {
        let c = chars_of(names[i].as_str());
        if crate::text::chars_eq(&c, &target) {
            return Some(i);
        }
        i = i + 1;
    }
    None
}

/// The state of the system synthesiser between events: the speed, which is
/// applied to the synthesiser before each read and on each change.
#[derive(Debug)]
pub struct SystemSession {
    pub speed: i32,
}

/// What the system-synthesiser loop does in answer to a command.
#[derive(Debug)]
pub struct SystemStep {
    /// Stop speaking.
    pub stop: bool,
    /// Set the synthesiser's rate for this speed.
    pub apply_speed: Option<i32>,
    /// Speak this text, interrupting what is being said.
    pub speak: Option<String>,
    /// Switch to the voice with this name, if the synthesiser has one.
    pub select_voice: Option<String>,
    /// The status to show, if it changes.
    pub overlay: Option<OverlayState>,
    /// Leave the loop.
    pub exit: bool,
}

impl SystemSession {
    /// The session at start-up, at the configured speed.
    pub fn new(initial_speed: i32) -> (s: Self)
        ensures
            s.speed == initial_speed,
    {
        SystemSession { speed: initial_speed }
    }

    /// Handles a command.
    pub fn on_command(&mut self, cmd: TtsCommand) -> (step: SystemStep)
        ensures
            match cmd {
                TtsCommand::Speak { text } => {
                    &&& step.apply_speed == Some(old(self).speed)
                    &&& step.speak is Some && step.speak->0@ == text@
                    &&& !step.stop && step.select_voice is None && step.overlay is None && !step.exit
                    &&& final(self).speed == old(self).speed
                },
                TtsCommand::Stop => {
                    &&& step.stop && step.apply_speed is None && step.speak is None
                    &&& step.select_voice is None
                    &&& step.overlay == Some(OverlayState::Idle) && !step.exit
                    &&& final(self).speed == old(self).speed
                },
                TtsCommand::SetVoice(v) => {
                    &&& step.select_voice is Some && step.select_voice->0@ == v@
                    &&& !step.stop && step.apply_speed is None && step.speak is None
                    &&& step.overlay is None && !step.exit
                    &&& final(self).speed == old(self).speed
                },
                TtsCommand::SetSpeed(sp) => {
                    &&& final(self).speed == clamp(sp as int, 500, 3000)
                    &&& step.apply_speed == Some(final(self).speed)
                    &&& !step.stop && step.speak is None && step.select_voice is None
                    &&& step.overlay is None && !step.exit
                },
                TtsCommand::Quit => {
                    &&& step.stop && step.apply_speed is None && step.speak is None
                    &&& step.select_voice is None
                    &&& step.overlay == Some(OverlayState::Idle) && step.exit
                    &&& final(self).speed == old(self).speed
                },
            },
    {
        let none = SystemStep {
            stop: false,
            apply_speed: None,
            speak: None,
            select_voice: None,
            overlay: None,
            exit: false,
        };
        match cmd {
            TtsCommand::Speak { text } => SystemStep {
                apply_speed: Some(self.speed),
                speak: Some(text),
                ..none
            },
            TtsCommand::Stop => SystemStep { stop: true, overlay: Some(OverlayState::Idle), ..none },
            TtsCommand::SetVoice(v) => SystemStep { select_voice: Some(v), ..none },
            TtsCommand::SetSpeed(sp) => {
                self.speed = clamp_speed(sp);
                SystemStep { apply_speed: Some(self.speed), ..none }
            },
            TtsCommand::Quit => SystemStep {
                stop: true,
                overlay: Some(OverlayState::Idle),
                exit: true,
                ..none
            },
        }
    }
}

/// The status after asking the synthesiser to speak: reading when it
/// accepted the text, idle when it refused.
pub fn speak_outcome(accepted: bool) -> (st: OverlayState)
    ensures
        st == (if accepted { OverlayState::Reading } else { OverlayState::Idle }),
{
    if accepted {
        OverlayState::Reading
    } else {
        OverlayState::Idle
    }
}

/// The status after polling the synthesiser: idle once it reports that it
/// is not speaking; unchanged while it speaks or cannot tell.
pub fn poll_outcome(speaking: Option<bool>) -> (st: Option<OverlayState>)
    ensures
        st == (if speaking == Some(false) { Some(OverlayState::Idle) } else { None }),
{
    match speaking {
        Some(false) => Some(OverlayState::Idle),
        _ => None,
    }
}

} // verus!
