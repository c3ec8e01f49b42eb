use tts_read::overlay::OverlayState;
use tts_read::tts::edge::{
    after_synthesis, default_voice, list_voices, rate_percent, speech_params, EdgeSession, SynthNext,
};
use tts_read::tts::native::{
    decimal, find_voice, poll_outcome, say_args, say_rate, speak_outcome, voices_from_say_listing,
    SaySession, SystemSession,
};
use tts_read::tts::{clamp_speed, engine_kind, list_voices_for, EngineKind, TtsCommand};

fn s(x: &str) -> String {
    x.to_string()
}

#[test]
fn edge_voice_list() {
    let v = list_voices();
    assert_eq!(v.len(), 20);
    assert_eq!(v[0], "en-US-AriaNeural");
    assert_eq!(v[18], "en-IE-EmilyNeural");
    assert_eq!(v[19], "en-IE-ConnorNeural");
    assert_eq!(default_voice(), "en-IE-EmilyNeural");
}

#[test]
fn engine_choice() {
    assert_eq!(engine_kind("native"), EngineKind::Native);
    assert_eq!(engine_kind("edge"), EngineKind::Edge);
    assert_eq!(engine_kind("Native"), EngineKind::Edge);
    assert_eq!(list_voices_for("native", vec![s("Alex")]), vec![s("Alex")]);
    assert_eq!(list_voices_for("edge", vec![s("Alex")]).len(), 20);
}

#[test]
fn edge_rate_percent() {
    assert_eq!(rate_percent(1000), 0);
    assert_eq!(rate_percent(1100), 10);
    assert_eq!(rate_percent(500), -50);
    assert_eq!(rate_percent(100), -50);
    assert_eq!(rate_percent(3000), 200);
    assert_eq!(rate_percent(4000), 200);
    assert_eq!(rate_percent(1005), 1);
    assert_eq!(rate_percent(995), -1);
    assert_eq!(rate_percent(1004), 0);
    assert_eq!(rate_percent(i32::MIN), -50);
    assert_eq!(rate_percent(i32::MAX), 200);
}

#[test]
fn edge_request_parameters() {
    let p = speech_params(&s("en-GB-RyanNeural"), 1500);
    assert_eq!(p.voice_name, "en-GB-RyanNeural");
    assert_eq!(p.audio_format, "audio-24khz-48kbitrate-mono-mp3");
    assert_eq!((p.pitch, p.rate, p.volume), (0, 50, 0));
}

#[test]
fn speed_clamp() {
    assert_eq!(clamp_speed(100), 500);
    assert_eq!(clamp_speed(1200), 1200);
    assert_eq!(clamp_speed(9000), 3000);
}

#[test]
fn edge_session_reads_in_chunks() {
    let mut es = EdgeSession::new(String::new(), 1000);
    assert_eq!(es.voice, "en-IE-EmilyNeural");
    let step = es.on_command(TtsCommand::Speak {
        text: s("Hi. This is a fairly long sentence that goes on. Short."),
    });
    assert!(step.stop_player && !step.exit);
    assert_eq!(step.overlay, Some(OverlayState::Synthesizing));
    assert_eq!(step.synthesize.as_deref(), Some("Hi. This is a fairly long sentence that goes on."));
    assert_eq!(es.pending.len(), 1);
    // nothing is handed out before the first chunk plays
    assert_eq!(es.next_chunk(0), None);
    assert_eq!(es.on_first_chunk(true), OverlayState::Reading);
    assert_eq!(es.next_chunk(2), None);
    assert_eq!(es.next_chunk(1).as_deref(), Some("Short."));
    assert_eq!(es.next_chunk(0), None);
    assert!(!es.finish_if_done(false));
    assert!(es.finish_if_done(true));
    assert!(!es.playing);
    assert!(!es.finish_if_done(true));
}

#[test]
fn edge_session_stop_and_settings() {
    let mut es = EdgeSession::new(s("en-US-GuyNeural"), 1000);
    es.on_command(TtsCommand::Speak { text: s("One. Two. Three. Four. Five. Six. Seven. Eight. Nine.") });
    assert_eq!(es.on_first_chunk(false), OverlayState::Idle);
    let step = es.on_command(TtsCommand::Stop);
    assert_eq!(step.overlay, Some(OverlayState::Idle));
    assert!(es.pending.is_empty() && !es.playing);
    es.on_command(TtsCommand::SetVoice(String::new()));
    assert_eq!(es.voice, "en-IE-EmilyNeural");
    es.on_command(TtsCommand::SetVoice(s("en-GB-SoniaNeural")));
    assert_eq!(es.voice, "en-GB-SoniaNeural");
    es.on_command(TtsCommand::SetSpeed(5000));
    assert_eq!(es.speed, 3000);
    assert_eq!(es.params().rate, 200);
    let q = es.on_command(TtsCommand::Quit);
    assert!(q.exit && q.stop_player);
}

#[test]
fn say_rate_and_numbers() {
    assert_eq!(say_rate(1000), 175);
    assert_eq!(say_rate(500), 88);
    assert_eq!(say_rate(2000), 350);
    assert_eq!(say_rate(100), 60);
    assert_eq!(say_rate(4000), 600);
    assert_eq!(say_rate(-1000), 60);
    assert_eq!(decimal(0), "0");
    assert_eq!(decimal(175), "175");
    assert_eq!(decimal(u32::MAX), u32::MAX.to_string());
}

#[test]
fn say_arguments() {
    assert_eq!(say_args(&Some(s("Alex")), 175, "hi there"), vec!["-v", "Alex", "-r", "175", "hi there"]);
    assert_eq!(say_args(&None, 88, "x"), vec!["-r", "88", "x"]);
}

#[test]
fn say_voice_listing() {
    let listing = "Alex                en_US    # Most people recognize me by my voice.\n\
                   Alice               it_IT    # Salve, mi chiamo Alice\r\n\n   \n  Bad\tNews en_US # x\n";
    assert_eq!(voices_from_say_listing(listing), vec!["Alex", "Alice", "Bad"]);
    assert!(voices_from_say_listing("").is_empty());
}

#[test]
fn say_session_flow() {
    let mut ss = SaySession::new(String::new(), 1000);
    assert!(ss.voice.is_none());
    let step = ss.on_command(TtsCommand::Speak { text: s("hello") });
    assert!(step.stop_child);
    assert_eq!(step.spawn.unwrap(), vec!["-r", "175", "hello"]);
    assert_eq!(ss.on_spawned(true), OverlayState::Reading);
    assert_eq!(ss.on_tick(false), None);
    assert_eq!(ss.on_tick(true), Some(OverlayState::Idle));
    assert_eq!(ss.on_tick(true), None);
    ss.on_command(TtsCommand::SetVoice(s("Samantha")));
    ss.on_command(TtsCommand::SetSpeed(1500));
    let step = ss.on_command(TtsCommand::Speak { text: s("x") });
    assert_eq!(step.spawn.unwrap(), vec!["-v", "Samantha", "-r", "263", "x"]);
    assert_eq!(ss.on_spawned(false), OverlayState::Idle);
    assert!(ss.on_command(TtsCommand::Quit).exit);
}

#[test]
fn system_session_flow() {
    let mut ns = SystemSession::new(1200);
    let st = ns.on_command(TtsCommand::Speak { text: s("hi") });
    assert_eq!(st.apply_speed, Some(1200));
    assert_eq!(st.speak.as_deref(), Some("hi"));
    let st = ns.on_command(TtsCommand::SetSpeed(100));
    assert_eq!(st.apply_speed, Some(500));
    let st = ns.on_command(TtsCommand::SetVoice(s("Zira")));
    assert_eq!(st.select_voice.as_deref(), Some("Zira"));
    assert_eq!(ns.on_command(TtsCommand::Stop).overlay, Some(OverlayState::Idle));
    assert_eq!(speak_outcome(true), OverlayState::Reading);
    assert_eq!(speak_outcome(false), OverlayState::Idle);
    assert_eq!(poll_outcome(Some(false)), Some(OverlayState::Idle));
    assert_eq!(poll_outcome(Some(true)), None);
    assert_eq!(poll_outcome(None), None);
    assert_eq!(find_voice(&vec![s("A"), s("Zira"), s("Zira")], "Zira"), Some(1));
    assert_eq!(find_voice(&vec![s("A")], "Zira"), None);
}

#[test]
fn say_loop_keeps_one_child() {
    // Drive the session as the loop does, counting live `say` processes.
    let mut ss = SaySession::new(String::new(), 1000);
    let mut alive = 0u32;
    let mut shown = OverlayState::Idle;
    for (cmd, started) in [
        (TtsCommand::Speak { text: s("one") }, true),
        (TtsCommand::Speak { text: s("two") }, true),
        (TtsCommand::SetSpeed(1200), false),
        (TtsCommand::Speak { text: s("three") }, false),
        (TtsCommand::Speak { text: s("four") }, true),
        (TtsCommand::Stop, false),
        (TtsCommand::Speak { text: s("five") }, true),
    ] {
        let step = ss.on_command(cmd);
        if step.stop_child {
            alive = 0;
        }
        if step.spawn.is_some() {
            if started {
                alive += 1;
            }
            shown = ss.on_spawned(started);
        }
        if let Some(st) = step.overlay {
            shown = st;
        }
        assert!(alive <= 1);
        assert_eq!(alive == 1, ss.speaking);
        assert_eq!(shown == OverlayState::Reading, ss.speaking);
    }
    assert_eq!(ss.on_tick(true), Some(OverlayState::Idle));
    assert!(!ss.speaking);
}

#[test]
fn edge_statuses_in_order() {
    let mut es = EdgeSession::new(String::new(), 1000);
    let mut shown = Vec::new();
    let step = es.on_command(TtsCommand::Speak { text: s("The first sentence is long enough. Second.") });
    shown.extend(step.overlay);
    shown.push(es.on_first_chunk(true));
    assert_eq!(es.next_chunk(0).as_deref(), Some("Second."));
    if es.finish_if_done(true) {
        shown.push(OverlayState::Idle);
    }
    let step = es.on_command(TtsCommand::Speak { text: s("Again.") });
    shown.extend(step.overlay);
    shown.push(es.on_first_chunk(false));
    assert_eq!(
        shown,
        vec![
            OverlayState::Synthesizing,
            OverlayState::Reading,
            OverlayState::Idle,
            OverlayState::Synthesizing,
            OverlayState::Idle
        ]
    );
    assert!(!es.playing);
}

#[test]
fn synthesis_retries_once_on_a_new_connection() {
    assert_eq!(after_synthesis(false, true), SynthNext::Done);
    assert_eq!(after_synthesis(true, true), SynthNext::Done);
    assert_eq!(after_synthesis(false, false), SynthNext::Reconnect);
    assert_eq!(after_synthesis(true, false), SynthNext::GiveUp);
}

#[test]
fn no_chunk_of_a_stopped_read_is_handed_out() {
    let mut es = EdgeSession::new(String::new(), 1000);
    es.on_command(TtsCommand::Speak {
        text: s("The first sentence is long enough. The second sentence is long enough. Third one."),
    });
    es.on_first_chunk(true);
    es.on_command(TtsCommand::Stop);
    assert_eq!(es.next_chunk(0), None);
    let step = es.on_command(TtsCommand::Speak { text: s("A different text that is long enough. Tail.") });
    assert_eq!(step.synthesize.as_deref(), Some("A different text that is long enough."));
    es.on_first_chunk(true);
    assert_eq!(es.next_chunk(0).as_deref(), Some("Tail."));
    assert_eq!(es.next_chunk(0), None);
}
