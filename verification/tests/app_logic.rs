use tts_read::autostart::{autostart_action, AutostartAction};
use tts_read::capture::{
    after_accessibility, after_copy, alt_released, join_selection, keep_waiting, normalize_selection,
    CaptureStep, ClipboardRestore, SavedClipboard, ALT_RELEASE_WAIT_MS, COPY_WAIT_MS,
};
use tts_read::config::{app_data_dir_in, config_path, config_path_in, default_engine, default_speed, Config, ConfigError};
use tts_read::hotkey::HotkeyEvent;
use tts_read::overlay::OverlayState;
use tts_read::tray::{only_checked, speed_options, ControlEvent, MenuTarget, TrayMenu};
use tts_read::tts::TtsCommand;
use tts_read::worker::{worker_step, WorkerEvent};

fn s(x: &str) -> String {
    x.to_string()
}

#[test]
fn config_defaults() {
    let c = Config::default();
    assert_eq!(c.hotkey, "alt+r");
    assert_eq!(c.engine, "edge");
    assert_eq!(c.voice, "");
    assert_eq!(c.speed, 1000);
    assert!(c.autostart);
    assert_eq!(default_engine(), "edge");
    assert_eq!(default_speed(), 1000);
    let c = Config::from_stored(s("ctrl+q"), None, None, None, false);
    assert_eq!((c.engine.as_str(), c.voice.as_str(), c.speed, c.autostart), ("edge", "", 1000, false));
    let c = Config::from_stored(s("ctrl+q"), Some(s("native")), Some(s("Alex")), Some(1500), true);
    assert_eq!((c.engine.as_str(), c.voice.as_str(), c.speed), ("native", "Alex", 1500));
}

#[test]
fn config_file_location() {
    if let Ok(p) = config_path() {
        assert!(p.ends_with("config.json"));
        let dir = std::path::Path::new(&p).parent().unwrap();
        assert!(dir.ends_with("TTSRead"));
        assert_ne!(p, "config.json");
    }
}

#[test]
fn config_path_under_data_dir() {
    assert_eq!(config_path_in(None), Err(ConfigError::NoDataDir));
    assert_eq!(app_data_dir_in(None), Err(ConfigError::NoDataDir));
    assert_eq!(app_data_dir_in(Some(s("/home/u/.local/share"))), Ok(s("/home/u/.local/share/TTSRead")));
    assert_eq!(
        config_path_in(Some(s("/home/u/.local/share"))),
        Ok(s("/home/u/.local/share/TTSRead/config.json"))
    );
    assert_eq!(config_path_in(Some(s("/data/"))), Ok(s("/data/TTSRead/config.json")));
    assert_eq!(config_path_in(Some(s(""))), Ok(s("TTSRead/config.json")));
}

#[test]
fn speed_menu() {
    let opts = speed_options();
    assert_eq!(opts.len(), 16);
    assert_eq!(opts[0].value, 500);
    assert_eq!(opts[0].label, "0.5\u{d7} (half)");
    assert_eq!(opts[5].label, "1.0\u{d7} (normal)");
    assert_eq!(opts[15].value, 2000);
    assert_eq!(opts[15].label, "2.0\u{d7} (double)");
}

#[test]
fn tray_initial_checks() {
    let m = TrayMenu::new(vec![s("a"), s("b")], "", 1000);
    assert_eq!(*m.voice_checked(), vec![true, false]);
    assert_eq!(m.speed_checked().iter().filter(|c| **c).count(), 1);
    assert!(m.speed_checked()[5]);
    let m = TrayMenu::new(vec![s("a"), s("b")], "b", 1250);
    assert_eq!(*m.voice_checked(), vec![false, true]);
    assert!(m.speed_checked().iter().all(|c| !c));
    let m = TrayMenu::new(vec![s("a")], "zz", 1209);
    assert_eq!(*m.voice_checked(), vec![false]);
    assert!(m.speed_checked()[7]);
}

#[test]
fn tray_clicks() {
    let mut m = TrayMenu::new(vec![s("a"), s("b"), s("c")], "a", 1000);
    match m.handle_click(MenuTarget::Voice(2)) {
        Some(ControlEvent::SetVoice(v)) => assert_eq!(v, "c"),
        other => panic!("unexpected {other:?}"),
    }
    assert_eq!(*m.voice_checked(), vec![false, false, true]);
    match m.handle_click(MenuTarget::Speed(10)) {
        Some(ControlEvent::SetSpeed(v)) => assert_eq!(v, 1500),
        other => panic!("unexpected {other:?}"),
    }
    assert_eq!(m.speed_checked().iter().filter(|c| **c).count(), 1);
    assert!(m.speed_checked()[10]);
    assert_eq!(*m.voice_checked(), vec![false, false, true]);
    assert!(m.handle_click(MenuTarget::Voice(3)).is_none());
    assert!(m.handle_click(MenuTarget::Other).is_none());
    assert!(matches!(m.handle_click(MenuTarget::Quit), Some(ControlEvent::Quit)));
    assert_eq!(only_checked(3, 1), vec![false, true, false]);
}

#[test]
fn worker_toggles_on_hotkey() {
    let mut cfg = Config::default();
    let st = worker_step(&mut cfg, OverlayState::Idle, WorkerEvent::Hotkey(HotkeyEvent::Triggered));
    assert!(st.capture && st.send.is_none());
    let st = worker_step(&mut cfg, OverlayState::Idle, WorkerEvent::Captured(Some(s("read me"))));
    assert_eq!(st.overlay, Some(OverlayState::Synthesizing));
    assert!(st.overlay_first);
    assert!(matches!(st.send, Some(TtsCommand::Speak { ref text }) if text == "read me"));
    let st = worker_step(&mut cfg, OverlayState::Synthesizing, WorkerEvent::Hotkey(HotkeyEvent::Triggered));
    assert!(matches!(st.send, Some(TtsCommand::Stop)));
    assert_eq!(st.overlay, Some(OverlayState::Idle));
    assert!(!st.overlay_first);
    assert!(!st.capture);
    let st = worker_step(&mut cfg, OverlayState::Reading, WorkerEvent::Hotkey(HotkeyEvent::Triggered));
    assert!(matches!(st.send, Some(TtsCommand::Stop)));
    let st = worker_step(&mut cfg, OverlayState::Idle, WorkerEvent::Captured(None));
    assert!(st.send.is_none() && st.overlay.is_none());
}

#[test]
fn worker_applies_tray_choices() {
    let mut cfg = Config::default();
    let st = worker_step(&mut cfg, OverlayState::Idle, WorkerEvent::Control(ControlEvent::SetVoice(s("Alex"))));
    assert!(st.save_config);
    assert_eq!(cfg.voice, "Alex");
    assert!(matches!(st.send, Some(TtsCommand::SetVoice(ref v)) if v == "Alex"));
    let st = worker_step(&mut cfg, OverlayState::Idle, WorkerEvent::Control(ControlEvent::SetSpeed(1700)));
    assert!(st.save_config);
    assert_eq!(cfg.speed, 1700);
    assert!(matches!(st.send, Some(TtsCommand::SetSpeed(1700))));
    let st = worker_step(&mut cfg, OverlayState::Reading, WorkerEvent::Control(ControlEvent::Quit));
    assert!(st.exit && !st.save_config);
    assert!(matches!(st.send, Some(TtsCommand::Quit)));
    let st = worker_step(&mut cfg, OverlayState::Idle, WorkerEvent::ListenerClosed);
    assert!(st.exit);
    assert!(matches!(st.send, Some(TtsCommand::Quit)));
}

#[test]
fn selection_capture() {
    assert_eq!(normalize_selection(Some(s("  hi there \n"))), Some(s("hi there")));
    assert_eq!(normalize_selection(Some(s(" \t\n"))), None);
    assert_eq!(normalize_selection(None), None);
    assert_eq!(join_selection(&vec![Some(s(" a")), None, Some(s("b "))]), Some(s("ab")));
    assert_eq!(join_selection(&vec![None, Some(s("  "))]), None);
    assert_eq!(join_selection(&vec![]), None);
    assert!(alt_released(0, 0x7fff, 1));
    assert!(!alt_released(0x8001, 0, 0));
    assert!(!alt_released(0, 0, 0x8000));
}

#[test]
fn autostart_decisions() {
    assert_eq!(autostart_action(true, false), AutostartAction::Enable);
    assert_eq!(autostart_action(true, true), AutostartAction::Keep);
    assert_eq!(autostart_action(false, true), AutostartAction::Disable);
    assert_eq!(autostart_action(false, false), AutostartAction::Keep);
}

#[test]
fn stored_settings_read_back_unchanged() {
    let c = Config::from_stored(s("ctrl+shift+x"), Some(s("native")), Some(s("Zira")), Some(700), false);
    let back = Config::from_stored(
        c.hotkey.clone(),
        Some(c.engine.clone()),
        Some(c.voice.clone()),
        Some(c.speed),
        c.autostart,
    );
    assert_eq!(
        (back.hotkey, back.engine, back.voice, back.speed, back.autostart),
        (c.hotkey, c.engine, c.voice, c.speed, c.autostart)
    );
}

#[test]
fn capture_prefers_accessibility_then_restores_clipboard() {
    match after_accessibility(Some(Some(s("picked")))) {
        CaptureStep::Done(Some(t)) => assert_eq!(t, "picked"),
        other => panic!("unexpected {:?}", other),
    }
    assert!(matches!(after_accessibility(Some(None)), CaptureStep::UseClipboard));
    assert!(matches!(after_accessibility(None), CaptureStep::UseClipboard));
    // the copy changed the clipboard: its text is the selection, the old text goes back
    let (sel, back) = after_copy(SavedClipboard::Text(s("old")), true, Some(s("  new text \n")));
    assert_eq!(sel, Some(s("new text")));
    assert!(matches!(back, ClipboardRestore::Text(t) if t == "old"));
    // nothing selected: the clipboard still holds the old text, which is no selection
    let (sel, back) = after_copy(SavedClipboard::Text(s("old")), false, Some(s("old")));
    assert_eq!(sel, None);
    assert!(matches!(back, ClipboardRestore::Text(t) if t == "old"));
    // an image is put back, an empty clipboard is emptied again
    let (sel, back) = after_copy(SavedClipboard::Image, true, Some(s("   ")));
    assert_eq!(sel, None);
    assert!(matches!(back, ClipboardRestore::Image));
    let (sel, back) = after_copy(SavedClipboard::Empty, true, Some(s("picked")));
    assert_eq!(sel, Some(s("picked")));
    assert!(matches!(back, ClipboardRestore::Clear));
}

#[test]
fn waits_end_when_done_or_late() {
    assert!(keep_waiting(0, COPY_WAIT_MS, false));
    assert!(keep_waiting(599, COPY_WAIT_MS, false));
    assert!(!keep_waiting(600, COPY_WAIT_MS, false));
    assert!(!keep_waiting(10, ALT_RELEASE_WAIT_MS, true));
    assert_eq!((ALT_RELEASE_WAIT_MS, COPY_WAIT_MS), (400, 600));
}
