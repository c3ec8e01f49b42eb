//! The worker's decisions: what each tray event, hotkey press and captured
//! selection leads to. The hotkey toggles: pressed while the reader is busy
//! it stops speech; pressed while idle it captures the selection, which is
//! then read aloud.
use crate::config::Config;
use crate::hotkey::HotkeyEvent;
use crate::overlay::OverlayState;
use crate::tray::ControlEvent;
use crate::tts::TtsCommand;
use vstd::prelude::*;

verus! {

/// What the worker reacts to.
#[derive(Debug)]
pub enum WorkerEvent {
    /// A choice made in the tray menu.
    Control(ControlEvent),
    /// The hotkey fired.
    Hotkey(HotkeyEvent),
    /// The selection captured after a hotkey press (none when nothing was
    /// selected or capture failed).
    Captured(Option<String>),
    /// The hotkey listener went away.
    ListenerClosed,
}

/// What the worker does in answer.
#[derive(Debug)]
pub struct WorkerStep {
    /// Write the settings to disk.
    pub save_config: bool,
    /// The command for the speech engine.
    pub send: Option<TtsCommand>,
    /// The status to show, if it changes.
    pub overlay: Option<OverlayState>,
    /// Show the status before sending the command (rather than after), so
    /// that a new read shows as busy before the engine picks it up.
    pub overlay_first: bool,
    /// Capture the current selection.
    pub capture: bool,
    /// Leave the loop.
    pub exit: bool,
}

/// Whether a hotkey press stops speech rather than starting a read: the
/// reader is busy synthesising or reading.
pub open spec fn press_stops(overlay: OverlayState) -> bool {
    overlay != OverlayState::Idle
}

/// One worker decision. `cfg` holds the settings (changed by the tray) and
/// `overlay` the status shown when the event arrived.
pub fn worker_step(cfg: &mut Config, overlay: OverlayState, ev: WorkerEvent) -> (step: WorkerStep)
    ensures
        step.overlay_first == (ev matches WorkerEvent::Captured(Some(_))),
        match ev {
            WorkerEvent::Control(ControlEvent::SetVoice(name)) => {
                &&& final(cfg).voice == name
                &&& step.save_config
                &&& step.send matches Some(TtsCommand::SetVoice(n)) && n == name
                &&& step.overlay is None && !step.capture && !step.exit
                &&& final(cfg).speed == old(cfg).speed && final(cfg).engine == old(cfg).engine
                &&& final(cfg).hotkey == old(cfg).hotkey && final(cfg).autostart == old(cfg).autostart
            },
            WorkerEvent::Control(ControlEvent::SetSpeed(s)) => {
                &&& final(cfg).speed == s
                &&& step.save_config
                &&& step.send matches Some(TtsCommand::SetSpeed(t)) && t == s
                &&& step.overlay is None && !step.capture && !step.exit
                &&& final(cfg).voice == old(cfg).voice && final(cfg).engine == old(cfg).engine
                &&& final(cfg).hotkey == old(cfg).hotkey && final(cfg).autostart == old(cfg).autostart
            },
            WorkerEvent::Control(ControlEvent::Quit) => {
                &&& step.send matches Some(TtsCommand::Quit)
                &&& step.exit && !step.save_config && !step.capture && step.overlay is None
                &&& *final(cfg) == *old(cfg)
            },
            WorkerEvent::Hotkey(_) => {
                &&& *final(cfg) == *old(cfg)
                &&& !step.save_config && !step.exit
                &&& press_stops(overlay) ==> (step.send matches Some(TtsCommand::Stop)
                    && step.overlay == Some(OverlayState::Idle) && !step.capture)
                &&& !press_stops(overlay) ==> (step.send is None && step.overlay is None
                    && step.capture)
            },
            WorkerEvent::Captured(sel) => {
                &&& *final(cfg) == *old(cfg)
                &&& !step.save_config && !step.exit && !step.capture
                &&& match sel {
                    Some(text) => step.send matches Some(TtsCommand::Speak { text: t }) && t
                        == text && step.overlay == Some(OverlayState::Synthesizing),
                    None => step.send is None && step.overlay is None,
                }
            },
            WorkerEvent::ListenerClosed => {
                &&& *final(cfg) == *old(cfg)
                &&& step.send matches Some(TtsCommand::Quit)
                &&& step.exit && !step.save_config && !step.capture && step.overlay is None
            },
        },
{
    let quiet = WorkerStep {
        save_config: false,
        send: None,
        overlay: None,
        overlay_first: false,
        capture: false,
        exit: false,
    };
    match ev {
        WorkerEvent::Control(ControlEvent::SetVoice(name)) => {
            cfg.voice = name.clone();
            WorkerStep { save_config: true, send: Some(TtsCommand::SetVoice(name)), ..quiet }
        },
        WorkerEvent::Control(ControlEvent::SetSpeed(s)) => {
            cfg.speed = s;
            WorkerStep { save_config: true, send: Some(TtsCommand::SetSpeed(s)), ..quiet }
        },
        WorkerEvent::Control(ControlEvent::Quit) => {
            WorkerStep { send: Some(TtsCommand::Quit), exit: true, ..quiet }
        },
        WorkerEvent::Hotkey(_) => {
            if overlay != OverlayState::Idle {
                WorkerStep {
                    send: Some(TtsCommand::Stop),
                    overlay: Some(OverlayState::Idle),
                    ..quiet
                }
            } else {
                WorkerStep { capture: true, ..quiet }
            }
        },
        WorkerEvent::Captured(sel) => match sel {
            Some(text) => WorkerStep {
                send: Some(TtsCommand::Speak { text }),
                overlay: Some(OverlayState::Synthesizing),
                overlay_first: true,
                ..quiet
            },
            None => quiet,
        },
        WorkerEvent::ListenerClosed => {
            WorkerStep { send: Some(TtsCommand::Quit), exit: true, ..quiet }
        },
    }
}

/// The hotkey toggles: a read that has just started shows "synthesising",
/// so pressing again stops it, as it does while reading; once idle, a press
/// starts a new read.
pub proof fn lemma_press_again_stops()
    ensures
        press_stops(OverlayState::Synthesizing),
        press_stops(OverlayState::Reading),
        !press_stops(OverlayState::Idle),
{
}

} // verus!
