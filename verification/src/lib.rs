//! TTS Read: select text anywhere, press a hotkey, hear it read aloud.
//!
//! This crate holds the verified logic of the reader: the hotkey grammar and
//! key-combination tracking, sentence chunking for streamed synthesis, the
//! state machines that drive the speech engines and the worker, the tray
//! menu model, and the configuration defaults. Threads, devices, the network
//! and the operating system stay with the program that embeds it.
pub mod autostart;
pub mod capture;
pub mod config;
pub mod hotkey;
pub mod overlay;
pub mod text;
pub mod tray;
pub mod tts;
pub mod worker;
