//! Speech engines: the commands they accept, speed arithmetic shared by
//! them, and the choice between them. The engine named "native" is the
//! platform's own speech; any other name selects Edge's neural voices.
pub mod edge;
pub mod kokoro;
pub mod native;

use crate::text::{chars_of, spells};
use vstd::prelude::*;

verus! {

/// Commands sent from the worker to the speech engine. Speeds are in
/// thousandths of normal speed (1000 is normal, 1500 is 50% faster).
#[derive(Debug)]
pub enum TtsCommand {
    Speak { text: String },
    Stop,
    SetVoice(String),
    SetSpeed(i32),
    Quit,
}

/// Normal speed, in thousandths.
pub const NORMAL_SPEED: i32 = 1000;

/// Slowest speed an engine accepts from a speed change.
pub const MIN_SPEED: i32 = 500;

/// Fastest speed an engine accepts from a speed change.
pub const MAX_SPEED: i32 = 3000;

/// `x` limited to `[lo, hi]`.
pub open spec fn clamp(x: int, lo: int, hi: int) -> int {
    if x < lo {
        lo
    } else if x > hi {
        hi
    } else {
        x
    }
}

/// `n / d` rounded to the nearest integer, halves away from zero (as
/// `f32::round`), for `d > 0`.
pub open spec fn round_div(n: int, d: int) -> int {
    if n >= 0 {
        (2 * n + d) / (2 * d)
    } else {
        -((-2 * n + d) / (2 * d))
    }
}

/// A requested speed limited to what the engines accept.
pub fn clamp_speed(speed: i32) -> (r: i32)
    ensures
        r == clamp(speed as int, MIN_SPEED as int, MAX_SPEED as int),
{
    if speed < MIN_SPEED {
        MIN_SPEED
    } else if speed > MAX_SPEED {
        MAX_SPEED
    } else {
        speed
    }
}

/// Which engine serves a configured engine name.
#[derive(Debug, Clone, Copy, PartialEq, Eq, Structural)]
pub enum EngineKind {
    Edge,
    Native,
}

/// The engine that an engine name selects.
pub open spec fn engine_kind_spec(engine: Seq<char>) -> EngineKind {
    if engine == "native"@ {
        EngineKind::Native
    } else {
        EngineKind::Edge
    }
}

/// The engine that an engine name selects.
pub fn engine_kind(engine: &str) -> (k: EngineKind)
    ensures
        k == engine_kind_spec(engine@),
{
    if spells(&chars_of(engine), "native") {
        EngineKind::Native
    } else {
        EngineKind::Edge
    }
}

/// The voices of the engine named `engine`: the Edge voice list, or, for the
/// native engine, `native_voices`, the list that the platform reported.
pub fn list_voices_for(engine: &str, native_voices: Vec<String>) -> (v: Vec<String>)
    ensures
        engine_kind_spec(engine@) == EngineKind::Native ==> v@ == native_voices@,
        engine_kind_spec(engine@) == EngineKind::Edge ==> crate::text::views(v@) == edge::edge_voices(),
{
    match engine_kind(engine) {
        EngineKind::Native => native_voices,
        EngineKind::Edge => edge::list_voices(),
    }
}

} // verus!
