//! Kokoro-82M, a local neural engine that is not wired in yet.
use vstd::prelude::*;

verus! {

/// Placeholder for the local neural engine.
pub struct KokoroEngine;

} // verus!
