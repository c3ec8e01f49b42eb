//! The status shown to the user while the reader works.
use vstd::prelude::*;

verus! {

/// What the reader is doing: nothing, synthesising speech, or speaking.
#[derive(Debug, Clone, Copy, PartialEq, Eq, Structural)]
pub enum OverlayState {
    Idle,
    Synthesizing,
    Reading,
}

} // verus!
