//! Modes of the audio gate: what the recognizer hears.

use vstd::prelude::*;

verus! {

/// Idle: nothing is forwarded, so the recognizer waits and does no work.
pub const NONE: u8 = 0;

/// Draining: silence is forwarded, so that the trailing utterance is flushed.
pub const SILENCE: u8 = 1;

/// Listening: microphone audio is forwarded.
pub const REAL: u8 = 2;

}
