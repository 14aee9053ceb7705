//! Text preparation and live comparison engine for a terminal typing trainer.
//!
//! The crate holds the pure text-processing and scoring algorithms that drive
//! rendering and scoring on every keystroke: finding the first position at
//! which the typed buffer diverges from the sample text, re-wrapping the
//! sample text so that fixed-width chunking never splits a word, counting
//! space runs, and computing the exact accuracy fraction for a session.
//! Everything around these algorithms (argument handling, terminal drawing,
//! the clock) lives outside this crate and hands plain values in.

use vstd::prelude::*;

pub mod chars;
pub mod diff;
pub mod metrics;
pub mod reflow;
pub mod reflow_laws;
pub mod spaces;

verus! {

/// Errors surfaced by the text-processing core.
#[derive(Clone, Copy, Debug, PartialEq, Eq, Structural)]
pub enum AppError {
    /// A required character index lies beyond the end of the text.
    IndexNotFound(usize),
    /// A single token is longer than the display width, so no line break can
    /// be placed before the line boundary at the given index.
    UnwrappableToken(usize),
    /// The time source could not produce a valid elapsed duration.
    ClockError,
}

} // verus!
