//! Scores, in centipawns from the point of view of the side to move.

use vstd::prelude::*;

verus! {

/// A score in centipawns.
pub type Value = i32;

/// The score of a drawn position.
pub const DRAW: Value = 0;

/// The score of a side that is checkmated, before the distance to the mate
/// is taken into account.
pub const MATE: Value = -25_000;

/// Above every score that a search returns.
pub const INFINITE: Value = 30_001;

/// Below every score that a search returns.
pub const NEG_INFINITE: Value = -30_001;

/// Whether a value lies strictly between the two infinities.
pub open spec fn finite(v: int) -> bool {
    NEG_INFINITE < v && v < INFINITE
}

} // verus!
