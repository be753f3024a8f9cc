//! Engine-wide limits and the compile-time markers of node kinds.

use vstd::prelude::*;

verus! {

/// The deepest ply that a search reaches.
pub const MAX_PLY: u16 = 126;

/// Frames of per-ply state that a worker keeps.
pub const THREAD_STACK_SIZE: usize = 133;

/// The largest number of worker threads.
pub const MAX_THREADS: usize = 256;

/// Size of the transposition table in megabytes when none is asked for.
pub const DEFAULT_TT_SIZE: usize = 256;

/// Entries of a worker's pawn table.
pub const PAWN_TABLE_SIZE: usize = 16384;

/// Entries of a worker's material table.
pub const MATERIAL_TABLE_SIZE: usize = 8192;

/// Says at compile time whether a node lies on the principal variation.
pub trait PVNode {
    /// Whether nodes of this kind lie on the principal variation.
    spec fn pv() -> bool;

    /// Returns whether nodes of this kind lie on the principal variation.
    fn is_pv() -> (b: bool)
        ensures
            b == Self::pv(),
    ;
}

/// A node on the principal variation.
pub struct PV {}

/// A node off the principal variation.
pub struct NonPV {}

impl PVNode for PV {
    open spec fn pv() -> bool {
        true
    }

    fn is_pv() -> (b: bool) {
        true
    }
}

impl PVNode for NonPV {
    open spec fn pv() -> bool {
        false
    }

    fn is_pv() -> (b: bool) {
        false
    }
}

/// Says at compile time whether the side to move is in check.
pub trait CheckState {
    /// Whether the side to move is in check in nodes of this kind.
    spec fn checked() -> bool;

    /// Returns whether the side to move is in check in nodes of this kind.
    fn in_check() -> (b: bool)
        ensures
            b == Self::checked(),
    ;
}

/// The side to move is in check.
pub struct InCheck {}

/// The side to move is not in check.
pub struct NoCheck {}

impl CheckState for InCheck {
    open spec fn checked() -> bool {
        true
    }

    fn in_check() -> (b: bool) {
        true
    }
}

impl CheckState for NoCheck {
    open spec fn checked() -> bool {
        false
    }

    fn in_check() -> (b: bool) {
        false
    }
}

} // verus!
