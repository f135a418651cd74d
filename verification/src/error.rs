//! Structured errors reported by the analysis entry points.

use vstd::prelude::*;

verus! {

/// Everything that an analysis entry point can report instead of a result.
///
/// The first three describe invalid input; the last four are defensive
/// internal-consistency conditions and capacity limits.
#[derive(Clone, Copy, Debug, PartialEq, Eq, Structural)]
pub enum MahjongError {
    /// The concealed tile count is not of the form 3k+2, or the hand holds
    /// more tiles than a full hand may.
    InvalidHandShape,
    /// A tile's rank lies outside its suit's legal range.
    InvalidTile,
    /// A declared open group is not a well-shaped run, triplet or quad.
    InvalidMeld,
    /// The search produced no decomposition for a non-empty hand.
    NoDecomposition,
    /// A computed distance fell below the valid floor.
    ShantenBelowFloor,
    /// The tile pool already holds all four copies of the tile.
    HaiyamaFull,
    /// The tile pool holds no copy of the tile.
    HaiyamaEmpty,
}

} // verus!
