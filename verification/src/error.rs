//! Errors of configuration and of chunk generation.

use vstd::prelude::*;

verus! {

/// Why a configuration table was rejected when it was loaded.
#[derive(Clone, Copy, Debug, PartialEq, Eq, Structural)]
pub enum ConfigError {
    /// A threshold table needs at least two bounds to delimit one layer.
    TooFewThresholds,
    /// A threshold is not greater than the one before it.
    ThresholdsNotAscending,
    /// A variant table has no entry.
    NoVariants,
    /// The first key of a variant table is not zero, so small draws select nothing.
    FirstKeyNotZero,
    /// A key of a variant table is not greater than the one before it.
    KeysNotAscending,
    /// An art index or an offset is above `ART_LIMIT`.
    ArtOutOfRange,
    /// A corner mask has a bit outside the eight neighbour bits.
    MaskOutOfRange,
    /// A corner mask occurs twice.
    DuplicateMask,
    /// A chunk or a tile has no extent.
    EmptyExtent,
    /// A chunk is wider or higher in pixels than `i32` can count.
    ExtentTooLarge,
    /// The despawn distance is below the reach of the spawn window, so a
    /// chunk could be spawned and despawned in turn.
    DespawnInsideSpawn,
}

/// Why a chunk could not be generated from the configured tables.
#[derive(Clone, Copy, Debug, PartialEq, Eq, Structural)]
pub enum TileError {
    /// No art is configured for this terrain level.
    MissingLevel(u32),
    /// The corner table has no entry for this edge mask.
    MissingMask(u32),
}

} // verus!
