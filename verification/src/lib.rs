//! Offline mesh preprocessing: builds a hierarchical, cluster-based
//! level-of-detail representation of a triangle mesh and packs it into a
//! memory-mappable binary asset (the LAD format).
//!
//! Geometry attributes (positions, normals, texture coordinates, error
//! bounds) are carried as IEEE-754 bit patterns in `u32` fields. For
//! non-negative values the unsigned order of the bit patterns coincides with
//! the numeric order, so the monotone-error invariants of the cluster graph
//! are plain integer facts.

use vstd::prelude::*;

pub mod builder;
pub mod checker;
pub mod codec;
pub mod device;
pub mod error;
pub mod instance;
pub mod partitioner;
pub mod types;
pub mod welder;

verus! {

/// A level-0 cluster never holds more than this many vertices.
pub const MAX_CLUSTER_VERTICES: u32 = 64;

/// A level-0 cluster never holds more than this many triangles.
pub const MAX_CLUSTER_TRIANGLES: u32 = 124;

/// Bit pattern of +infinity: the `parent_error` of a cluster that no coarser
/// level has replaced yet.
pub const INFINITY_BITS: u32 = 0x7F80_0000;

/// A bit pattern below this bound encodes a finite, non-negative value.
pub open spec fn finite_error_bits(b: u32) -> bool {
    b < INFINITY_BITS
}

/// A bit pattern at or below the infinity pattern encodes a non-negative
/// value that is not a NaN.
pub open spec fn valid_error_bits(b: u32) -> bool {
    b <= INFINITY_BITS
}

/// Whether a bit pattern encodes a finite, non-negative value.
pub fn is_finite_error_bits(b: u32) -> (r: bool)
    ensures
        r == finite_error_bits(b),
{
    b < INFINITY_BITS
}

} // verus!
