//! Fixed-point geometry: machine coordinates and declared pattern spaces.

use vstd::prelude::*;

verus! {

/// A machine coordinate triple.
///
/// Each field counts half-tenths (1/20) of a machine unit. The output
/// protocol prints one decimal digit, i.e. tenths; the finer lattice exists
/// because centering a uniform grid on its origin halves a point spacing.
#[derive(Clone, Copy, Debug, PartialEq, Eq, Structural)]
pub struct Point3 {
    pub x: i64,
    pub y: i64,
    pub z: i64,
}

/// A declared pattern space: point counts along the two horizontal axes and
/// the number of vertical layers.
#[derive(Clone, Copy, Debug, PartialEq, Eq, Structural)]
pub struct Space {
    pub x: usize,
    pub y: usize,
    pub z: usize,
}

/// A physical bounding-volume size, one non-negative length per axis, held
/// in tenths (1/10) of a machine unit.
#[derive(Clone, Copy, Debug, PartialEq, Eq, Structural)]
pub struct Extent3 {
    pub x: i64,
    pub y: i64,
    pub z: i64,
}

} // verus!
