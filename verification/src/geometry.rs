//! Scalars and points in which event positions and scroll amounts are carried.

use vstd::prelude::*;

verus! {

/// A length in device pixels.
///
/// The value is kept as the 32-bit pattern of its single-precision encoding, so
/// it is carried, copied and compared bit for bit. The all-zero pattern is zero
/// pixels.
#[derive(Clone, Copy, Debug, PartialEq, Eq, Hash, Structural)]
pub struct Pixels {
    pub bits: u32,
}

impl Pixels {
    /// Wraps an encoded pixel length.
    pub fn from_bits(bits: u32) -> (r: Pixels)
        ensures
            r.bits == bits,
    {
        Pixels { bits }
    }

    /// The encoded pixel length.
    pub fn to_bits(self) -> (r: u32)
        ensures
            r == self.bits,
    {
        self.bits
    }
}

impl Default for Pixels {
    fn default() -> (r: Pixels)
        ensures
            r.bits == 0,
    {
        Pixels { bits: 0 }
    }
}

/// A count of text lines, possibly fractional, encoded like [`Pixels`].
#[derive(Clone, Copy, Debug, PartialEq, Eq, Hash, Structural)]
pub struct Lines {
    pub bits: u32,
}

impl Lines {
    /// Wraps an encoded line count.
    pub fn from_bits(bits: u32) -> (r: Lines)
        ensures
            r.bits == bits,
    {
        Lines { bits }
    }

    /// The encoded line count.
    pub fn to_bits(self) -> (r: u32)
        ensures
            r == self.bits,
    {
        self.bits
    }
}

impl Default for Lines {
    fn default() -> (r: Lines)
        ensures
            r.bits == 0,
    {
        Lines { bits: 0 }
    }
}

/// A point, or a displacement, in two dimensions.
#[derive(Clone, Copy, Debug, PartialEq, Eq, Hash, Default)]
pub struct Point<T> {
    pub x: T,
    pub y: T,
}

/// Builds a point from its two coordinates.
pub fn point<T>(x: T, y: T) -> (r: Point<T>)
    ensures
        r.x == x,
        r.y == y,
{
    Point { x, y }
}

} // verus!
