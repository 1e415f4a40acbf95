use vstd::prelude::*;

verus! {

/// A point (or direction) on the integer lattice.
#[derive(Clone, Copy, Debug, PartialEq, Eq, Structural, Hash)]
pub struct Point3 {
    pub x: i32,
    pub y: i32,
    pub z: i32,
}

/// The lattice point with the given integer coordinates (which must fit in `i32`).
pub open spec fn pt(x: int, y: int, z: int) -> Point3 {
    Point3 { x: x as i32, y: y as i32, z: z as i32 }
}

/// Whether `v` fits in an `i32`.
pub open spec fn fits_i32(v: int) -> bool {
    i32::MIN <= v <= i32::MAX
}

impl Point3 {
    /// Builds a point from its coordinates.
    pub fn new(x: i32, y: i32, z: i32) -> (p: Point3)
        ensures
            p == (Point3 { x, y, z }),
    {
        Point3 { x, y, z }
    }

    /// The origin.
    pub fn zero() -> (p: Point3)
        ensures
            p == pt(0, 0, 0),
    {
        Point3 { x: 0, y: 0, z: 0 }
    }

    /// The point whose three coordinates are all `i32::MAX`.
    pub fn max() -> (p: Point3)
        ensures
            p == pt(i32::MAX as int, i32::MAX as int, i32::MAX as int),
    {
        Point3 { x: i32::MAX, y: i32::MAX, z: i32::MAX }
    }

    /// `self + (dx, dy, dz)` as a point.
    pub open spec fn plus(self, dx: int, dy: int, dz: int) -> Point3 {
        pt(self.x + dx, self.y + dy, self.z + dz)
    }
}

} // verus!
