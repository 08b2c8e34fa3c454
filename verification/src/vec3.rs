use vstd::prelude::*;
use crate::scalar::Scalar;

verus! {

/// Three scalars: a point, a direction or a colour, as the caller means it.
#[derive(Clone, Copy, Debug, PartialEq, Eq, Structural)]
pub struct Vec3 {
    pub x: Scalar,
    pub y: Scalar,
    pub z: Scalar,
}

impl Vec3 {
    /// The component on axis 0, 1 or 2.
    pub open spec fn spec_axis(self, axis: int) -> Scalar {
        if axis == 0 {
            self.x
        } else if axis == 1 {
            self.y
        } else {
            self.z
        }
    }

    pub fn new(x: Scalar, y: Scalar, z: Scalar) -> (v: Vec3)
        ensures
            v.x == x,
            v.y == y,
            v.z == z,
    {
        Vec3 { x, y, z }
    }

    /// The vector whose three components hold the same bit pattern.
    pub fn from_element(s: Scalar) -> (v: Vec3)
        ensures
            v.x == s,
            v.y == s,
            v.z == s,
    {
        Vec3 { x: s, y: s, z: s }
    }

    /// The component on axis 0, 1 or 2.
    pub fn axis(&self, axis: usize) -> (s: Scalar)
        requires
            axis < 3,
        ensures
            s == self.spec_axis(axis as int),
    {
        if axis == 0 {
            self.x
        } else if axis == 1 {
            self.y
        } else {
            self.z
        }
    }
}

} // verus!
