use vstd::prelude::*;
use crate::scalar::Scalar;
use crate::vec3::Vec3;

verus! {

/// A half-line: where it starts, which way it runs, and the moment at which
/// it is cast, by which moving primitives are placed.
#[derive(Clone, Copy, Debug, PartialEq, Eq, Structural)]
pub struct Ray {
    pub origin: Vec3,
    pub direction: Vec3,
    pub time: Scalar,
}

impl Ray {
    /// A ray cast at time zero.
    pub fn new(origin: Vec3, direction: Vec3) -> (ray: Ray)
        ensures
            ray.origin == origin,
            ray.direction == direction,
            ray.time.bits == 0,
    {
        Ray { origin, direction, time: Scalar::zero() }
    }

    /// A ray cast at the given time.
    pub fn at_time(origin: Vec3, direction: Vec3, time: Scalar) -> (ray: Ray)
        ensures
            ray.origin == origin,
            ray.direction == direction,
            ray.time == time,
    {
        Ray { origin, direction, time }
    }
}

} // verus!
