use vstd::prelude::*;
use crate::scalar::Scalar;

verus! {

/// A place on a surface, in the surface's own two coordinates.
#[derive(Clone, Copy, Debug, PartialEq, Eq, Structural)]
pub struct Uv {
    pub u: Scalar,
    pub v: Scalar,
}

impl Uv {
    pub fn new(u: Scalar, v: Scalar) -> (uv: Uv)
        ensures
            uv.u == u,
            uv.v == v,
    {
        Uv { u, v }
    }
}

} // verus!
