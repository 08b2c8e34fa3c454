use vstd::prelude::*;
use crate::scalar::Scalar;
use crate::vec3::Vec3;

verus! {

/// What a camera is made from: where the eye is, what it looks at, which
/// way is up, the vertical field of view in degrees, the ratio of width to
/// height, the width of the lens, and the distance at which things are sharp.
#[derive(Clone, Copy, Debug, PartialEq, Eq, Structural)]
pub struct CameraBuilder {
    pub pos: Vec3,
    pub lookat: Vec3,
    pub up: Vec3,
    pub fov_vert_deg: Scalar,
    pub aspect_ratio: Scalar,
    pub aperture: Scalar,
    pub focus_dist: Scalar,
}

/// Bit pattern of minus one.
pub const MINUS_ONE_BITS: u32 = 0xbf80_0000;

/// Bit pattern of ninety.
pub const NINETY_BITS: u32 = 0x42b4_0000;

/// Bit pattern of sixteen ninths, rounded to the nearest pattern.
pub const SIXTEEN_NINTHS_BITS: u32 = 0x3fe3_8e39;

/// Bit pattern of one tenth, rounded to the nearest pattern.
pub const ONE_TENTH_BITS: u32 = 0x3dcc_cccd;

/// Bit pattern of ten.
pub const TEN_BITS: u32 = 0x4120_0000;

impl CameraBuilder {
    /// The configuration of a camera of which nothing was said: the eye at
    /// the origin looks down the negative third axis with the second axis
    /// up, through a lens one tenth wide that is sharp at distance ten, and
    /// sees ninety degrees of a picture that is sixteen wide and nine high.
    pub open spec fn spec_default() -> CameraBuilder {
        CameraBuilder {
            pos: Vec3 { x: Scalar::zero(), y: Scalar::zero(), z: Scalar::zero() },
            lookat: Vec3 {
                x: Scalar::zero(),
                y: Scalar::zero(),
                z: Scalar { bits: MINUS_ONE_BITS },
            },
            up: Vec3 { x: Scalar::zero(), y: Scalar::one(), z: Scalar::zero() },
            fov_vert_deg: Scalar { bits: NINETY_BITS },
            aspect_ratio: Scalar { bits: SIXTEEN_NINTHS_BITS },
            aperture: Scalar { bits: ONE_TENTH_BITS },
            focus_dist: Scalar { bits: TEN_BITS },
        }
    }

    pub fn pos(self, pos: Vec3) -> (builder: Self)
        ensures
            builder == (CameraBuilder { pos, ..self }),
    {
        CameraBuilder { pos, ..self }
    }

    pub fn lookat(self, lookat: Vec3) -> (builder: Self)
        ensures
            builder == (CameraBuilder { lookat, ..self }),
    {
        CameraBuilder { lookat, ..self }
    }

    pub fn up(self, up: Vec3) -> (builder: Self)
        ensures
            builder == (CameraBuilder { up, ..self }),
    {
        CameraBuilder { up, ..self }
    }

    pub fn fov_vert_deg(self, fov_vert_deg: Scalar) -> (builder: Self)
        ensures
            builder == (CameraBuilder { fov_vert_deg, ..self }),
    {
        CameraBuilder { fov_vert_deg, ..self }
    }

    pub fn aspect_ratio(self, aspect_ratio: Scalar) -> (builder: Self)
        ensures
            builder == (CameraBuilder { aspect_ratio, ..self }),
    {
        CameraBuilder { aspect_ratio, ..self }
    }

    pub fn aperture(self, aperture: Scalar) -> (builder: Self)
        ensures
            builder == (CameraBuilder { aperture, ..self }),
    {
        CameraBuilder { aperture, ..self }
    }

    pub fn focus_dist(self, focus_dist: Scalar) -> (builder: Self)
        ensures
            builder == (CameraBuilder { focus_dist, ..self }),
    {
        CameraBuilder { focus_dist, ..self }
    }
}

impl Default for CameraBuilder {
    fn default() -> (builder: Self)
        ensures
            builder == Self::spec_default(),
    {
        CameraBuilder {
            pos: Vec3::new(Scalar::zero(), Scalar::zero(), Scalar::zero()),
            lookat: Vec3::new(Scalar::zero(), Scalar::zero(), Scalar::from_bits(MINUS_ONE_BITS)),
            up: Vec3::new(Scalar::zero(), Scalar::one(), Scalar::zero()),
            fov_vert_deg: Scalar::from_bits(NINETY_BITS),
            aspect_ratio: Scalar::from_bits(SIXTEEN_NINTHS_BITS),
            aperture: Scalar::from_bits(ONE_TENTH_BITS),
            focus_dist: Scalar::from_bits(TEN_BITS),
        }
    }
}

} // verus!
