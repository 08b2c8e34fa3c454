use vstd::prelude::*;
use crate::hittable::HitRecord;
use crate::ray::Ray;
use crate::scalar::Scalar;
use crate::vec3::Vec3;

verus! {

/// What a surface does to a ray that it does not absorb: the ray that goes
/// on, and the colour by which what that ray gathers is multiplied.
#[derive(Clone, Copy, Debug, PartialEq, Eq, Structural)]
pub struct Scatter {
    pub ray: Ray,
    pub attenuation: Vec3,
}

impl Scatter {
    pub fn new(ray: Ray, attenuation: Vec3) -> (scatter: Scatter)
        ensures
            scatter.ray == ray,
            scatter.attenuation == attenuation,
    {
        Scatter { ray, attenuation }
    }
}

/// A ray from the point of a hit in the given direction, cast at time zero.
pub open spec fn ray_from(hit_record: HitRecord, direction: Vec3) -> Ray {
    Ray { origin: hit_record.p, direction, time: Scalar::zero() }
}

/// A diffuse surface.
#[derive(Clone, Copy, Debug, PartialEq, Eq, Structural)]
pub struct Lambertian {
    pub albedo: Vec3,
}

impl Lambertian {
    pub fn new(albedo: Vec3) -> (material: Lambertian)
        ensures
            material.albedo == albedo,
    {
        Lambertian { albedo }
    }

    /// Scatters into `scatter_dir`, the direction that the caller has drawn
    /// around the normal. A diffuse surface absorbs no ray, and it
    /// attenuates by its albedo whatever ray comes in and wherever it hits.
    pub fn scatter(&self, hit_record: &HitRecord, scatter_dir: Vec3) -> (scattered: Option<Scatter>)
        ensures
            scattered == Some(
                Scatter { ray: ray_from(*hit_record, scatter_dir), attenuation: self.albedo },
            ),
    {
        let ray = Ray::new(hit_record.p, scatter_dir);
        Some(Scatter::new(ray, self.albedo))
    }
}

/// A mirror, blurred by `fuzziness`, which lies in `[0, 1]`.
#[derive(Clone, Copy, Debug, PartialEq, Eq, Structural)]
pub struct Metal {
    pub albedo: Vec3,
    pub fuzziness: Scalar,
}

impl Metal {
    /// The invariant of a metal: its fuzziness is a number from 0 to 1.
    pub open spec fn wf(self) -> bool {
        Scalar::zero().spec_le(self.fuzziness) && self.fuzziness.spec_le(Scalar::one())
    }

    /// The fuzziness is clamped: what is above 1 is taken as 1 and what is
    /// below 0 as 0; what is not a number is taken as 1.
    pub fn new(albedo: Vec3, fuzziness: Scalar) -> (material: Metal)
        ensures
            material.albedo == albedo,
            material.fuzziness == fuzziness.spec_min(Scalar::one()).spec_max(Scalar::zero()),
            material.wf(),
            Scalar::zero().spec_le(fuzziness) && fuzziness.spec_le(Scalar::one())
                ==> material.fuzziness == fuzziness,
    {
        Metal { albedo, fuzziness: fuzziness.min(Scalar::one()).max(Scalar::zero()) }
    }

    /// Scatters into `direction`, the blurred reflection that the caller
    /// has computed, unless that points into the surface: `facing` is the dot
    /// product of `direction` and the normal, and the ray is absorbed unless
    /// it is greater than zero.
    pub fn scatter(&self, hit_record: &HitRecord, direction: Vec3, facing: Scalar) -> (scattered:
        Option<Scatter>)
        ensures
            scattered == (if facing.spec_gt(Scalar::zero()) {
                Some(Scatter { ray: ray_from(*hit_record, direction), attenuation: self.albedo })
            } else {
                None
            }),
    {
        if facing.gt(Scalar::zero()) {
            let ray = Ray::new(hit_record.p, direction);
            Some(Scatter::new(ray, self.albedo))
        } else {
            None
        }
    }
}

/// Which side of a surface a ray comes from.
#[derive(Clone, Copy, Debug, PartialEq, Eq, Structural)]
pub enum Side {
    /// The ray runs against the normal: it enters the medium.
    Outside,
    /// The ray runs along the normal: it leaves the medium.
    Inside,
}

/// What a clear surface does to a ray.
#[derive(Clone, Copy, Debug, PartialEq, Eq, Structural)]
pub enum Bounce {
    Reflect,
    Refract,
}

/// A clear medium with an index of refraction.
#[derive(Clone, Copy, Debug, PartialEq, Eq, Structural)]
pub struct Dielectric {
    pub ir: Scalar,
}

impl Dielectric {
    /// Whether the ray cannot pass: the refraction ratio times the sine of
    /// the angle of incidence is greater than one.
    pub open spec fn spec_cannot_refract(scaled_sine: Scalar) -> bool {
        scaled_sine.spec_gt(Scalar::one())
    }

    /// Reflection where the ray cannot pass, and where the reflectance is
    /// greater than the number drawn; refraction otherwise.
    pub open spec fn spec_bounce(scaled_sine: Scalar, reflectance: Scalar, drawn: Scalar) -> Bounce {
        if Self::spec_cannot_refract(scaled_sine) || reflectance.spec_gt(drawn) {
            Bounce::Reflect
        } else {
            Bounce::Refract
        }
    }

    pub fn new(ir: Scalar) -> (material: Dielectric)
        ensures
            material.ir == ir,
    {
        Dielectric { ir }
    }

    /// The side that the ray comes from, by the dot product of its
    /// direction and the outward normal: from inside if that is greater than
    /// zero, from outside otherwise.
    pub fn side(facing: Scalar) -> (side: Side)
        ensures
            side == (if facing.spec_gt(Scalar::zero()) {
                Side::Inside
            } else {
                Side::Outside
            }),
    {
        if facing.gt(Scalar::zero()) {
            Side::Inside
        } else {
            Side::Outside
        }
    }

    /// Whether total internal reflection is certain.
    pub fn cannot_refract(scaled_sine: Scalar) -> (forced: bool)
        ensures
            forced == Self::spec_cannot_refract(scaled_sine),
    {
        scaled_sine.gt(Scalar::one())
    }

    /// Whether the ray is reflected or refracted. `scaled_sine` is the
    /// refraction ratio times the sine of the angle of incidence,
    /// `reflectance` the share of light that the surface reflects at that
    /// angle, and `drawn` a random number from 0 to 1.
    pub fn bounce(scaled_sine: Scalar, reflectance: Scalar, drawn: Scalar) -> (bounce: Bounce)
        ensures
            bounce == Self::spec_bounce(scaled_sine, reflectance, drawn),
    {
        if Self::cannot_refract(scaled_sine) || reflectance.gt(drawn) {
            Bounce::Reflect
        } else {
            Bounce::Refract
        }
    }

    /// Scatters into `direction`, which the caller has computed as
    /// `bounce` told. A clear medium absorbs nothing: every ray goes on, with
    /// all of its light.
    pub fn scatter(&self, hit_record: &HitRecord, direction: Vec3) -> (scattered: Option<Scatter>)
        ensures
            scattered == Some(
                Scatter {
                    ray: ray_from(*hit_record, direction),
                    attenuation: Vec3 { x: Scalar::one(), y: Scalar::one(), z: Scalar::one() },
                },
            ),
    {
        let ray = Ray::new(hit_record.p, direction);
        Some(Scatter::new(ray, Vec3::from_element(Scalar::one())))
    }
}

/// A ray that meets the surface head-on is never forced to reflect: where
/// the scaled sine is zero, of either sign, refraction is possible, and the
/// ray is refracted unless the reflectance is greater than the number drawn.
pub proof fn lemma_head_on_can_refract(scaled_sine: Scalar, reflectance: Scalar, drawn: Scalar)
    requires
        !scaled_sine.is_nan(),
        scaled_sine.rank() == 0,
    ensures
        !Dielectric::spec_cannot_refract(scaled_sine),
        !reflectance.spec_gt(drawn) ==> Dielectric::spec_bounce(scaled_sine, reflectance, drawn)
            == Bounce::Refract,
{
}

/// Beyond the critical angle, where the scaled sine is greater than one,
/// the ray is reflected whatever the reflectance and whatever is drawn.
pub proof fn lemma_beyond_critical_angle_reflects(
    scaled_sine: Scalar,
    reflectance: Scalar,
    drawn: Scalar,
)
    requires
        scaled_sine.spec_gt(Scalar::one()),
    ensures
        Dielectric::spec_cannot_refract(scaled_sine),
        Dielectric::spec_bounce(scaled_sine, reflectance, drawn) == Bounce::Reflect,
{
}

} // verus!
