use vstd::prelude::*;
use crate::aabb::Aabb;
use crate::ray::Ray;
use crate::scalar::Scalar;
use crate::texture::Uv;
use crate::vec3::Vec3;

verus! {

/// Where a ray met a surface: the ray parameter, the point, the outward
/// normal, the surface coordinates, and the handle of the surface's material.
#[derive(Clone, Copy, Debug, PartialEq, Eq, Structural)]
pub struct HitRecord {
    pub p: Vec3,
    pub normal: Vec3,
    pub t: Scalar,
    pub material: usize,
    pub uv: Uv,
}

/// What an intersection routine answers for a primitive, a ray and the
/// interval `[t_min, t_max]`, as a mathematical function.
pub type HitOracle<T> = spec_fn(T, Ray, Scalar, Scalar) -> Option<HitRecord>;

/// What a primitive reports as its bounds, as a mathematical function.
pub type BoundsOracle<T> = spec_fn(T) -> Option<Aabb>;

/// Whether `oracle` tells what every call of `prim_hit` returns, where the
/// primitive is handed over by its index.
pub open spec fn hits_as<P: Fn(usize, &Ray, Scalar, Scalar) -> Option<HitRecord>>(
    prim_hit: P,
    oracle: HitOracle<usize>,
) -> bool {
    forall|i: usize, ray: Ray, lo: Scalar, hi: Scalar, r: Option<HitRecord>| #[trigger]
        call_ensures(prim_hit, (i, &ray, lo, hi), r) ==> r == oracle(i, ray, lo, hi)
}

/// Whether `oracle` tells what every call of `prim_hit` returns, where the
/// primitive is handed over by reference.
pub open spec fn answers_as<T, P: Fn(&T, &Ray, Scalar, Scalar) -> Option<HitRecord>>(
    prim_hit: P,
    oracle: HitOracle<T>,
) -> bool {
    forall|item: T, ray: Ray, lo: Scalar, hi: Scalar, r: Option<HitRecord>| #[trigger]
        call_ensures(prim_hit, (&item, &ray, lo, hi), r) ==> r == oracle(item, ray, lo, hi)
}

/// Whether `oracle` tells what every call of `bounds` returns.
pub open spec fn bounds_as<T, B: Fn(&T) -> Option<Aabb>>(bounds: B, oracle: BoundsOracle<T>) -> bool {
    forall|item: T, r: Option<Aabb>| #[trigger]
        call_ensures(bounds, (&item,), r) ==> r == oracle(item)
}

/// The upper end of the interval once `found` is known: a hit draws it in to
/// its own parameter.
pub open spec fn drawn_in(found: Option<HitRecord>, hi: Scalar) -> Scalar {
    match found {
        Some(h) => h.t,
        None => hi,
    }
}

/// What a scan of the primitives in order reports: each is asked within the
/// interval that the hits before it have left, and the last one that answers
/// is reported.
pub open spec fn scan_hit<T>(
    oracle: HitOracle<T>,
    items: Seq<T>,
    ray: Ray,
    lo: Scalar,
    hi: Scalar,
) -> Option<HitRecord>
    decreases items.len(),
{
    if items.len() == 0 {
        None
    } else {
        let before = scan_hit(oracle, items.drop_last(), ray, lo, hi);
        match oracle(items.last(), ray, lo, drawn_in(before, hi)) {
            Some(h) => Some(h),
            None => before,
        }
    }
}

/// Whether every one of the bounds is there.
pub open spec fn all_some(bounds: Seq<Option<Aabb>>) -> bool {
    forall|i: int| 0 <= i < bounds.len() ==> (#[trigger] bounds[i]) is Some
}

/// The box around the first `count` boxes of `bounds`, taken in order.
pub open spec fn box_around(bounds: Seq<Option<Aabb>>, count: nat) -> Aabb
    recommends
        0 < count <= bounds.len(),
    decreases count,
{
    if count <= 1 {
        bounds[0].unwrap()
    } else {
        box_around(bounds, (count - 1) as nat).spec_surrounding_box(bounds[count - 1].unwrap())
    }
}

/// What a list reports as its bounds: nothing where it is empty or holds a
/// primitive without bounds, else the box around the bounds of all.
pub open spec fn list_bounds(bounds: Seq<Option<Aabb>>) -> Option<Aabb> {
    if bounds.len() > 0 && all_some(bounds) {
        Some(box_around(bounds, bounds.len()))
    } else {
        None
    }
}

/// A scene as a plain list of primitives. What a primitive is, is the
/// caller's matter: the list hands each one to the caller's routines.
pub struct HittableList<T> {
    pub raw: Vec<T>,
}

impl<T> Default for HittableList<T> {
    fn default() -> (list: Self)
        ensures
            list.raw@.len() == 0,
    {
        HittableList { raw: Vec::new() }
    }
}

impl<T> HittableList<T> {
    /// Takes one more primitive into the list, behind those that are in it.
    pub fn push(&mut self, hittable: T)
        ensures
            final(self).raw@ == old(self).raw@.push(hittable),
    {
        self.raw.push(hittable);
    }

    /// The nearest hit by linear scan. `prim_hit` intersects one primitive
    /// with the ray.
    pub fn hit<P: Fn(&T, &Ray, Scalar, Scalar) -> Option<HitRecord>>(
        &self,
        ray: &Ray,
        t_min: Scalar,
        t_max: Scalar,
        prim_hit: &P,
    ) -> (record: Option<HitRecord>)
        requires
            forall|i: int, lo: Scalar, hi: Scalar|
                0 <= i < self.raw@.len() ==> call_requires(
                    *prim_hit,
                    (&self.raw@[i], ray, lo, hi),
                ),
        ensures
            forall|oracle: HitOracle<T>|
                answers_as(*prim_hit, oracle) ==> record == #[trigger] scan_hit(
                    oracle,
                    self.raw@,
                    *ray,
                    t_min,
                    t_max,
                ),
    {
        let mut record: Option<HitRecord> = None;
        let mut closest = t_max;
        let mut i: usize = 0;
        while i < self.raw.len()
            invariant
                i <= self.raw@.len(),
                closest == drawn_in(record, t_max),
                forall|i: int, lo: Scalar, hi: Scalar|
                    0 <= i < self.raw@.len() ==> call_requires(
                        *prim_hit,
                        (&self.raw@[i], ray, lo, hi),
                    ),
                forall|oracle: HitOracle<T>|
                    answers_as(*prim_hit, oracle) ==> record == #[trigger] scan_hit(
                        oracle,
                        self.raw@.take(i as int),
                        *ray,
                        t_min,
                        t_max,
                    ),
            decreases self.raw@.len() - i,
        {
            let found = prim_hit(&self.raw[i], ray, t_min, closest);
            let ghost before = record;
            if let Some(hit) = found {
                closest = hit.t;
                record = Some(hit);
            }
            proof {
                let upto = self.raw@.take(i + 1);
                assert(upto.drop_last() =~= self.raw@.take(i as int));
                assert(upto.last() == self.raw@[i as int]);
                assert forall|oracle: HitOracle<T>| answers_as(*prim_hit, oracle) implies record
                    == #[trigger] scan_hit(oracle, upto, *ray, t_min, t_max) by {
                    assert(before == scan_hit(oracle, self.raw@.take(i as int), *ray, t_min, t_max));
                    assert(found == oracle(self.raw@[i as int], *ray, t_min, drawn_in(before, t_max)));
                }
            }
            i += 1;
        }
        assert(self.raw@.take(i as int) =~= self.raw@);
        record
    }

    /// The box around the whole list: `None` for an empty list and for one
    /// that holds a primitive without bounds. `bounds` tells the bounds of
    /// one primitive.
    pub fn bounding_box<B: Fn(&T) -> Option<Aabb>>(&self, bounds: &B) -> (around: Option<Aabb>)
        requires
            forall|i: int| 0 <= i < self.raw@.len() ==> call_requires(*bounds, (&self.raw@[i],)),
        ensures
            forall|oracle: BoundsOracle<T>|
                bounds_as(*bounds, oracle) ==> around == list_bounds(
                    #[trigger] self.raw@.map_values(oracle),
                ),
    {
        if self.raw.len() == 0 {
            return None;
        }
        let ghost mut reported: Seq<Option<Aabb>> = Seq::empty();
        let mut output_box: Option<Aabb> = None;
        let mut i: usize = 0;
        while i < self.raw.len()
            invariant
                0 < self.raw@.len(),
                i <= self.raw@.len(),
                reported.len() == i,
                forall|k: int| 0 <= k < i ==> (#[trigger] reported[k]) is Some,
                forall|k: int| 0 <= k < i ==> call_ensures(*bounds, (&self.raw@[k],), #[trigger] reported[k]),
                forall|i: int| 0 <= i < self.raw@.len() ==> call_requires(*bounds, (&self.raw@[i],)),
                i == 0 <==> output_box is None,
                i > 0 ==> output_box.unwrap() == box_around(reported, i as nat),
            decreases self.raw@.len() - i,
        {
            let found = bounds(&self.raw[i]);
            match found {
                Some(temp_box) => {
                    match output_box {
                        Some(curr_box) => {
                            output_box = Some(curr_box.surrounding_box(&temp_box));
                        },
                        None => {
                            output_box = Some(temp_box);
                        },
                    }
                    proof {
                        let grown = reported.push(found);
                        lemma_box_around_of_prefix(reported, grown, i as nat);
                        reported = grown;
                    }
                },
                None => {
                    assert forall|oracle: BoundsOracle<T>| bounds_as(*bounds, oracle) implies None::<
                        Aabb,
                    > == list_bounds(#[trigger] self.raw@.map_values(oracle)) by {
                        assert(self.raw@.map_values(oracle)[i as int] == found);
                    }
                    return None;
                },
            }
            i += 1;
        }
        assert forall|oracle: BoundsOracle<T>| bounds_as(*bounds, oracle) implies output_box
            == list_bounds(#[trigger] self.raw@.map_values(oracle)) by {
            assert(self.raw@.map_values(oracle) =~= reported);
        }
        output_box
    }
}

/// The box around the first boxes of a list does not depend on what follows them.
proof fn lemma_box_around_of_prefix(short: Seq<Option<Aabb>>, long: Seq<Option<Aabb>>, count: nat)
    requires
        count <= short.len() <= long.len(),
        forall|k: int| 0 <= k < short.len() ==> short[k] == long[k],
    ensures
        count > 0 ==> box_around(short, count) == box_around(long, count),
    decreases count,
{
    if count > 1 {
        lemma_box_around_of_prefix(short, long, (count - 1) as nat);
    }
}

} // verus!
