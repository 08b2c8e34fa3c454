use vstd::prelude::*;
use crate::hittable::{HitOracle, HitRecord};
use crate::nearest::answers_alike;
use crate::ray::Ray;
use crate::scalar::Scalar;

verus! {

/// Whether a root lies outside the interval `[lo, hi]`. A root that is not a
/// number lies outside of nothing.
pub open spec fn outside(root: Scalar, lo: Scalar, hi: Scalar) -> bool {
    root.spec_lt(lo) || hi.spec_lt(root)
}

/// Which root of the intersection equation counts as the hit: none where the
/// discriminant is negative; else the nearer root unless it lies outside
/// `[lo, hi]`; else the farther root unless that lies outside too.
pub open spec fn spec_nearest_root(
    discriminant: Scalar,
    near: Scalar,
    far: Scalar,
    lo: Scalar,
    hi: Scalar,
) -> Option<Scalar> {
    if discriminant.spec_lt(Scalar::zero()) {
        None
    } else if !outside(near, lo, hi) {
        Some(near)
    } else if !outside(far, lo, hi) {
        Some(far)
    } else {
        None
    }
}

/// Picks the ray parameter at which a ray meets a sphere, from the
/// discriminant and the two roots of the intersection equation.
pub fn nearest_root(
    discriminant: Scalar,
    near: Scalar,
    far: Scalar,
    t_min: Scalar,
    t_max: Scalar,
) -> (root: Option<Scalar>)
    ensures
        root == spec_nearest_root(discriminant, near, far, t_min, t_max),
{
    if discriminant.lt(Scalar::zero()) {
        return None;
    }
    let mut root = near;
    if root.lt(t_min) || t_max.lt(root) {
        root = far;
        if root.lt(t_min) || t_max.lt(root) {
            return None;
        }
    }
    Some(root)
}

/// Where the nearer root is not the greater of the two, the choice of the
/// root answers alike on every interval: to draw the upper end in from `hi`
/// to `closer` keeps the chosen root if it lies at or before `closer`, and
/// leaves none if not.
pub proof fn lemma_nearest_root_answers_alike(
    discriminant: Scalar,
    near: Scalar,
    far: Scalar,
    lo: Scalar,
    hi: Scalar,
    closer: Scalar,
)
    requires
        near.spec_le(far),
        closer.spec_le(hi),
    ensures
        spec_nearest_root(discriminant, near, far, lo, closer) == (match spec_nearest_root(
            discriminant,
            near,
            far,
            lo,
            hi,
        ) {
            Some(root) => if root.spec_le(closer) {
                Some(root)
            } else {
                None
            },
            None => None,
        }),
{
}

/// A chosen root lies in the interval that it was chosen for.
pub proof fn lemma_nearest_root_in_range(
    discriminant: Scalar,
    near: Scalar,
    far: Scalar,
    lo: Scalar,
    hi: Scalar,
)
    requires
        near.spec_le(far),
        lo.spec_le(hi),
    ensures
        spec_nearest_root(discriminant, near, far, lo, hi) matches Some(root) ==> lo.spec_le(root)
            && root.spec_le(hi),
{
}

/// What a primitive answers that goes by the roots of an intersection
/// equation: nothing where no root counts, else the record of the root that
/// counts.
pub open spec fn answer_by_roots(
    discriminant: Scalar,
    near: Scalar,
    far: Scalar,
    lo: Scalar,
    hi: Scalar,
    record: spec_fn(Scalar) -> HitRecord,
) -> Option<HitRecord> {
    match spec_nearest_root(discriminant, near, far, lo, hi) {
        Some(root) => Some(record(root)),
        None => None,
    }
}

/// Primitives that go by the roots of an intersection equation answer alike
/// on every interval, as a hierarchy asks of its primitives: for each of
/// them the roots depend on the ray alone, the nearer root is not the
/// greater, and the record of a root holds that root as its ray parameter.
pub proof fn lemma_roots_answer_alike(
    prims: HitOracle<usize>,
    count: nat,
    ray: Ray,
    lo: Scalar,
    discriminant: spec_fn(usize) -> Scalar,
    near: spec_fn(usize) -> Scalar,
    far: spec_fn(usize) -> Scalar,
    record: spec_fn(usize) -> spec_fn(Scalar) -> HitRecord,
)
    requires
        forall|i: usize| i < count ==> (#[trigger] near(i)).spec_le(far(i)),
        forall|i: usize, root: Scalar| i < count ==> (#[trigger] record(i)(root)).t == root,
        forall|i: usize, hi: Scalar|
            i < count ==> #[trigger] prims(i, ray, lo, hi) == answer_by_roots(
                discriminant(i),
                near(i),
                far(i),
                lo,
                hi,
                record(i),
            ),
    ensures
        answers_alike(prims, count, ray, lo),
{
    assert forall|i: usize, hi: Scalar, closer: Scalar|
        i < count && closer.spec_le(hi) implies #[trigger] prims(i, ray, lo, closer)
        == crate::nearest::within(#[trigger] prims(i, ray, lo, hi), closer) by {
        lemma_nearest_root_answers_alike(discriminant(i), near(i), far(i), lo, hi, closer);
        assert(near(i).spec_le(far(i)));
        match spec_nearest_root(discriminant(i), near(i), far(i), lo, hi) {
            Some(root) => {
                assert(record(i)(root).t == root);
            },
            None => {},
        }
        match spec_nearest_root(discriminant(i), near(i), far(i), lo, closer) {
            Some(root) => {
                assert(record(i)(root).t == root);
            },
            None => {},
        }
    }
}

} // verus!
