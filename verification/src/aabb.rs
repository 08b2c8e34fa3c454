use vstd::prelude::*;
use crate::scalar::Scalar;
use crate::vec3::Vec3;

verus! {

/// An axis-aligned box, given by its least and its greatest corner.
#[derive(Clone, Copy, Debug, PartialEq, Eq, Structural)]
pub struct Aabb {
    pub min: Vec3,
    pub max: Vec3,
}

/// Where a ray crosses the two planes that bound a box on one axis.
///
/// `t0` is the ray parameter at the plane of the least corner, `t1` the one at
/// the plane of the greatest corner, and `inv_d` the reciprocal of the ray's
/// direction on that axis. The caller computes the three; the box test only
/// orders them.
#[derive(Clone, Copy, Debug, PartialEq, Eq, Structural)]
pub struct Slab {
    pub inv_d: Scalar,
    pub t0: Scalar,
    pub t1: Scalar,
}

impl Slab {
    /// The parameter at which the ray enters the slab: the planes change
    /// roles when the ray runs against the axis.
    pub open spec fn entry(self) -> Scalar {
        if self.inv_d.spec_lt(Scalar::zero()) {
            self.t1
        } else {
            self.t0
        }
    }

    /// The parameter at which the ray leaves the slab.
    pub open spec fn exit(self) -> Scalar {
        if self.inv_d.spec_lt(Scalar::zero()) {
            self.t0
        } else {
            self.t1
        }
    }

    /// The interval `[lo, hi]` cut down to the part that lies in the slab.
    pub open spec fn narrow(self, lo: Scalar, hi: Scalar) -> (Scalar, Scalar) {
        (
            if self.entry().spec_gt(lo) {
                self.entry()
            } else {
                lo
            },
            if self.exit().spec_lt(hi) {
                self.exit()
            } else {
                hi
            },
        )
    }

    pub fn new(inv_d: Scalar, t0: Scalar, t1: Scalar) -> (slab: Slab)
        ensures
            slab.inv_d == inv_d,
            slab.t0 == t0,
            slab.t1 == t1,
    {
        Slab { inv_d, t0, t1 }
    }
}

/// Whether the interval `[lo, hi]` stays non-empty while it is cut down by
/// the slabs from index `from` on, one after the other.
pub open spec fn interval_survives(slabs: Seq<Slab>, from: int, lo: Scalar, hi: Scalar) -> bool
    decreases slabs.len() - from,
{
    if from < 0 || from >= slabs.len() {
        true
    } else {
        let (l, h) = slabs[from].narrow(lo, hi);
        !h.spec_le(l) && interval_survives(slabs, from + 1, l, h)
    }
}

impl Aabb {
    /// The invariant of a box: on no axis does the least corner lie beyond
    /// the greatest.
    pub open spec fn wf(self) -> bool {
        &&& self.min.x.spec_le(self.max.x)
        &&& self.min.y.spec_le(self.max.y)
        &&& self.min.z.spec_le(self.max.z)
    }

    /// Whether the point lies in the box, faces included.
    pub open spec fn contains(self, p: Vec3) -> bool {
        &&& self.min.x.spec_le(p.x) && p.x.spec_le(self.max.x)
        &&& self.min.y.spec_le(p.y) && p.y.spec_le(self.max.y)
        &&& self.min.z.spec_le(p.z) && p.z.spec_le(self.max.z)
    }

    /// Whether `inner` lies in `self`, corner for corner.
    pub open spec fn encloses(self, inner: Aabb) -> bool {
        &&& self.min.x.spec_le(inner.min.x) && inner.max.x.spec_le(self.max.x)
        &&& self.min.y.spec_le(inner.min.y) && inner.max.y.spec_le(self.max.y)
        &&& self.min.z.spec_le(inner.min.z) && inner.max.z.spec_le(self.max.z)
    }

    /// The least box around two boxes: the lesser of the least corners and
    /// the greater of the greatest, axis by axis.
    pub open spec fn spec_surrounding_box(self, other: Aabb) -> Aabb {
        Aabb {
            min: Vec3 {
                x: self.min.x.spec_min(other.min.x),
                y: self.min.y.spec_min(other.min.y),
                z: self.min.z.spec_min(other.min.z),
            },
            max: Vec3 {
                x: self.max.x.spec_max(other.max.x),
                y: self.max.y.spec_max(other.max.y),
                z: self.max.z.spec_max(other.max.z),
            },
        }
    }

    /// The box from its least corner `a` to its greatest corner `b`.
    pub fn new(a: Vec3, b: Vec3) -> (bounds: Aabb)
        ensures
            bounds.min == a,
            bounds.max == b,
    {
        Aabb { min: a, max: b }
    }

    /// The slab test. The ray meets the box within `[t_min, t_max]` exactly
    /// if that interval, cut down by the three slabs in the order of the
    /// axes, is never left empty.
    pub fn hit(slabs: &[Slab; 3], t_min: Scalar, t_max: Scalar) -> (met: bool)
        ensures
            met == interval_survives(slabs@, 0, t_min, t_max),
    {
        let mut lo = t_min;
        let mut hi = t_max;
        let mut a: usize = 0;
        while a < 3
            invariant
                a <= 3,
                slabs@.len() == 3,
                interval_survives(slabs@, 0, t_min, t_max) == interval_survives(
                    slabs@,
                    a as int,
                    lo,
                    hi,
                ),
            decreases 3 - a,
        {
            let slab = slabs[a];
            let backwards = slab.inv_d.lt(Scalar::zero());
            let entry = if backwards { slab.t1 } else { slab.t0 };
            let exit = if backwards { slab.t0 } else { slab.t1 };
            lo = if entry.gt(lo) { entry } else { lo };
            hi = if exit.lt(hi) { exit } else { hi };
            if hi.le(lo) {
                return false;
            }
            a += 1;
        }
        true
    }

    /// The least box around this box and another.
    pub fn surrounding_box(&self, other: &Aabb) -> (around: Aabb)
        ensures
            around == self.spec_surrounding_box(*other),
    {
        let small = Vec3::new(
            self.min.x.min(other.min.x),
            self.min.y.min(other.min.y),
            self.min.z.min(other.min.z),
        );
        let big = Vec3::new(
            self.max.x.max(other.max.x),
            self.max.y.max(other.max.y),
            self.max.z.max(other.max.z),
        );
        Aabb::new(small, big)
    }
}

/// Every point of either box lies in the box around the two.
pub proof fn lemma_surrounding_box_contains(a: Aabb, b: Aabb, p: Vec3)
    requires
        a.contains(p) || b.contains(p),
    ensures
        a.spec_surrounding_box(b).contains(p),
{
}

/// The box around two well-formed boxes is well-formed and encloses both.
pub proof fn lemma_surrounding_box_encloses(a: Aabb, b: Aabb)
    requires
        a.wf(),
        b.wf(),
    ensures
        a.spec_surrounding_box(b).wf(),
        a.spec_surrounding_box(b).encloses(a),
        a.spec_surrounding_box(b).encloses(b),
{
}

/// Whether each slab of `wide` holds the slab of `narrow` on the same axis:
/// the ray enters it no later and leaves it no sooner.
pub open spec fn slabs_hold(wide: Seq<Slab>, narrow: Seq<Slab>) -> bool {
    &&& wide.len() == narrow.len()
    &&& forall|a: int|
        0 <= a < wide.len() ==> (#[trigger] wide[a]).entry().spec_le(narrow[a].entry())
            && narrow[a].exit().spec_le(wide[a].exit())
}

/// The slab test is monotone: an interval that survives the slabs of one
/// box survives slabs that hold them, from a start that is no narrower.
pub proof fn lemma_wider_slabs_survive(
    wide: Seq<Slab>,
    narrow: Seq<Slab>,
    from: int,
    wide_lo: Scalar,
    wide_hi: Scalar,
    lo: Scalar,
    hi: Scalar,
)
    requires
        slabs_hold(wide, narrow),
        0 <= from,
        wide_lo.spec_le(lo),
        hi.spec_le(wide_hi),
        interval_survives(narrow, from, lo, hi),
    ensures
        interval_survives(wide, from, wide_lo, wide_hi),
    decreases wide.len() - from,
{
    if from < wide.len() {
        let (l, h) = narrow[from].narrow(lo, hi);
        let (wl, wh) = wide[from].narrow(wide_lo, wide_hi);
        assert(wide[from].entry().spec_le(narrow[from].entry()));
        lemma_wider_slabs_survive(wide, narrow, from + 1, wl, wh, l, h);
    }
}

} // verus!
