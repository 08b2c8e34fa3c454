use vstd::prelude::*;
use vstd::seq_lib::*;
use crate::aabb::Aabb;
use crate::hittable::{drawn_in, HitOracle, HitRecord, hits_as};
use crate::ray::Ray;
use crate::scalar::Scalar;
use rand::Rng;

verus! {

/// The thread-local generator of the `rand` crate.
#[verifier::external_type_specification]
#[verifier::external_body]
pub struct ExThreadRng(rand::rngs::ThreadRng);

/// `rand::thread_rng`: a handle to the calling thread's generator. Nothing is
/// claimed of it.
#[verifier::external_body]
fn thread_rng() -> (rng: rand::rngs::ThreadRng) {
    rand::thread_rng()
}

/// `rand::Rng::gen_range` over the inclusive range `low..=high`: some value
/// of that range. The crate rejects an empty range by a panic, hence the
/// precondition.
#[verifier::external_body]
fn gen_range_inclusive(rng: &mut rand::rngs::ThreadRng, low: usize, high: usize) -> (drawn: usize)
    requires
        low <= high,
    ensures
        low <= drawn <= high,
{
    rng.gen_range(low..=high)
}

/// Whether every index in `order` names a primitive of `boxes` that has bounds.
pub open spec fn all_bounded(order: Seq<usize>, boxes: Seq<Option<Aabb>>) -> bool {
    forall|k: int|
        0 <= k < order.len() ==> (#[trigger] order[k]) < boxes.len() && boxes[order[k] as int] is Some
}

/// The number by which primitive `i` is sorted on an axis: the place of its
/// box's least corner in the total order of bit patterns.
pub open spec fn axis_key(boxes: Seq<Option<Aabb>>, axis: int, i: usize) -> int {
    boxes[i as int].unwrap().min.spec_axis(axis).total_key()
}

/// Whether the primitives named by `order` come in ascending order of their
/// keys on the axis.
pub open spec fn sorted_on_axis(order: Seq<usize>, boxes: Seq<Option<Aabb>>, axis: int) -> bool {
    forall|a: int, b: int|
        0 <= a <= b < order.len() ==> axis_key(boxes, axis, #[trigger] order[a]) <= axis_key(
            boxes,
            axis,
            #[trigger] order[b],
        )
}

/// Whether on the axis no primitive of `low` has a greater key than any
/// primitive of `high`.
pub open spec fn none_greater(
    low: Seq<usize>,
    high: Seq<usize>,
    boxes: Seq<Option<Aabb>>,
    axis: int,
) -> bool {
    forall|a: int, b: int|
        0 <= a < low.len() && 0 <= b < high.len() ==> axis_key(boxes, axis, #[trigger] low[a])
            <= axis_key(boxes, axis, #[trigger] high[b])
}

fn sort_key(boxes: &Vec<Option<Aabb>>, axis: usize, i: usize) -> (key: i32)
    requires
        axis < 3,
        i < boxes@.len(),
        boxes@[i as int] is Some,
    ensures
        key == axis_key(boxes@, axis as int, i),
{
    let bounds = boxes[i].unwrap();
    bounds.min.axis(axis).total_order_key()
}

/// `sort_unstable_by_key` of the standard library's slices, with the key of
/// each primitive on the axis: afterwards the same indices stand in
/// ascending order of their keys. In which order equal keys come is left
/// open, as the standard library leaves it.
#[verifier::external_body]
fn sort_by_axis(order: &mut Vec<usize>, boxes: &Vec<Option<Aabb>>, axis: usize)
    requires
        axis < 3,
        all_bounded(old(order)@, boxes@),
    ensures
        final(order)@.to_multiset() == old(order)@.to_multiset(),
        sorted_on_axis(final(order)@, boxes@, axis as int),
{
    order.sort_unstable_by_key(|i| sort_key(boxes, axis, *i));
}

/// A rearrangement of indices that are all bounded is all bounded.
proof fn lemma_all_bounded_rearranged(before: Seq<usize>, after: Seq<usize>, boxes: Seq<Option<Aabb>>)
    requires
        all_bounded(before, boxes),
        after.to_multiset() == before.to_multiset(),
    ensures
        all_bounded(after, boxes),
        after.len() == before.len(),
{
    to_multiset_len(before);
    to_multiset_len(after);
    assert forall|k: int| 0 <= k < after.len() implies (#[trigger] after[k]) < boxes.len()
        && boxes[after[k] as int] is Some by {
        assert(after.contains(after[k]));
        to_multiset_contains(after, after[k]);
        to_multiset_contains(before, after[k]);
        let j = before.lemma_contains_to_index(after[k]);
        assert(before[j] == after[k]);
    }
}

/// Sorts the primitives named by `order` on the axis and cuts the sorted
/// list at its midpoint: the first part holds `order.len() / 2` of them, and
/// none of them has a greater key than any of the second part.
pub fn split(boxes: &Vec<Option<Aabb>>, order: Vec<usize>, axis: usize) -> (parts: (
    Vec<usize>,
    Vec<usize>,
))
    requires
        axis < 3,
        all_bounded(order@, boxes@),
    ensures
        parts.0@.len() == order@.len() / 2,
        (parts.0@ + parts.1@).to_multiset() == order@.to_multiset(),
        sorted_on_axis(parts.0@ + parts.1@, boxes@, axis as int),
        all_bounded(parts.0@, boxes@),
        all_bounded(parts.1@, boxes@),
{
    let mut first = order;
    sort_by_axis(&mut first, boxes, axis);
    proof {
        lemma_all_bounded_rearranged(order@, first@, boxes@);
    }
    let ghost sorted = first@;
    let mid = first.len() / 2;
    let second = first.split_off(mid);
    assert(first@ + second@ =~= sorted);
    (first, second)
}

/// What a box test answers for a box, a ray and the interval
/// `[t_min, t_max]`, as a mathematical function.
pub type BoxOracle = spec_fn(Aabb, Ray, Scalar, Scalar) -> bool;

/// Whether `oracle` tells what every call of `box_hit` returns.
pub open spec fn tests_as<B: Fn(&Aabb, &Ray, Scalar, Scalar) -> bool>(
    box_hit: B,
    oracle: BoxOracle,
) -> bool {
    forall|around: Aabb, ray: Ray, lo: Scalar, hi: Scalar, met: bool| #[trigger]
        call_ensures(box_hit, (&around, &ray, lo, hi), met) ==> met == oracle(around, ray, lo, hi)
}

/// The list `0, 1, ..` of the first `count` indices.
pub open spec fn first_indices(count: nat) -> Seq<usize> {
    Seq::new(count, |i: int| i as usize)
}

/// What a node of the hierarchy holds below its own box.
pub enum BvhNode {
    /// Two subtrees. On a hit query `left` is asked first.
    Branch { left: Box<BvhTree>, right: Box<BvhTree> },
    /// One primitive, by its index in the list that the hierarchy was built from.
    Leaf(usize),
}

/// A bounding-volume hierarchy: a binary tree over the primitives of a
/// scene, each node with the box around all that lies below it.
pub struct BvhTree {
    pub node: BvhNode,
    pub bounding_box: Aabb,
}

impl BvhTree {
    /// The primitives below the node, in the order in which a hit query
    /// reaches them.
    pub open spec fn leaves(self) -> Seq<usize>
        decreases self,
    {
        match self.node {
            BvhNode::Leaf(i) => seq![i],
            BvhNode::Branch { left, right } => left.leaves() + right.leaves(),
        }
    }

    /// The invariant of a hierarchy over the primitives whose bounds are
    /// `boxes`: a leaf names a bounded primitive and carries its box, a
    /// branch carries the box around the boxes of its two subtrees.
    pub open spec fn wf(self, boxes: Seq<Option<Aabb>>) -> bool
        decreases self,
    {
        match self.node {
            BvhNode::Leaf(i) => i < boxes.len() && boxes[i as int] == Some(self.bounding_box),
            BvhNode::Branch { left, right } => {
                &&& left.wf(boxes)
                &&& right.wf(boxes)
                &&& self.bounding_box == left.bounding_box.spec_surrounding_box(
                    right.bounding_box,
                )
            },
        }
    }

    /// Whether every branch divides its primitives as a sort and a cut at
    /// the midpoint do: `right` holds half of them, rounded down, and on one
    /// of the three axes none of them has a greater key than any primitive
    /// of `left`.
    pub open spec fn median_split(self, boxes: Seq<Option<Aabb>>) -> bool
        decreases self,
    {
        match self.node {
            BvhNode::Leaf(i) => true,
            BvhNode::Branch { left, right } => {
                &&& left.median_split(boxes)
                &&& right.median_split(boxes)
                &&& right.leaves().len() == self.leaves().len() / 2
                &&& exists|axis: int|
                    0 <= axis < 3 && #[trigger] none_greater(
                        right.leaves(),
                        left.leaves(),
                        boxes,
                        axis,
                    )
            },
        }
    }

    /// What a hit query reports. A node whose box the ray misses reports
    /// nothing. A leaf reports what its primitive answers. A branch asks
    /// `left`, then asks `right` within the interval that a hit in `left` has
    /// drawn in, and reports what `right` found, else what `left` found.
    pub open spec fn spec_hit(
        self,
        boxes: BoxOracle,
        prims: HitOracle<usize>,
        ray: Ray,
        lo: Scalar,
        hi: Scalar,
    ) -> Option<HitRecord>
        decreases self,
    {
        if !boxes(self.bounding_box, ray, lo, hi) {
            None
        } else {
            match self.node {
                BvhNode::Leaf(i) => prims(i, ray, lo, hi),
                BvhNode::Branch { left, right } => {
                    let first = left.spec_hit(boxes, prims, ray, lo, hi);
                    match right.spec_hit(boxes, prims, ray, lo, drawn_in(first, hi)) {
                        Some(h) => Some(h),
                        None => first,
                    }
                },
            }
        }
    }

    /// Builds the hierarchy over the primitives whose bounds are given, one
    /// entry for each primitive. Every node draws one of the three axes at
    /// random, sorts its primitives by the least corner of their boxes on
    /// that axis, keeps a single primitive as a leaf and else hands the
    /// first half of the sorted list to `right` and the rest to `left`.
    ///
    /// Whatever axes are drawn, each primitive ends up in exactly one leaf.
    pub fn new(hittables: Vec<Option<Aabb>>) -> (tree: BvhTree)
        requires
            hittables@.len() > 0,
            forall|i: int| 0 <= i < hittables@.len() ==> (#[trigger] hittables@[i]) is Some,
        ensures
            tree.wf(hittables@),
            tree.median_split(hittables@),
            tree.leaves().len() == hittables@.len(),
            tree.leaves().no_duplicates(),
            forall|i: usize| i < hittables@.len() ==> tree.leaves().contains(i),
    {
        let mut order: Vec<usize> = Vec::new();
        let mut i: usize = 0;
        while i < hittables.len()
            invariant
                i <= hittables@.len(),
                order@ == first_indices(i as nat),
            decreases hittables@.len() - i,
        {
            order.push(i);
            assert(order@ =~= first_indices((i + 1) as nat));
            i += 1;
        }
        let tree = Self::build(&hittables, order);
        proof {
            let all = first_indices(hittables@.len());
            let leaves = tree.leaves();
            to_multiset_len(all);
            to_multiset_len(leaves);
            all.lemma_multiset_has_no_duplicates();
            leaves.lemma_multiset_has_no_duplicates_conv();
            assert forall|i: usize| i < hittables@.len() implies leaves.contains(i) by {
                assert(all[i as int] == i);
                assert(all.contains(i));
                to_multiset_contains(all, i);
                to_multiset_contains(leaves, i);
            }
        }
        tree
    }

    /// The nearest hit of the ray in `[t_min, t_max]`. `box_hit` tests the
    /// ray against a box and `prim_hit` intersects it with one primitive,
    /// given by its index; a subtree whose box the ray misses is not entered.
    pub fn hit<B, P>(
        &self,
        ray: &Ray,
        t_min: Scalar,
        t_max: Scalar,
        box_hit: &B,
        prim_hit: &P,
    ) -> (record: Option<HitRecord>) where
        B: Fn(&Aabb, &Ray, Scalar, Scalar) -> bool,
        P: Fn(usize, &Ray, Scalar, Scalar) -> Option<HitRecord>,

        requires
            forall|around: Aabb, lo: Scalar, hi: Scalar|
                call_requires(*box_hit, (&around, ray, lo, hi)),
            forall|i: usize, lo: Scalar, hi: Scalar|
                self.leaves().contains(i) ==> call_requires(*prim_hit, (i, ray, lo, hi)),
        ensures
            forall|boxes: BoxOracle, prims: HitOracle<usize>|
                tests_as(*box_hit, boxes) && hits_as(*prim_hit, prims) ==> record
                    == #[trigger] self.spec_hit(boxes, prims, *ray, t_min, t_max),
        decreases self,
    {
        let met = box_hit(&self.bounding_box, ray, t_min, t_max);
        if !met {
            assert forall|boxes: BoxOracle, prims: HitOracle<usize>|
                tests_as(*box_hit, boxes) && hits_as(*prim_hit, prims) implies None::<HitRecord>
                == #[trigger] self.spec_hit(boxes, prims, *ray, t_min, t_max) by {
                assert(met == boxes(self.bounding_box, *ray, t_min, t_max));
            }
            return None;
        }
        match &self.node {
            BvhNode::Leaf(leaf) => {
                assert(self.leaves()[0] == *leaf);
                let found = prim_hit(*leaf, ray, t_min, t_max);
                assert forall|boxes: BoxOracle, prims: HitOracle<usize>|
                    tests_as(*box_hit, boxes) && hits_as(*prim_hit, prims) implies found
                    == #[trigger] self.spec_hit(boxes, prims, *ray, t_min, t_max) by {
                    assert(met == boxes(self.bounding_box, *ray, t_min, t_max));
                    assert(found == prims(*leaf, *ray, t_min, t_max));
                }
                found
            },
            BvhNode::Branch { left, right } => {
                assert forall|i: usize| left.leaves().contains(i) implies self.leaves().contains(
                    i,
                ) by {
                    let k = left.leaves().lemma_contains_to_index(i);
                    assert(self.leaves()[k] == i);
                }
                assert forall|i: usize| right.leaves().contains(i) implies self.leaves().contains(
                    i,
                ) by {
                    let k = right.leaves().lemma_contains_to_index(i);
                    assert(self.leaves()[left.leaves().len() + k] == i);
                }
                let first = left.hit(ray, t_min, t_max, box_hit, prim_hit);
                let closest = match first {
                    Some(hit_left) => hit_left.t,
                    None => t_max,
                };
                let second = right.hit(ray, t_min, closest, box_hit, prim_hit);
                let found = match second {
                    Some(hit_right) => Some(hit_right),
                    None => first,
                };
                assert forall|boxes: BoxOracle, prims: HitOracle<usize>|
                    tests_as(*box_hit, boxes) && hits_as(*prim_hit, prims) implies found
                    == #[trigger] self.spec_hit(boxes, prims, *ray, t_min, t_max) by {
                    assert(met == boxes(self.bounding_box, *ray, t_min, t_max));
                    assert(first == left.spec_hit(boxes, prims, *ray, t_min, t_max));
                    assert(second == right.spec_hit(boxes, prims, *ray, t_min, closest));
                }
                found
            },
        }
    }

    /// The box around everything in the hierarchy.
    pub fn bounding_box(&self) -> (around: Aabb)
        ensures
            around == self.bounding_box,
    {
        self.bounding_box
    }

    fn build(boxes: &Vec<Option<Aabb>>, order: Vec<usize>) -> (tree: BvhTree)
        requires
            order@.len() > 0,
            all_bounded(order@, boxes@),
        ensures
            tree.wf(boxes@),
            tree.median_split(boxes@),
            tree.leaves().to_multiset() == order@.to_multiset(),
        decreases order@.len(),
    {
        let mut rng = thread_rng();
        let axis = gen_range_inclusive(&mut rng, 0, 2);
        let span = order.len();
        let (first, second) = split(boxes, order, axis);
        proof {
            to_multiset_len(first@ + second@);
            to_multiset_len(order@);
        }
        if span == 1 {
            let only = second[0];
            assert(first@ + second@ =~= seq![only]);
            let bounding_box = boxes[only].unwrap();
            BvhTree { node: BvhNode::Leaf(only), bounding_box }
        } else {
            let new_left = Self::build(boxes, second);
            let new_right = Self::build(boxes, first);
            let bounding_box = new_left.bounding_box().surrounding_box(&new_right.bounding_box());
            let tree = BvhTree {
                node: BvhNode::Branch { left: Box::new(new_left), right: Box::new(new_right) },
                bounding_box,
            };
            proof {
                lemma_multiset_commutative(new_left.leaves(), new_right.leaves());
                lemma_multiset_commutative(first@, second@);
                lemma_multiset_commutative(new_right.leaves(), new_left.leaves());
                assert(tree.leaves() == new_left.leaves() + new_right.leaves());
                assert(tree.leaves().to_multiset() =~= order@.to_multiset());
                to_multiset_len(tree.leaves());
                to_multiset_len(new_right.leaves());
                to_multiset_len(first@);
                lemma_sorted_rearranged(
                    first@,
                    second@,
                    new_right.leaves(),
                    new_left.leaves(),
                    boxes@,
                    axis as int,
                );
            }
            tree
        }
    }
}

/// If a list is sorted on an axis and each of its two parts is rearranged
/// for itself, then still nothing in the first part has a greater key than
/// anything in the second.
proof fn lemma_sorted_rearranged(
    first: Seq<usize>,
    second: Seq<usize>,
    low: Seq<usize>,
    high: Seq<usize>,
    boxes: Seq<Option<Aabb>>,
    axis: int,
)
    requires
        sorted_on_axis(first + second, boxes, axis),
        low.to_multiset() == first.to_multiset(),
        high.to_multiset() == second.to_multiset(),
    ensures
        none_greater(low, high, boxes, axis),
{
    assert forall|a: int, b: int| 0 <= a < low.len() && 0 <= b < high.len() implies axis_key(
        boxes,
        axis,
        #[trigger] low[a],
    ) <= axis_key(boxes, axis, #[trigger] high[b]) by {
        assert(low.contains(low[a]));
        to_multiset_contains(low, low[a]);
        to_multiset_contains(first, low[a]);
        let i = first.lemma_contains_to_index(low[a]);
        assert(high.contains(high[b]));
        to_multiset_contains(high, high[b]);
        to_multiset_contains(second, high[b]);
        let j = second.lemma_contains_to_index(high[b]);
        assert((first + second)[i] == low[a]);
        assert((first + second)[first.len() + j] == high[b]);
    }
}

} // verus!
