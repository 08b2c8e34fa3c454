use vstd::prelude::*;
use crate::aabb::{Aabb, lemma_surrounding_box_encloses};
use crate::bvh::{BoxOracle, BvhNode, BvhTree, first_indices};
use crate::hittable::{drawn_in, HitOracle, HitRecord, scan_hit};
use crate::ray::Ray;
use crate::scalar::Scalar;

verus! {

/// A hit, if its parameter is at most `hi`; else nothing.
pub open spec fn within(found: Option<HitRecord>, hi: Scalar) -> Option<HitRecord> {
    match found {
        Some(h) => if h.t.spec_le(hi) {
            found
        } else {
            None
        },
        None => None,
    }
}

/// Whether each of the first `count` primitives answers alike on every
/// interval: to draw the upper end in from `hi` to `closer` leaves the answer
/// as it was if the hit lies at or before `closer`, and leaves none if not.
pub open spec fn answers_alike(prims: HitOracle<usize>, count: nat, ray: Ray, lo: Scalar) -> bool {
    forall|i: usize, hi: Scalar, closer: Scalar|
        i < count && closer.spec_le(hi) ==> #[trigger] prims(i, ray, lo, closer) == within(
            #[trigger] prims(i, ray, lo, hi),
            closer,
        )
}

/// Whether the box test never misses a primitive that the ray meets: if the
/// ray meets primitive `i` within an interval, it meets within that interval
/// every box that encloses the primitive's own.
pub open spec fn boxes_enclose_hits(
    boxes: BoxOracle,
    prims: HitOracle<usize>,
    bounds: Seq<Option<Aabb>>,
    ray: Ray,
    lo: Scalar,
) -> bool {
    forall|i: usize, around: Aabb, hi: Scalar|
        i < bounds.len() && bounds[i as int] is Some && around.encloses(bounds[i as int].unwrap())
            && (#[trigger] prims(i, ray, lo, hi)) is Some ==> #[trigger] boxes(
            around,
            ray,
            lo,
            hi,
        )
}

/// Whether every primitive has bounds, and well-formed ones.
pub open spec fn well_bounded(bounds: Seq<Option<Aabb>>) -> bool {
    forall|i: int|
        0 <= i < bounds.len() ==> (#[trigger] bounds[i]) is Some && bounds[i].unwrap().wf()
}

/// Whether two answers report the same: both nothing, or both a hit at the
/// same place on the number line.
pub open spec fn same_nearest(a: Option<HitRecord>, b: Option<HitRecord>) -> bool {
    match (a, b) {
        (None, None) => true,
        (Some(g), Some(h)) => g.t.rank() == h.t.rank(),
        _ => false,
    }
}

/// Whether `found` is the nearest of what the primitives in `among` answer
/// on `[lo, top]`, as far as it lies at or before `hi`.
pub open spec fn nearest_among(
    found: Option<HitRecord>,
    among: Seq<usize>,
    prims: HitOracle<usize>,
    ray: Ray,
    lo: Scalar,
    top: Scalar,
    hi: Scalar,
) -> bool {
    match found {
        None => forall|k: int|
            0 <= k < among.len() ==> within(prims(#[trigger] among[k], ray, lo, top), hi) is None,
        Some(h) => {
            &&& h.t.spec_le(hi)
            &&& exists|k: int|
                0 <= k < among.len() && prims(#[trigger] among[k], ray, lo, top) == Some(h)
            &&& forall|k: int|
                0 <= k < among.len() ==> (prims(#[trigger] among[k], ray, lo, top) matches Some(g)
                    ==> h.t.rank() <= g.t.rank())
        },
    }
}

/// In a well-formed hierarchy every leaf names a primitive, and the box of
/// the root encloses the box of each.
pub proof fn lemma_root_encloses_leaves(tree: BvhTree, bounds: Seq<Option<Aabb>>)
    requires
        tree.wf(bounds),
        well_bounded(bounds),
    ensures
        tree.bounding_box.wf(),
        forall|k: int|
            0 <= k < tree.leaves().len() ==> (#[trigger] tree.leaves()[k]) < bounds.len()
                && tree.bounding_box.encloses(bounds[tree.leaves()[k] as int].unwrap()),
    decreases tree,
{
    match tree.node {
        BvhNode::Leaf(i) => {
            assert(bounds[i as int].unwrap() == tree.bounding_box);
        },
        BvhNode::Branch { left, right } => {
            lemma_root_encloses_leaves(*left, bounds);
            lemma_root_encloses_leaves(*right, bounds);
            lemma_surrounding_box_encloses(left.bounding_box, right.bounding_box);
            assert forall|k: int| 0 <= k < tree.leaves().len() implies (
            #[trigger] tree.leaves()[k]) < bounds.len() && tree.bounding_box.encloses(
                bounds[tree.leaves()[k] as int].unwrap(),
            ) by {
                if k < left.leaves().len() {
                    assert(tree.leaves()[k] == left.leaves()[k]);
                } else {
                    assert(tree.leaves()[k] == right.leaves()[k - left.leaves().len()]);
                }
            }
        },
    }
}

/// What a hit query on a hierarchy reports is the nearest of what its
/// leaves answer.
pub proof fn lemma_hierarchy_nearest(
    tree: BvhTree,
    bounds: Seq<Option<Aabb>>,
    boxes: BoxOracle,
    prims: HitOracle<usize>,
    ray: Ray,
    lo: Scalar,
    top: Scalar,
    hi: Scalar,
)
    requires
        tree.wf(bounds),
        well_bounded(bounds),
        hi.spec_le(top),
        answers_alike(prims, bounds.len(), ray, lo),
        boxes_enclose_hits(boxes, prims, bounds, ray, lo),
    ensures
        nearest_among(
            tree.spec_hit(boxes, prims, ray, lo, hi),
            tree.leaves(),
            prims,
            ray,
            lo,
            top,
            hi,
        ),
    decreases tree,
{
    let found = tree.spec_hit(boxes, prims, ray, lo, hi);
    let leaves = tree.leaves();
    lemma_root_encloses_leaves(tree, bounds);
    assert forall|k: int| 0 <= k < leaves.len() implies (#[trigger] prims(
        leaves[k],
        ray,
        lo,
        hi,
    )) == within(prims(leaves[k], ray, lo, top), hi) && prims(leaves[k], ray, lo, top) == within(
        prims(leaves[k], ray, lo, top),
        top,
    ) by {
        assert(leaves[k] < bounds.len());
    }
    if !boxes(tree.bounding_box, ray, lo, hi) {
        assert forall|k: int| 0 <= k < leaves.len() implies within(
            prims(#[trigger] leaves[k], ray, lo, top),
            hi,
        ) is None by {
            let i = leaves[k];
            if prims(i, ray, lo, hi) is Some {
                assert(boxes(tree.bounding_box, ray, lo, hi));
            }
        }
    } else {
        match tree.node {
            BvhNode::Leaf(i) => {
                assert(leaves[0] == i);
            },
            BvhNode::Branch { left, right } => {
                let first = left.spec_hit(boxes, prims, ray, lo, hi);
                let closer = drawn_in(first, hi);
                lemma_hierarchy_nearest(*left, bounds, boxes, prims, ray, lo, top, hi);
                assert(closer.spec_le(hi));
                lemma_hierarchy_nearest(*right, bounds, boxes, prims, ray, lo, top, closer);
                let second = right.spec_hit(boxes, prims, ray, lo, closer);
                let ll = left.leaves();
                let rl = right.leaves();
                assert forall|k: int| 0 <= k < leaves.len() implies (if k < ll.len() {
                    #[trigger] leaves[k] == ll[k]
                } else {
                    leaves[k] == rl[k - ll.len()]
                }) by {}
                match found {
                    None => {
                        assert(first is None && second is None);
                        assert forall|k: int| 0 <= k < leaves.len() implies within(
                            prims(#[trigger] leaves[k], ray, lo, top),
                            hi,
                        ) is None by {
                            if k < ll.len() {
                                assert(leaves[k] == ll[k]);
                            } else {
                                assert(leaves[k] == rl[k - ll.len()]);
                            }
                        }
                    },
                    Some(h) => {
                        if second is Some {
                            let w = choose|k: int|
                                0 <= k < rl.len() && prims(#[trigger] rl[k], ray, lo, top) == Some(
                                    h,
                                );
                            assert(leaves[ll.len() + w] == rl[w]);
                        } else {
                            let w = choose|k: int|
                                0 <= k < ll.len() && prims(#[trigger] ll[k], ray, lo, top) == Some(
                                    h,
                                );
                            assert(leaves[w] == ll[w]);
                        }
                        assert forall|k: int| 0 <= k < leaves.len() implies (prims(
                            #[trigger] leaves[k],
                            ray,
                            lo,
                            top,
                        ) matches Some(g) ==> h.t.rank() <= g.t.rank()) by {
                            if k < ll.len() {
                                assert(leaves[k] == ll[k]);
                            } else {
                                assert(leaves[k] == rl[k - ll.len()]);
                            }
                        }
                    },
                }
            },
        }
    }
}

/// What a linear scan reports is the nearest of what the primitives answer,
/// in whatever order it takes them.
pub proof fn lemma_scan_nearest(
    prims: HitOracle<usize>,
    among: Seq<usize>,
    count: nat,
    ray: Ray,
    lo: Scalar,
    hi: Scalar,
)
    requires
        forall|k: int| 0 <= k < among.len() ==> (#[trigger] among[k]) < count,
        !hi.is_nan(),
        answers_alike(prims, count, ray, lo),
    ensures
        nearest_among(scan_hit(prims, among, ray, lo, hi), among, prims, ray, lo, hi, hi),
    decreases among.len(),
{
    assert forall|k: int| 0 <= k < among.len() implies prims(#[trigger] among[k], ray, lo, hi)
        == within(prims(among[k], ray, lo, hi), hi) by {
        assert(hi.spec_le(hi));
    }
    if among.len() > 0 {
        let fewer = among.drop_last();
        lemma_scan_nearest(prims, fewer, count, ray, lo, hi);
        let before = scan_hit(prims, fewer, ray, lo, hi);
        let closer = drawn_in(before, hi);
        let last = among.last();
        assert(last == among[among.len() - 1]);
        assert(closer.spec_le(hi));
        assert(prims(last, ray, lo, closer) == within(prims(last, ray, lo, hi), closer));
        assert forall|k: int| 0 <= k < among.len() - 1 implies #[trigger] among[k] == fewer[k] by {}
        let found = scan_hit(prims, among, ray, lo, hi);
        match found {
            None => {
                assert forall|k: int| 0 <= k < among.len() implies within(
                    prims(#[trigger] among[k], ray, lo, hi),
                    hi,
                ) is None by {
                    if k < among.len() - 1 {
                        assert(among[k] == fewer[k]);
                    }
                }
            },
            Some(h) => {
                if prims(last, ray, lo, closer) is Some {
                    assert(prims(among[among.len() - 1], ray, lo, hi) == Some(h));
                } else {
                    let w = choose|k: int|
                        0 <= k < fewer.len() && prims(#[trigger] fewer[k], ray, lo, hi) == Some(h);
                    assert(among[w] == fewer[w]);
                }
                assert forall|k: int| 0 <= k < among.len() implies (prims(
                    #[trigger] among[k],
                    ray,
                    lo,
                    hi,
                ) matches Some(g) ==> h.t.rank() <= g.t.rank()) by {
                    if k < among.len() - 1 {
                        assert(among[k] == fewer[k]);
                    }
                }
            },
        }
    }
}

/// A hit query on a hierarchy and a linear scan of the same primitives
/// report the same: both nothing, or both a hit at the same ray parameter.
///
/// This holds of primitives that answer alike on every interval, and of a
/// box test that never misses a primitive that the ray meets.
pub proof fn lemma_hierarchy_agrees_with_scan(
    tree: BvhTree,
    bounds: Seq<Option<Aabb>>,
    boxes: BoxOracle,
    prims: HitOracle<usize>,
    ray: Ray,
    lo: Scalar,
    hi: Scalar,
)
    requires
        tree.wf(bounds),
        forall|i: usize| i < bounds.len() ==> tree.leaves().contains(i),
        well_bounded(bounds),
        !hi.is_nan(),
        answers_alike(prims, bounds.len(), ray, lo),
        boxes_enclose_hits(boxes, prims, bounds, ray, lo),
    ensures
        same_nearest(
            tree.spec_hit(boxes, prims, ray, lo, hi),
            scan_hit(prims, first_indices(bounds.len()), ray, lo, hi),
        ),
{
    let all = first_indices(bounds.len());
    let by_tree = tree.spec_hit(boxes, prims, ray, lo, hi);
    let by_scan = scan_hit(prims, all, ray, lo, hi);
    let leaves = tree.leaves();
    lemma_hierarchy_nearest(tree, bounds, boxes, prims, ray, lo, hi, hi);
    lemma_root_encloses_leaves(tree, bounds);
    assert forall|k: int| 0 <= k < all.len() implies (#[trigger] all[k]) < bounds.len() by {}
    lemma_scan_nearest(prims, all, bounds.len(), ray, lo, hi);
    assert forall|i: usize| i < bounds.len() implies prims(i, ray, lo, hi) == within(
        #[trigger] prims(i, ray, lo, hi),
        hi,
    ) by {
        assert(hi.spec_le(hi));
    }
    match by_tree {
        Some(g) => {
            let w = choose|k: int|
                0 <= k < leaves.len() && prims(#[trigger] leaves[k], ray, lo, hi) == Some(g);
            let i = leaves[w];
            assert(all[i as int] == i);
            match by_scan {
                Some(h) => {
                    let v = choose|k: int|
                        0 <= k < all.len() && prims(#[trigger] all[k], ray, lo, hi) == Some(h);
                    let j = all[v];
                    assert(leaves.contains(j));
                    let u = leaves.lemma_contains_to_index(j);
                    assert(leaves[u] == j);
                },
                None => {
                    assert(within(prims(all[i as int], ray, lo, hi), hi) is None);
                },
            }
        },
        None => {
            match by_scan {
                Some(h) => {
                    let v = choose|k: int|
                        0 <= k < all.len() && prims(#[trigger] all[k], ray, lo, hi) == Some(h);
                    let j = all[v];
                    assert(leaves.contains(j));
                    let u = leaves.lemma_contains_to_index(j);
                    assert(within(prims(leaves[u], ray, lo, hi), hi) is None);
                },
                None => {},
            }
        },
    }
}

/// A scan of a list of primitives reports what a scan by index reports,
/// where to ask by index is to ask the primitive at that place in the list.
pub proof fn lemma_scan_by_index<T>(
    answers: HitOracle<T>,
    items: Seq<T>,
    prims: HitOracle<usize>,
    ray: Ray,
    lo: Scalar,
    hi: Scalar,
)
    requires
        items.len() <= usize::MAX,
        forall|i: usize, a: Scalar, b: Scalar|
            i < items.len() ==> #[trigger] prims(i, ray, a, b) == answers(items[i as int], ray, a, b),
    ensures
        scan_hit(answers, items, ray, lo, hi) == scan_hit(
            prims,
            first_indices(items.len()),
            ray,
            lo,
            hi,
        ),
    decreases items.len(),
{
    if items.len() > 0 {
        let all = first_indices(items.len());
        assert(all.drop_last() =~= first_indices((items.len() - 1) as nat));
        assert(all.last() == (items.len() - 1) as usize);
        assert forall|i: usize, a: Scalar, b: Scalar| i < items.drop_last().len() implies #[trigger] prims(
            i,
            ray,
            a,
            b,
        ) == answers(items.drop_last()[i as int], ray, a, b) by {
            assert(items.drop_last()[i as int] == items[i as int]);
        }
        lemma_scan_by_index(answers, items.drop_last(), prims, ray, lo, hi);
        let before = scan_hit(answers, items.drop_last(), ray, lo, hi);
        assert(prims((items.len() - 1) as usize, ray, lo, drawn_in(before, hi)) == answers(
            items[items.len() - 1],
            ray,
            lo,
            drawn_in(before, hi),
        ));
    }
}

/// A hit query on a hierarchy built over a list of primitives and a linear
/// scan of that list report the same, where the hierarchy asks a primitive
/// by its place in the list.
pub proof fn lemma_hierarchy_agrees_with_list<T>(
    tree: BvhTree,
    bounds: Seq<Option<Aabb>>,
    boxes: BoxOracle,
    prims: HitOracle<usize>,
    answers: HitOracle<T>,
    items: Seq<T>,
    ray: Ray,
    lo: Scalar,
    hi: Scalar,
)
    requires
        tree.wf(bounds),
        forall|i: usize| i < bounds.len() ==> tree.leaves().contains(i),
        well_bounded(bounds),
        !hi.is_nan(),
        answers_alike(prims, bounds.len(), ray, lo),
        boxes_enclose_hits(boxes, prims, bounds, ray, lo),
        items.len() == bounds.len(),
        items.len() <= usize::MAX,
        forall|i: usize, a: Scalar, b: Scalar|
            i < items.len() ==> #[trigger] prims(i, ray, a, b) == answers(items[i as int], ray, a, b),
    ensures
        same_nearest(tree.spec_hit(boxes, prims, ray, lo, hi), scan_hit(answers, items, ray, lo, hi)),
{
    lemma_hierarchy_agrees_with_scan(tree, bounds, boxes, prims, ray, lo, hi);
    lemma_scan_by_index(answers, items, prims, ray, lo, hi);
}

} // verus!
