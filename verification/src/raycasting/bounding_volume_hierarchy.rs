use vstd::prelude::*;

use super::HasBoundingBox;
use crate::realtype::Real;
use crate::util::BoundingBox;

verus! {

/// Stores a set of primitives and accelerates queries on them.
///
/// Organizes the primitives into a binary tree based on their bounds. Each
/// node knows the overall bounds of all its children, so whatever lies
/// outside the box of a node lies outside every primitive stored below it.
pub enum BoundingVolumeHierarchy<T: Real, P> {
    Node {
        bounds: BoundingBox<T>,
        left: Box<BoundingVolumeHierarchy<T, P>>,
        right: Box<BoundingVolumeHierarchy<T, P>>,
    },
    Leaf {
        bounds: BoundingBox<T>,
        primitives: Vec<P>,
    },
}

/// The box covering the boxes of `primitives`, taken in order: the empty box
/// grown by the union with each box in turn.
pub open spec fn union_of_boxes_spec<T: Real, P: HasBoundingBox<T>>(primitives: Seq<P>) -> BoundingBox<T>
    decreases primitives.len(),
{
    if primitives.len() == 0 {
        BoundingBox::empty_spec()
    } else {
        union_of_boxes_spec::<T, P>(primitives.drop_last()).union_spec(
            primitives.last().bounding_box_spec(),
        )
    }
}

/// Where along axis `d` the centre of the box of `p` lies, as a measure
/// ordered as the centre is.
pub open spec fn centre_key<T: Real, P: HasBoundingBox<T>>(p: P, d: int) -> int {
    T::centre_spec(p.bounding_box_spec().bounds[d].min, p.bounding_box_spec().bounds[d].max)
}

/// The centres of the boxes of `s` do not decrease along axis `d`.
pub open spec fn sorted_by_centre<T: Real, P: HasBoundingBox<T>>(s: Seq<P>, d: int) -> bool {
    forall|i: int, j: int|
        0 <= i <= j < s.len() ==> centre_key::<T, P>(s[i], d) <= centre_key::<T, P>(s[j], d)
}

/// The box covering the boxes of all `primitives`, in order.
fn union_of_boxes<T: Real, P: HasBoundingBox<T>>(primitives: &Vec<P>) -> (r: BoundingBox<T>)
    ensures
        r == union_of_boxes_spec::<T, P>(primitives@),
{
    let mut acc = BoundingBox::empty();
    let mut k: usize = 0;
    while k < primitives.len()
        invariant
            k <= primitives@.len(),
            acc == union_of_boxes_spec::<T, P>(primitives@.take(k as int)),
        decreases primitives@.len() - k,
    {
        proof {
            assert(primitives@.take(k + 1).drop_last() =~= primitives@.take(k as int));
        }
        acc = acc.union(&primitives[k].bounding_box());
        k = k + 1;
    }
    proof {
        assert(primitives@.take(primitives@.len() as int) =~= primitives@);
    }
    acc
}

/// Every point in the box of one of `primitives` lies in the union of their boxes.
proof fn lemma_union_of_boxes_covers<T: Real, P: HasBoundingBox<T>>(primitives: Seq<P>, x: P, p: [T; 3])
    requires
        primitives.contains(x),
        x.bounding_box_spec().contains_spec(p),
    ensures
        union_of_boxes_spec::<T, P>(primitives).contains_spec(p),
    decreases primitives.len(),
{
    let prev = primitives.drop_last();
    let last = primitives.last();
    let prev_box = union_of_boxes_spec::<T, P>(prev);
    BoundingBox::<T>::lemma_union_covers_both(prev_box, last.bounding_box_spec(), p, 0);
    if x != last {
        let i = choose|i: int| 0 <= i < primitives.len() && primitives[i] == x;
        assert(i < primitives.len() - 1);
        assert(prev[i] == x);
        lemma_union_of_boxes_covers::<T, P>(prev, x, p);
    }
}

/// Does the centre of the box of `a` lie below that of `b` along axis `d`?
fn centre_less<T: Real, P: HasBoundingBox<T>>(a: &P, b: &P, d: usize) -> (r: bool)
    requires
        d < 3,
    ensures
        r == (centre_key::<T, P>(*a, d as int) < centre_key::<T, P>(*b, d as int)),
{
    let box_a = a.bounding_box();
    let box_b = b.bounding_box();
    T::centre_less(&box_a.bounds[d].min, &box_a.bounds[d].max, &box_b.bounds[d].min, &box_b.bounds[d].max)
}

/// Merges two sequences sorted by centre along axis `d` into one.
fn merge_by_centre<T: Real, P: HasBoundingBox<T>>(a: Vec<P>, b: Vec<P>, d: usize) -> (r: Vec<P>)
    requires
        d < 3,
        sorted_by_centre::<T, P>(a@, d as int),
        sorted_by_centre::<T, P>(b@, d as int),
    ensures
        r@.to_multiset() == a@.to_multiset().add(b@.to_multiset()),
        sorted_by_centre::<T, P>(r@, d as int),
{
    broadcast use vstd::seq_lib::group_to_multiset_ensures, vstd::multiset::group_multiset_axioms;

    let ghost total = a@.to_multiset().add(b@.to_multiset());
    let ghost dd = d as int;
    let mut a = a;
    let mut b = b;
    // First the largest remaining element each time, giving a non-increasing sequence.
    let mut desc: Vec<P> = Vec::new();
    while a.len() > 0 || b.len() > 0
        invariant
            d < 3,
            dd == d,
            sorted_by_centre::<T, P>(a@, dd),
            sorted_by_centre::<T, P>(b@, dd),
            forall|i: int, j: int|
                0 <= i <= j < desc@.len() ==> centre_key::<T, P>(desc@[j], dd) <= centre_key::<
                    T,
                    P,
                >(desc@[i], dd),
            forall|i: int, j: int|
                0 <= i < desc@.len() && 0 <= j < a@.len() ==> centre_key::<T, P>(a@[j], dd)
                    <= centre_key::<T, P>(desc@[i], dd),
            forall|i: int, j: int|
                0 <= i < desc@.len() && 0 <= j < b@.len() ==> centre_key::<T, P>(b@[j], dd)
                    <= centre_key::<T, P>(desc@[i], dd),
            desc@.to_multiset().add(a@.to_multiset()).add(b@.to_multiset()) == total,
        decreases a@.len() + b@.len(),
    {
        let take_a = if a.len() == 0 {
            false
        } else if b.len() == 0 {
            true
        } else {
            !centre_less::<T, P>(&a[a.len() - 1], &b[b.len() - 1], d)
        };
        let ghost a_before = a@;
        let ghost b_before = b@;
        let ghost desc_before = desc@;
        if take_a {
            let x = a.pop().unwrap();
            proof {
                assert(a@.push(x) =~= a_before);
            }
            desc.push(x);
            proof {
                assert(desc@ =~= desc_before.push(x));
                vstd::seq_lib::to_multiset_build(a@, x);
                vstd::seq_lib::to_multiset_build(desc_before, x);
                assert(a_before.to_multiset() =~= a@.to_multiset().insert(x));
                assert(desc@.to_multiset() =~= desc_before.to_multiset().insert(x));
                assert(desc@.to_multiset().add(a@.to_multiset()).add(b@.to_multiset())
                    =~= desc_before.to_multiset().add(a_before.to_multiset()).add(
                    b_before.to_multiset(),
                ));
            }
        } else {
            let x = b.pop().unwrap();
            proof {
                assert(b@.push(x) =~= b_before);
            }
            desc.push(x);
            proof {
                assert(desc@ =~= desc_before.push(x));
                vstd::seq_lib::to_multiset_build(b@, x);
                vstd::seq_lib::to_multiset_build(desc_before, x);
                assert(b_before.to_multiset() =~= b@.to_multiset().insert(x));
                assert(desc@.to_multiset() =~= desc_before.to_multiset().insert(x));
                assert(desc@.to_multiset().add(a@.to_multiset()).add(b@.to_multiset())
                    =~= desc_before.to_multiset().add(a_before.to_multiset()).add(
                    b_before.to_multiset(),
                ));
            }
        }
        proof {
            let x = desc@.last();
            assert(desc@ =~= desc_before.push(x));
            if take_a {
                assert(x == a_before[a_before.len() - 1]);
                assert forall|j: int| 0 <= j < b@.len() implies centre_key::<T, P>(b@[j], dd)
                    <= centre_key::<T, P>(x, dd) by {
                    assert(b@[j] == b_before[j]);
                    assert(centre_key::<T, P>(b_before[j], dd) <= centre_key::<T, P>(
                        b_before[b_before.len() - 1],
                        dd,
                    ));
                }
                assert forall|j: int| 0 <= j < a@.len() implies centre_key::<T, P>(a@[j], dd)
                    <= centre_key::<T, P>(x, dd) by {
                    assert(a@[j] == a_before[j]);
                }
            } else {
                assert(x == b_before[b_before.len() - 1]);
                assert forall|j: int| 0 <= j < a@.len() implies centre_key::<T, P>(a@[j], dd)
                    <= centre_key::<T, P>(x, dd) by {
                    assert(a@[j] == a_before[j]);
                    assert(centre_key::<T, P>(a_before[j], dd) <= centre_key::<T, P>(
                        a_before[a_before.len() - 1],
                        dd,
                    ));
                }
                assert forall|j: int| 0 <= j < b@.len() implies centre_key::<T, P>(b@[j], dd)
                    <= centre_key::<T, P>(x, dd) by {
                    assert(b@[j] == b_before[j]);
                }
            }
            assert forall|i: int| 0 <= i < desc_before.len() implies centre_key::<T, P>(x, dd)
                <= centre_key::<T, P>(desc@[i], dd) by {
                if take_a {
                    assert(0 <= a_before.len() - 1 < a_before.len());
                } else {
                    assert(0 <= b_before.len() - 1 < b_before.len());
                }
            }
        }
    }
    // Then the smallest remaining element each time, giving the merged sequence.
    let mut out: Vec<P> = Vec::new();
    while desc.len() > 0
        invariant
            dd == d,
            sorted_by_centre::<T, P>(out@, dd),
            forall|i: int, j: int|
                0 <= i <= j < desc@.len() ==> centre_key::<T, P>(desc@[j], dd) <= centre_key::<
                    T,
                    P,
                >(desc@[i], dd),
            forall|i: int, j: int|
                0 <= i < out@.len() && 0 <= j < desc@.len() ==> centre_key::<T, P>(out@[i], dd)
                    <= centre_key::<T, P>(desc@[j], dd),
            out@.to_multiset().add(desc@.to_multiset()) == total,
        decreases desc@.len(),
    {
        let ghost desc_before = desc@;
        let ghost out_before = out@;
        let x = desc.pop().unwrap();
        proof {
            assert(desc@.push(x) =~= desc_before);
        }
        out.push(x);
        proof {
            assert(out@ =~= out_before.push(x));
            vstd::seq_lib::to_multiset_build(desc@, x);
            vstd::seq_lib::to_multiset_build(out_before, x);
            assert(desc_before.to_multiset() =~= desc@.to_multiset().insert(x));
            assert(out@.to_multiset() =~= out_before.to_multiset().insert(x));
            assert(out@.to_multiset().add(desc@.to_multiset()) =~= out_before.to_multiset().add(
                desc_before.to_multiset(),
            ));
            assert forall|j: int| 0 <= j < desc@.len() implies centre_key::<T, P>(x, dd)
                <= centre_key::<T, P>(desc@[j], dd) by {
                assert(desc@[j] == desc_before[j]);
            }
            assert forall|i: int| 0 <= i < out_before.len() implies centre_key::<T, P>(
                out_before[i],
                dd,
            ) <= centre_key::<T, P>(x, dd) by {
                assert(x == desc_before[desc_before.len() - 1]);
            }
        }
    }
    out
}

/// Sorts `v` by the centres of the boxes along axis `d`, by merging.
fn sort_by_centre<T: Real, P: HasBoundingBox<T>>(v: Vec<P>, d: usize) -> (r: Vec<P>)
    requires
        d < 3,
    ensures
        r@.to_multiset() == v@.to_multiset(),
        sorted_by_centre::<T, P>(r@, d as int),
    decreases v@.len(),
{
    broadcast use vstd::seq_lib::group_to_multiset_ensures, vstd::multiset::group_multiset_axioms;

    if v.len() <= 1 {
        return v;
    }
    let ghost whole = v@;
    let mut left = v;
    let middle = left.len() / 2;
    let right = left.split_off(middle);
    proof {
        assert(left@ + right@ =~= whole);
        vstd::seq_lib::lemma_multiset_commutative(left@, right@);
    }
    let left = sort_by_centre::<T, P>(left, d);
    let right = sort_by_centre::<T, P>(right, d);
    merge_by_centre::<T, P>(left, right, d)
}

/// Sorts `primitives` by the centres of their boxes along the axis in which
/// `bounds` is largest, and returns the index that splits them in half.
fn heuristic_split<T: Real, P: HasBoundingBox<T>>(primitives: &mut Vec<P>, bounds: &BoundingBox<T>) -> (r: usize)
    ensures
        final(primitives)@.to_multiset() == old(primitives)@.to_multiset(),
        final(primitives)@.len() == old(primitives)@.len(),
        sorted_by_centre::<T, P>(final(primitives)@, bounds.largest_dimension_spec()),
        r == old(primitives)@.len() / 2,
{
    broadcast use vstd::seq_lib::group_to_multiset_ensures;

    let largest_dimension = bounds.largest_dimension();
    let mut items: Vec<P> = Vec::new();
    std::mem::swap(&mut items, primitives);
    let ghost given = items@;
    let sorted = sort_by_centre::<T, P>(items, largest_dimension);
    proof {
        vstd::seq_lib::to_multiset_len(given);
        vstd::seq_lib::to_multiset_len(sorted@);
    }
    *primitives = sorted;
    primitives.len() / 2
}

impl<T: Real, P> BoundingVolumeHierarchy<T, P> {
    /// The box stored at the root.
    pub open spec fn bounds_spec(self) -> BoundingBox<T> {
        match self {
            BoundingVolumeHierarchy::Node { bounds, .. } => bounds,
            BoundingVolumeHierarchy::Leaf { bounds, .. } => bounds,
        }
    }

    /// Every leaf of the tree holds exactly one primitive.
    pub open spec fn every_leaf_holds_one(self) -> bool
        decreases self,
    {
        match self {
            BoundingVolumeHierarchy::Node { left, right, .. } => left.every_leaf_holds_one()
                && right.every_leaf_holds_one(),
            BoundingVolumeHierarchy::Leaf { primitives, .. } => primitives@.len() == 1,
        }
    }
}

/// A hierarchy's box is the box stored at its root, which covers every
/// primitive below it.
impl<T: Real, P> HasBoundingBox<T> for BoundingVolumeHierarchy<T, P> {
    open spec fn bounding_box_spec(&self) -> BoundingBox<T> {
        self.bounds_spec()
    }

    fn bounding_box(&self) -> (r: BoundingBox<T>) {
        match self {
            BoundingVolumeHierarchy::Node { bounds, .. } => *bounds,
            BoundingVolumeHierarchy::Leaf { bounds, .. } => *bounds,
        }
    }
}

impl<T: Real, P: HasBoundingBox<T> + Clone> BoundingVolumeHierarchy<T, P> {
    /// The tree is the one that `build_from_slice` makes when it is given the
    /// primitives `given` and leaves them in the order `result`:
    /// - a leaf is made for at most one primitive; it holds a clone of it,
    ///   the primitives keep their order, and its box is the union of the
    ///   empty box with the box of that primitive;
    /// - a node is made for at least two; its box is the union of their
    ///   boxes in the order given; the primitives are then sorted by the
    ///   centres of their boxes along the axis in which that box is largest
    ///   (in an order among equal centres that is left open); the left
    ///   subtree is made from the first half of them (rounded down) and the
    ///   right subtree from the rest, and each leaves its part in its own
    ///   order.
    pub open spec fn built_from(self, given: Seq<P>, result: Seq<P>) -> bool
        decreases self,
    {
        match self {
            BoundingVolumeHierarchy::Node { bounds, left, right } => {
                let n = given.len() as int;
                let half = n / 2;
                let d = bounds.largest_dimension_spec();
                &&& n >= 2
                &&& result.len() == n
                &&& bounds == union_of_boxes_spec::<T, P>(given)
                &&& exists|sorted: Seq<P>|
                    #![trigger sorted_by_centre::<T, P>(sorted, d)]
                    {
                        &&& sorted.to_multiset() == given.to_multiset()
                        &&& sorted_by_centre::<T, P>(sorted, d)
                        &&& left.built_from(sorted.subrange(0, half), result.subrange(0, half))
                        &&& right.built_from(sorted.subrange(half, n), result.subrange(half, n))
                    }
            },
            BoundingVolumeHierarchy::Leaf { bounds, primitives } => {
                &&& given.len() <= 1
                &&& result == given
                &&& primitives@.len() == given.len()
                &&& forall|i: int|
                    0 <= i < given.len() ==> cloned::<P>(given[i], #[trigger] primitives@[i])
                &&& bounds == union_of_boxes_spec::<T, P>(given)
            },
        }
    }

    /// Building reorders the primitives and neither loses nor adds any.
    pub proof fn lemma_built_from_permutes(self, given: Seq<P>, result: Seq<P>)
        requires
            self.built_from(given, result),
        ensures
            result.to_multiset() == given.to_multiset(),
        decreases self,
    {
        match self {
            BoundingVolumeHierarchy::Node { bounds, left, right } => {
                let n = given.len() as int;
                let half = n / 2;
                let d = bounds.largest_dimension_spec();
                let sorted = choose|sorted: Seq<P>|
                    #![trigger sorted_by_centre::<T, P>(sorted, d)]
                    {
                        &&& sorted.to_multiset() == given.to_multiset()
                        &&& sorted_by_centre::<T, P>(sorted, d)
                        &&& left.built_from(sorted.subrange(0, half), result.subrange(0, half))
                        &&& right.built_from(sorted.subrange(half, n), result.subrange(half, n))
                    };
                vstd::seq_lib::to_multiset_len(sorted);
                vstd::seq_lib::to_multiset_len(given);
                left.lemma_built_from_permutes(sorted.subrange(0, half), result.subrange(0, half));
                right.lemma_built_from_permutes(sorted.subrange(half, n), result.subrange(half, n));
                assert(result =~= result.subrange(0, half) + result.subrange(half, n));
                assert(sorted =~= sorted.subrange(0, half) + sorted.subrange(half, n));
                vstd::seq_lib::lemma_multiset_commutative(
                    result.subrange(0, half),
                    result.subrange(half, n),
                );
                vstd::seq_lib::lemma_multiset_commutative(
                    sorted.subrange(0, half),
                    sorted.subrange(half, n),
                );
            },
            BoundingVolumeHierarchy::Leaf { .. } => {},
        }
    }

    /// Whatever lies in the box of one of the primitives a hierarchy is built
    /// from lies in the box at its root. Every subtree is built from a part
    /// of them, so this holds at every node: a point outside the box of a
    /// node lies outside every primitive below it.
    pub proof fn lemma_bounds_cover_primitives(self, given: Seq<P>, result: Seq<P>, x: P, p: [T; 3])
        requires
            self.built_from(given, result),
            given.contains(x) || result.contains(x),
            x.bounding_box_spec().contains_spec(p),
        ensures
            self.bounds_spec().contains_spec(p),
    {
        broadcast use vstd::seq_lib::group_to_multiset_ensures;

        self.lemma_built_from_permutes(given, result);
        if result.contains(x) {
            assert(result.to_multiset().count(x) > 0);
            assert(given.to_multiset().count(x) > 0);
        }
        lemma_union_of_boxes_covers::<T, P>(given, x, p);
    }

    /// At a node, along the axis in which its box is largest, no primitive of
    /// the left subtree has its centre beyond that of a primitive of the
    /// right subtree.
    pub proof fn lemma_node_splits_by_centre(self, given: Seq<P>, result: Seq<P>)
        requires
            self.built_from(given, result),
            given.len() >= 2,
        ensures
            forall|i: int, j: int|
                0 <= i < given.len() / 2 <= j < given.len() ==> centre_key::<T, P>(
                    #[trigger] result[i],
                    self.bounds_spec().largest_dimension_spec(),
                ) <= centre_key::<T, P>(
                    #[trigger] result[j],
                    self.bounds_spec().largest_dimension_spec(),
                ),
    {
        broadcast use vstd::seq_lib::group_to_multiset_ensures;

        match self {
            BoundingVolumeHierarchy::Node { bounds, left, right } => {
                let n = given.len() as int;
                let half = n / 2;
                let d = bounds.largest_dimension_spec();
                let sorted = choose|sorted: Seq<P>|
                    #![trigger sorted_by_centre::<T, P>(sorted, d)]
                    {
                        &&& sorted.to_multiset() == given.to_multiset()
                        &&& sorted_by_centre::<T, P>(sorted, d)
                        &&& left.built_from(sorted.subrange(0, half), result.subrange(0, half))
                        &&& right.built_from(sorted.subrange(half, n), result.subrange(half, n))
                    };
                vstd::seq_lib::to_multiset_len(sorted);
                vstd::seq_lib::to_multiset_len(given);
                let lg = sorted.subrange(0, half);
                let lr = result.subrange(0, half);
                let rg = sorted.subrange(half, n);
                let rr = result.subrange(half, n);
                left.lemma_built_from_permutes(lg, lr);
                right.lemma_built_from_permutes(rg, rr);
                assert forall|i: int, j: int| 0 <= i < half <= j < n implies centre_key::<T, P>(
                    #[trigger] result[i],
                    d,
                ) <= centre_key::<T, P>(#[trigger] result[j], d) by {
                    let x = result[i];
                    let y = result[j];
                    assert(lr[i] == x);
                    assert(rr[j - half] == y);
                    assert(lr.to_multiset().count(x) > 0);
                    assert(rr.to_multiset().count(y) > 0);
                    assert(lg.to_multiset().count(x) > 0);
                    assert(rg.to_multiset().count(y) > 0);
                    let a = choose|a: int| 0 <= a < lg.len() && lg[a] == x;
                    let b = choose|b: int| 0 <= b < rg.len() && rg[b] == y;
                    assert(sorted[a] == x);
                    assert(sorted[half + b] == y);
                }
            },
            BoundingVolumeHierarchy::Leaf { .. } => {},
        }
    }

    /// A hierarchy built from at least one primitive has exactly one in each leaf.
    pub proof fn lemma_every_leaf_holds_one(self, given: Seq<P>, result: Seq<P>)
        requires
            self.built_from(given, result),
            given.len() >= 1,
        ensures
            self.every_leaf_holds_one(),
        decreases self,
    {
        match self {
            BoundingVolumeHierarchy::Node { bounds, left, right } => {
                let n = given.len() as int;
                let half = n / 2;
                let d = bounds.largest_dimension_spec();
                let sorted = choose|sorted: Seq<P>|
                    #![trigger sorted_by_centre::<T, P>(sorted, d)]
                    {
                        &&& sorted.to_multiset() == given.to_multiset()
                        &&& sorted_by_centre::<T, P>(sorted, d)
                        &&& left.built_from(sorted.subrange(0, half), result.subrange(0, half))
                        &&& right.built_from(sorted.subrange(half, n), result.subrange(half, n))
                    };
                vstd::seq_lib::to_multiset_len(sorted);
                vstd::seq_lib::to_multiset_len(given);
                left.lemma_every_leaf_holds_one(sorted.subrange(0, half), result.subrange(0, half));
                right.lemma_every_leaf_holds_one(sorted.subrange(half, n), result.subrange(half, n));
            },
            BoundingVolumeHierarchy::Leaf { .. } => {},
        }
    }

    /// Builds the hierarchy of `primitives`, reordering them in place as
    /// `build_from_slice` does.
    pub fn build(primitives: &mut Vec<P>) -> (r: Self)
        ensures
            r.built_from(old(primitives)@, final(primitives)@),
            final(primitives)@.to_multiset() == old(primitives)@.to_multiset(),
            r.bounds_spec() == union_of_boxes_spec::<T, P>(old(primitives)@),
            old(primitives)@.len() >= 1 ==> r.every_leaf_holds_one(),
    {
        Self::build_from_slice(primitives)
    }

    /// Builds the hierarchy of `primitives`: a leaf with a clone of each of at
    /// most one primitive; otherwise a node whose box covers them all, over
    /// the hierarchies of the two halves of the primitives once they are
    /// sorted by the centres of their boxes along the axis in which that box
    /// is largest. The primitives are left in the order of the leaves.
    pub fn build_from_slice(primitives: &mut Vec<P>) -> (r: Self)
        ensures
            r.built_from(old(primitives)@, final(primitives)@),
            final(primitives)@.to_multiset() == old(primitives)@.to_multiset(),
            r.bounds_spec() == union_of_boxes_spec::<T, P>(old(primitives)@),
            old(primitives)@.len() >= 1 ==> r.every_leaf_holds_one(),
        decreases old(primitives)@.len(),
    {
        broadcast use vstd::seq_lib::group_to_multiset_ensures, vstd::multiset::group_multiset_axioms;

        let bounds = union_of_boxes::<T, P>(primitives);
        if primitives.len() <= 1 {
            let mut copies: Vec<P> = Vec::new();
            if primitives.len() == 1 {
                copies.push(primitives[0].clone());
            }
            let r = BoundingVolumeHierarchy::Leaf { bounds, primitives: copies };
            proof {
                if primitives@.len() >= 1 {
                    r.lemma_every_leaf_holds_one(primitives@, primitives@);
                }
            }
            return r;
        }
        let ghost given = primitives@;
        let pivot = heuristic_split::<T, P>(primitives, &bounds);
        let ghost sorted = primitives@;
        let mut right_primitives = primitives.split_off(pivot);
        let ghost left_part = primitives@;
        let ghost right_part = right_primitives@;
        proof {
            assert(left_part + right_part =~= sorted);
            vstd::seq_lib::lemma_multiset_commutative(left_part, right_part);
        }
        let left = Box::new(Self::build_from_slice(primitives));
        let right = Box::new(Self::build_from_slice(&mut right_primitives));
        let ghost left_final = primitives@;
        let ghost right_final = right_primitives@;
        primitives.append(&mut right_primitives);
        let r = BoundingVolumeHierarchy::Node { bounds, left, right };
        proof {
            let s = primitives@;
            let d = bounds.largest_dimension_spec();
            let n = given.len() as int;
            assert(s =~= left_final + right_final);
            vstd::seq_lib::to_multiset_len(left_final);
            vstd::seq_lib::to_multiset_len(left_part);
            vstd::seq_lib::to_multiset_len(right_final);
            vstd::seq_lib::to_multiset_len(right_part);
            vstd::seq_lib::to_multiset_len(sorted);
            vstd::seq_lib::to_multiset_len(given);
            vstd::seq_lib::lemma_multiset_commutative(left_final, right_final);
            let half = n / 2;
            assert(half == pivot);
            assert(sorted.subrange(0, half) =~= left_part);
            assert(sorted.subrange(half, n) =~= right_part);
            assert(s.subrange(0, half) =~= left_final);
            assert(s.subrange(half, n) =~= right_final);
            assert(s.to_multiset() =~= given.to_multiset());
            assert(union_of_boxes_spec::<T, P>(given) == bounds);
            assert(sorted_by_centre::<T, P>(sorted, d));
            assert(r.built_from(given, s));
            left.lemma_every_leaf_holds_one(left_part, left_final);
            right.lemma_every_leaf_holds_one(right_part, right_final);
        }
        r
    }
}

} // verus!
