use vstd::prelude::*;

use crate::realtype::{lt_spec, Real};
use crate::util::Interval;

verus! {

/// An axis-aligned box: one interval for each of the three axes.
#[derive(Debug, Clone, Copy)]
pub struct BoundingBox<T: Real> {
    pub bounds: [Interval<T>; 3],
}

impl<T: Real> BoundingBox<T> {
    /// The box with corners `a` and `b`, whichever corners they are.
    pub open spec fn from_corners_spec(a: [T; 3], b: [T; 3]) -> Self {
        BoundingBox {
            bounds: [
                Interval::new_spec(a[0], b[0]),
                Interval::new_spec(a[1], b[1]),
                Interval::new_spec(a[2], b[2]),
            ],
        }
    }

    /// The box that holds no point.
    pub open spec fn empty_spec() -> Self {
        BoundingBox {
            bounds: [Interval::empty_spec(), Interval::empty_spec(), Interval::empty_spec()],
        }
    }

    /// The box that holds `p` alone.
    pub open spec fn from_point_spec(p: [T; 3]) -> Self {
        BoundingBox {
            bounds: [
                Interval::degenerate_spec(p[0]),
                Interval::degenerate_spec(p[1]),
                Interval::degenerate_spec(p[2]),
            ],
        }
    }

    /// The smallest box that holds `self` and `p`.
    pub open spec fn expand_spec(self, p: [T; 3]) -> Self {
        BoundingBox {
            bounds: [
                self.bounds[0].expand_spec(p[0]),
                self.bounds[1].expand_spec(p[1]),
                self.bounds[2].expand_spec(p[2]),
            ],
        }
    }

    /// The smallest box that holds every point of `points`.
    pub open spec fn from_points_spec(points: Seq<[T; 3]>) -> Self
        decreases points.len(),
    {
        if points.len() == 0 {
            Self::empty_spec()
        } else {
            Self::from_points_spec(points.drop_last()).expand_spec(points.last())
        }
    }

    /// `p` lies in the box.
    pub open spec fn contains_spec(self, p: [T; 3]) -> bool {
        &&& self.bounds[0].contains_spec(p[0])
        &&& self.bounds[1].contains_spec(p[1])
        &&& self.bounds[2].contains_spec(p[2])
    }

    /// The smallest box that covers both boxes, axis by axis.
    pub open spec fn union_spec(self, other: Self) -> Self {
        BoundingBox {
            bounds: [
                self.bounds[0].union_spec(other.bounds[0]),
                self.bounds[1].union_spec(other.bounds[1]),
                self.bounds[2].union_spec(other.bounds[2]),
            ],
        }
    }

    /// The box has positive extent along axis `d`: its interval there holds
    /// more than one value.
    pub open spec fn is_proper(self, d: int) -> bool {
        lt_spec(self.bounds[d].min, self.bounds[d].max)
    }

    /// The extent of the box along axis `d`.
    pub open spec fn extent(self, d: int) -> int {
        T::span_spec(self.bounds[d].min, self.bounds[d].max)
    }

    /// Axis `d` is proper and wider than axis `best`, or `best` is no axis yet (`-1`).
    pub open spec fn wider_than(self, d: int, best: int) -> bool {
        self.is_proper(d) && (best < 0 || self.extent(best) < self.extent(d))
    }

    /// The widest proper axis among the first `n` axes, the first of several
    /// equally wide ones; `-1` when none of them is proper.
    pub open spec fn widest_among(self, n: int) -> int
        decreases n,
    {
        if n <= 0 {
            -1
        } else if self.wider_than(n - 1, self.widest_among(n - 1)) {
            n - 1
        } else {
            self.widest_among(n - 1)
        }
    }

    /// The first axis whose interval is not empty, or axis 0 when every
    /// interval is empty.
    pub open spec fn first_non_empty(self) -> int {
        if !self.bounds[0].is_empty_spec() {
            0
        } else if !self.bounds[1].is_empty_spec() {
            1
        } else if !self.bounds[2].is_empty_spec() {
            2
        } else {
            0
        }
    }

    /// The axis that `largest_dimension` picks: the widest proper axis; when
    /// no axis is proper, the first non-empty axis; when every axis is empty,
    /// axis 0.
    pub open spec fn largest_dimension_spec(self) -> int {
        if self.widest_among(3) < 0 {
            self.first_non_empty()
        } else {
            self.widest_among(3)
        }
    }

    /// Creates the box with corners `a` and `b`.
    pub fn from_corners(a: [T; 3], b: [T; 3]) -> (r: Self)
        ensures
            r == Self::from_corners_spec(a, b),
    {
        BoundingBox {
            bounds: [Interval::new(a[0], b[0]), Interval::new(a[1], b[1]), Interval::new(a[2], b[2])],
        }
    }

    /// Creates a box that holds no point.
    pub fn empty() -> (r: Self)
        ensures
            r == Self::empty_spec(),
    {
        BoundingBox { bounds: [Interval::empty(), Interval::empty(), Interval::empty()] }
    }

    /// Creates the box that holds `p` alone.
    pub fn from_point(p: [T; 3]) -> (r: Self)
        ensures
            r == Self::from_point_spec(p),
    {
        BoundingBox {
            bounds: [Interval::degenerate(p[0]), Interval::degenerate(p[1]), Interval::degenerate(p[2])],
        }
    }

    /// Creates the smallest box that holds every point of `points`.
    pub fn from_points(points: &[[T; 3]]) -> (r: Self)
        ensures
            r == Self::from_points_spec(points@),
    {
        let mut result = BoundingBox::empty();
        let mut k: usize = 0;
        while k < points.len()
            invariant
                k <= points@.len(),
                result == Self::from_points_spec(points@.take(k as int)),
            decreases points@.len() - k,
        {
            proof {
                assert(points@.take(k + 1).drop_last() =~= points@.take(k as int));
            }
            result = result.expand_to_point(&points[k]);
            k = k + 1;
        }
        proof {
            assert(points@.take(points@.len() as int) =~= points@);
        }
        result
    }

    /// The smallest box that holds `self` and `p`.
    pub fn expand_to_point(&self, p: &[T; 3]) -> (r: Self)
        ensures
            r == self.expand_spec(*p),
    {
        BoundingBox {
            bounds: [
                self.bounds[0].expand_to_value(p[0]),
                self.bounds[1].expand_to_value(p[1]),
                self.bounds[2].expand_to_value(p[2]),
            ],
        }
    }

    /// Does `p` lie in the box?
    pub fn contains_point(&self, p: [T; 3]) -> (r: bool)
        ensures
            r == self.contains_spec(p),
    {
        self.bounds[0].contains_value(p[0]) && self.bounds[1].contains_value(p[1])
            && self.bounds[2].contains_value(p[2])
    }

    /// The smallest box that covers both boxes, axis by axis.
    pub fn union(&self, other: &BoundingBox<T>) -> (r: BoundingBox<T>)
        ensures
            r == self.union_spec(*other),
    {
        BoundingBox {
            bounds: [
                self.bounds[0].union(other.bounds[0]),
                self.bounds[1].union(other.bounds[1]),
                self.bounds[2].union(other.bounds[2]),
            ],
        }
    }

    /// The axis along which the box is widest. Axes with positive extent come
    /// first; of several equally wide ones the first is taken. With no such
    /// axis, the first axis that holds a value is taken, and with none of
    /// those either, axis 0. The axis taken is empty only when every axis is,
    /// and no non-empty axis is wider than it.
    pub fn largest_dimension(&self) -> (r: usize)
        ensures
            r < 3,
            r == self.largest_dimension_spec(),
            self.bounds[r as int].is_empty_spec() ==> forall|d: int|
                0 <= d < 3 ==> self.bounds[d].is_empty_spec(),
            !self.bounds[r as int].is_empty_spec() ==> forall|d: int|
                0 <= d < 3 ==> self.bounds[d].is_empty_spec() || self.extent(d) <= self.extent(
                    r as int,
                ),
            (forall|d: int| 0 <= d < 3 ==> !self.is_proper(d)) ==> r == self.first_non_empty(),
            (exists|d: int| 0 <= d < 3 && self.is_proper(d)) ==> {
                &&& self.is_proper(r as int)
                &&& forall|d: int|
                    0 <= d < 3 && self.is_proper(d) ==> self.extent(d) <= self.extent(r as int)
                &&& forall|d: int|
                    0 <= d < r && self.is_proper(d) ==> self.extent(d) < self.extent(r as int)
            },
    {
        let mut best: usize = 0;
        let mut found = false;
        let mut d: usize = 0;
        while d < 3
            invariant
                d <= 3,
                best < 3,
                !found ==> best == 0,
                !found ==> forall|e: int| 0 <= e < d ==> !self.is_proper(e),
                found ==> best < d && self.is_proper(best as int),
                found ==> forall|e: int|
                    0 <= e < d && self.is_proper(e) ==> self.extent(e) <= self.extent(best as int),
                found ==> forall|e: int|
                    0 <= e < best && self.is_proper(e) ==> self.extent(e) < self.extent(best as int),
                self.widest_among(d as int) == if found {
                    best as int
                } else {
                    -1
                },
            decreases 3 - d,
        {
            let b = self.bounds[d];
            if !b.max.le(&b.min) {
                if !found || T::span_less(
                    &self.bounds[best].min,
                    &self.bounds[best].max,
                    &b.min,
                    &b.max,
                ) {
                    best = d;
                    found = true;
                }
            }
            d = d + 1;
        }
        let r = if found {
            best
        } else if !self.bounds[0].is_empty() {
            0
        } else if !self.bounds[1].is_empty() {
            1
        } else if !self.bounds[2].is_empty() {
            2
        } else {
            0
        };
        proof {
            Self::lemma_no_dimension_is_larger_than_largest_dimension(*self);
        }
        r
    }
}

/// Some point of `points` lies at or above `p` along axis `d`, and some point
/// at or below it.
pub open spec fn bounded_on_axis<T: Real>(points: Seq<[T; 3]>, p: [T; 3], d: int) -> bool {
    &&& exists|i: int| 0 <= i < points.len() && p[d].le_spec(#[trigger] points[i][d])
    &&& exists|j: int| 0 <= j < points.len() && (#[trigger] points[j][d]).le_spec(p[d])
}

impl<T: Real> BoundingBox<T> {
    /// The box with both corners at one point is degenerate along every axis.
    pub proof fn lemma_from_corners_of_one_point_is_degenerate(p: [T; 3])
        ensures
            Self::from_corners_spec(p, p).bounds[0].is_degenerate_spec(),
            Self::from_corners_spec(p, p).bounds[1].is_degenerate_spec(),
            Self::from_corners_spec(p, p).bounds[2].is_degenerate_spec(),
    {
    }

    /// Any two opposite corners give the same box: along each axis the two
    /// corners may come in either order.
    pub proof fn lemma_from_corners_ignores_corner_order(a: [T; 3], b: [T; 3], c: [T; 3], e: [T; 3])
        requires
            forall|k: int|
                0 <= k < 3 ==> (c[k] == a[k] && e[k] == b[k]) || (c[k] == b[k] && e[k] == a[k]),
        ensures
            Self::from_corners_spec(c, e) == Self::from_corners_spec(a, b),
    {
        assert((c[0] == a[0] && e[0] == b[0]) || (c[0] == b[0] && e[0] == a[0]));
        assert((c[1] == a[1] && e[1] == b[1]) || (c[1] == b[1] && e[1] == a[1]));
        assert((c[2] == a[2] && e[2] == b[2]) || (c[2] == b[2] && e[2] == a[2]));
        Interval::<T>::lemma_new_is_symmetric(a[0], b[0]);
        Interval::<T>::lemma_new_is_symmetric(a[1], b[1]);
        Interval::<T>::lemma_new_is_symmetric(a[2], b[2]);
    }

    /// The box with corners `a` and `b` holds a point exactly when, along
    /// every axis, the point lies between the two corners.
    pub proof fn lemma_from_corners_holds_the_points_between(a: [T; 3], b: [T; 3], p: [T; 3])
        ensures
            Self::from_corners_spec(a, b).contains_spec(p) <==> forall|d: int|
                0 <= d < 3 ==> (a[d].le_spec(p[d]) && p[d].le_spec(b[d])) || (b[d].le_spec(p[d])
                    && p[d].le_spec(a[d])),
    {
        Interval::<T>::lemma_new_holds_the_values_between_its_ends(a[0], b[0], p[0]);
        Interval::<T>::lemma_new_holds_the_values_between_its_ends(a[1], b[1], p[1]);
        Interval::<T>::lemma_new_holds_the_values_between_its_ends(a[2], b[2], p[2]);
        if forall|d: int|
            0 <= d < 3 ==> (a[d].le_spec(p[d]) && p[d].le_spec(b[d])) || (b[d].le_spec(p[d])
                && p[d].le_spec(a[d])) {
            assert((a[0].le_spec(p[0]) && p[0].le_spec(b[0])) || (b[0].le_spec(p[0]) && p[0].le_spec(a[0])));
            assert((a[1].le_spec(p[1]) && p[1].le_spec(b[1])) || (b[1].le_spec(p[1]) && p[1].le_spec(a[1])));
            assert((a[2].le_spec(p[2]) && p[2].le_spec(b[2])) || (b[2].le_spec(p[2]) && p[2].le_spec(a[2])));
        }
    }

    /// The union of a box with itself is that box.
    pub proof fn lemma_union_with_self_is_identity(x: Self)
        ensures
            x.union_spec(x) == x,
    {
        Interval::<T>::lemma_union_with_self_is_identity(x.bounds[0]);
        Interval::<T>::lemma_union_with_self_is_identity(x.bounds[1]);
        Interval::<T>::lemma_union_with_self_is_identity(x.bounds[2]);
        assert(x.union_spec(x).bounds =~= x.bounds);
    }

    /// The union covers both boxes: along every axis where both are non-empty
    /// it reaches below both minima and above both maxima, and it holds every
    /// point that either box holds.
    pub proof fn lemma_union_covers_both(x: Self, y: Self, p: [T; 3], d: int)
        requires
            0 <= d < 3,
        ensures
            !x.bounds[d].is_empty_spec() && !y.bounds[d].is_empty_spec() ==> {
                let u = x.union_spec(y).bounds[d];
                &&& u.min.le_spec(x.bounds[d].min) && u.min.le_spec(y.bounds[d].min)
                &&& x.bounds[d].max.le_spec(u.max) && y.bounds[d].max.le_spec(u.max)
            },
            x.contains_spec(p) ==> x.union_spec(y).contains_spec(p),
            y.contains_spec(p) ==> x.union_spec(y).contains_spec(p),
    {
        Self::lemma_union_interval_covers(x.bounds[d], y.bounds[d], p[d]);
        Self::lemma_union_interval_covers(x.bounds[0], y.bounds[0], p[0]);
        Self::lemma_union_interval_covers(x.bounds[1], y.bounds[1], p[1]);
        Self::lemma_union_interval_covers(x.bounds[2], y.bounds[2], p[2]);
    }

    proof fn lemma_union_interval_covers(a: Interval<T>, b: Interval<T>, v: T)
        ensures
            !a.is_empty_spec() && !b.is_empty_spec() ==> {
                let u = a.union_spec(b);
                &&& u.min.le_spec(a.min) && u.min.le_spec(b.min)
                &&& a.max.le_spec(u.max) && b.max.le_spec(u.max)
            },
            a.contains_spec(v) ==> a.union_spec(b).contains_spec(v),
            b.contains_spec(v) ==> a.union_spec(b).contains_spec(v),
    {
        T::lemma_total_order(a.min, b.min, v);
        T::lemma_total_order(b.min, a.min, v);
        T::lemma_total_order(a.max, b.max, v);
        T::lemma_total_order(b.max, a.max, v);
        T::lemma_total_order(v, a.max, b.max);
        T::lemma_total_order(v, b.max, a.max);
        T::lemma_total_order(a.min, v, a.max);
        T::lemma_total_order(b.min, v, b.max);
        T::lemma_total_order(b.min, a.min, a.max);
        T::lemma_total_order(a.min, b.min, b.max);
        T::lemma_total_order(a.min, a.max, b.max);
        T::lemma_total_order(b.min, b.max, a.max);
        T::lemma_total_order(a.min, a.max, a.min);
        T::lemma_total_order(b.min, b.max, b.min);
    }

    /// No non-empty axis is wider than the one `largest_dimension` picks, and
    /// that axis is empty only when every axis is.
    pub proof fn lemma_no_dimension_is_larger_than_largest_dimension(b: Self)
        ensures
            ({
                let r = b.largest_dimension_spec();
                &&& 0 <= r < 3
                &&& b.bounds[r].is_empty_spec() ==> forall|d: int|
                    0 <= d < 3 ==> b.bounds[d].is_empty_spec()
                &&& !b.bounds[r].is_empty_spec() ==> forall|d: int|
                    0 <= d < 3 && !b.bounds[d].is_empty_spec() ==> b.extent(d) <= b.extent(r)
            }),
    {
        reveal_with_fuel(BoundingBox::widest_among, 4);
        let r = b.largest_dimension_spec();
        assert(0 <= r < 3);
        T::lemma_total_order(b.bounds[r].min, b.bounds[r].max, b.bounds[r].min);
        if exists|d: int| 0 <= d < 3 && b.is_proper(d) {
            assert(b.is_proper(r));
            assert forall|d: int| 0 <= d < 3 && b.is_proper(d) implies b.extent(d) <= b.extent(r) by {
            }
            assert forall|d: int| 0 <= d < 3 && !b.bounds[d].is_empty_spec() implies b.extent(d)
                <= b.extent(r) by {
                let iv = b.bounds[d];
                T::lemma_total_order(iv.min, iv.max, iv.min);
                if !b.is_proper(d) {
                    assert(iv.min == iv.max);
                    T::lemma_point_has_least_span(iv.min, b.bounds[r].min, b.bounds[r].max);
                }
            }
        } else {
            assert(b.widest_among(3) < 0);
            assert forall|d: int| 0 <= d < 3 && !b.bounds[d].is_empty_spec() implies b.extent(d)
                <= b.extent(r) by {
                let iv = b.bounds[d];
                let rv = b.bounds[r];
                T::lemma_total_order(iv.min, iv.max, iv.min);
                T::lemma_total_order(rv.min, rv.max, rv.min);
                assert(!b.is_proper(d));
                assert(iv.min == iv.max);
                if !rv.is_empty_spec() {
                    assert(!b.is_proper(r));
                    assert(rv.min == rv.max);
                    T::lemma_point_has_least_span(iv.min, rv.min, rv.max);
                }
            }
        }
    }

    /// The empty box holds no point.
    pub proof fn lemma_empty_holds_nothing(p: [T; 3])
        ensures
            !Self::empty_spec().contains_spec(p),
    {
        Interval::<T>::lemma_empty_holds_nothing(Interval::<T>::empty_spec(), p[0]);
    }

    /// Along axis `d`, the box of `points` runs from the least to the greatest
    /// coordinate of the points, both attained; with no points it is empty.
    proof fn lemma_from_points_axis(points: Seq<[T; 3]>, d: int)
        requires
            0 <= d < 3,
        ensures
            points.len() == 0 ==> Self::from_points_spec(points).bounds[d] == Interval::<
                T,
            >::empty_spec(),
            points.len() > 0 ==> {
                let iv = Self::from_points_spec(points).bounds[d];
                &&& !iv.is_empty_spec()
                &&& exists|i: int| 0 <= i < points.len() && iv.min == #[trigger] points[i][d]
                &&& exists|i: int| 0 <= i < points.len() && iv.max == #[trigger] points[i][d]
                &&& forall|i: int|
                    0 <= i < points.len() ==> iv.min.le_spec(#[trigger] points[i][d])
                        && points[i][d].le_spec(iv.max)
            },
        decreases points.len(),
    {
        if points.len() > 0 {
            let prev_points = points.drop_last();
            let n = points.len() - 1;
            Self::lemma_from_points_axis(prev_points, d);
            let prev = Self::from_points_spec(prev_points).bounds[d];
            let iv = Self::from_points_spec(points).bounds[d];
            let x = points.last()[d];
            assert(points[n][d] == x);
            assert(iv == prev.expand_spec(x));
            T::lemma_total_order(x, x, x);
            if prev_points.len() == 0 {
                T::lemma_extremes(x);
                assert(prev.is_empty_spec());
                assert(iv == Interval::degenerate_spec(x));
                assert forall|i: int| 0 <= i < points.len() implies iv.min.le_spec(
                    #[trigger] points[i][d],
                ) && points[i][d].le_spec(iv.max) by {
                    assert(i == n);
                    assert(points[i][d] == x);
                    assert(iv.min == x && iv.max == x);
                }
            } else {
                let i_min = choose|i: int| 0 <= i < prev_points.len() && prev.min == #[trigger] prev_points[i][d];
                let i_max = choose|i: int| 0 <= i < prev_points.len() && prev.max == #[trigger] prev_points[i][d];
                assert(prev_points[i_min] == points[i_min]);
                assert(prev_points[i_max] == points[i_max]);
                T::lemma_total_order(prev.min, x, prev.max);
                T::lemma_total_order(x, prev.min, prev.max);
                T::lemma_total_order(prev.min, prev.max, x);
                assert(!iv.is_empty_spec());
                if prev.min.le_spec(x) {
                    assert(iv.min == points[i_min][d]);
                } else {
                    assert(iv.min == points[n][d]);
                }
                if prev.max.le_spec(x) {
                    assert(iv.max == points[n][d]);
                } else {
                    assert(iv.max == points[i_max][d]);
                }
                assert forall|i: int| 0 <= i < points.len() implies iv.min.le_spec(
                    #[trigger] points[i][d],
                ) && points[i][d].le_spec(iv.max) by {
                    if i < n {
                        assert(prev_points[i] == points[i]);
                        assert(prev.min.le_spec(prev_points[i][d]) && prev_points[i][d].le_spec(
                            prev.max,
                        ));
                        T::lemma_total_order(iv.min, prev.min, points[i][d]);
                        T::lemma_total_order(points[i][d], prev.max, iv.max);
                        T::lemma_total_order(x, prev.min, points[i][d]);
                        T::lemma_total_order(points[i][d], prev.max, x);
                    } else {
                        assert(i == n);
                        T::lemma_total_order(x, prev.max, x);
                        T::lemma_total_order(x, prev.min, x);
                    }
                }
            }
        }
    }

    /// The box of `points` holds `p` exactly when, along every axis, some
    /// point lies at or above `p` and some point at or below it.
    pub proof fn lemma_from_points_holds_exactly_the_bounded_points(points: Seq<[T; 3]>, p: [T; 3])
        ensures
            Self::from_points_spec(points).contains_spec(p) <==> (bounded_on_axis(points, p, 0)
                && bounded_on_axis(points, p, 1) && bounded_on_axis(points, p, 2)),
    {
        Self::lemma_axis_holds_exactly_the_bounded_values(points, p, 0);
        Self::lemma_axis_holds_exactly_the_bounded_values(points, p, 1);
        Self::lemma_axis_holds_exactly_the_bounded_values(points, p, 2);
    }

    proof fn lemma_axis_holds_exactly_the_bounded_values(points: Seq<[T; 3]>, p: [T; 3], d: int)
        requires
            0 <= d < 3,
        ensures
            Self::from_points_spec(points).bounds[d].contains_spec(p[d]) <==> bounded_on_axis(
                points,
                p,
                d,
            ),
    {
        Self::lemma_from_points_axis(points, d);
        let iv = Self::from_points_spec(points).bounds[d];
        let v = p[d];
        if points.len() == 0 {
            Interval::<T>::lemma_empty_holds_nothing(iv, v);
        } else {
            let i_min = choose|i: int| 0 <= i < points.len() && iv.min == #[trigger] points[i][d];
            let i_max = choose|i: int| 0 <= i < points.len() && iv.max == #[trigger] points[i][d];
            if iv.contains_spec(v) {
                assert(points[i_min][d].le_spec(v));
                assert(v.le_spec(points[i_max][d]));
            }
            if bounded_on_axis(points, p, d) {
                let i = choose|i: int| 0 <= i < points.len() && v.le_spec(#[trigger] points[i][d]);
                let j = choose|j: int| 0 <= j < points.len() && (#[trigger] points[j][d]).le_spec(v);
                T::lemma_total_order(iv.min, points[j][d], v);
                T::lemma_total_order(v, points[i][d], iv.max);
            }
        }
    }
}

} // verus!
