use vstd::prelude::*;

use crate::realtype::{max_of, max_spec, min_of, min_spec, Real};

verus! {

/// A closed interval `[min, max]` of a totally ordered scalar type.
///
/// An interval whose `min` lies above its `max` is empty; one whose `min`
/// equals its `max` is degenerate and holds a single value.
#[derive(Debug, Clone, Copy)]
pub struct Interval<T: Real> {
    pub min: T,
    pub max: T,
}

impl<T: Real> Interval<T> {
    /// The interval spanned by `a` and `b`, whichever of the two is larger.
    pub open spec fn new_spec(a: T, b: T) -> Self {
        Interval { min: min_spec(a, b), max: max_spec(a, b) }
    }

    /// The canonical empty interval, from the greatest to the least value.
    pub open spec fn empty_spec() -> Self {
        Interval { min: T::highest_spec(), max: T::lowest_spec() }
    }

    /// The interval holding every value.
    pub open spec fn infinite_spec() -> Self {
        Interval { min: T::lowest_spec(), max: T::highest_spec() }
    }

    /// The interval holding `value` alone.
    pub open spec fn degenerate_spec(value: T) -> Self {
        Interval { min: value, max: value }
    }

    /// The interval is empty when its minimum lies strictly above its maximum.
    pub open spec fn is_empty_spec(self) -> bool {
        !self.min.le_spec(self.max)
    }

    /// The interval is degenerate when its minimum equals its maximum.
    pub open spec fn is_degenerate_spec(self) -> bool {
        self.min == self.max
    }

    /// `value` lies in the interval.
    pub open spec fn contains_spec(self, value: T) -> bool {
        self.min.le_spec(value) && value.le_spec(self.max)
    }

    /// The largest interval inside both `self` and `b`.
    pub open spec fn intersection_spec(self, b: Self) -> Self {
        Interval { min: max_spec(self.min, b.min), max: min_spec(self.max, b.max) }
    }

    /// The smallest interval that covers both intervals; an empty operand is ignored.
    pub open spec fn union_spec(self, b: Self) -> Self {
        if self.is_empty_spec() {
            b
        } else if b.is_empty_spec() {
            self
        } else {
            Interval { min: min_spec(self.min, b.min), max: max_spec(self.max, b.max) }
        }
    }

    /// The smallest interval that covers `self` and `v`.
    pub open spec fn expand_spec(self, v: T) -> Self {
        if self.is_empty_spec() {
            Self::degenerate_spec(v)
        } else {
            Interval { min: min_spec(self.min, v), max: max_spec(self.max, v) }
        }
    }

    /// Creates the interval spanned by `a` and `b`, in either order.
    pub fn new(a: T, b: T) -> (r: Self)
        ensures
            r == Self::new_spec(a, b),
    {
        if !a.le(&b) {
            Interval { min: b, max: a }
        } else {
            Interval { min: a, max: b }
        }
    }

    /// Creates an empty interval, from the greatest value down to the least.
    pub fn empty() -> (r: Self)
        ensures
            r == Self::empty_spec(),
    {
        Interval { min: T::highest(), max: T::lowest() }
    }

    /// Creates the interval that holds every value.
    pub fn infinite() -> (r: Self)
        ensures
            r == Self::infinite_spec(),
    {
        Interval { min: T::lowest(), max: T::highest() }
    }

    /// Creates the interval that holds `value` alone.
    pub fn degenerate(value: T) -> (r: Self)
        ensures
            r == Self::degenerate_spec(value),
    {
        Interval { min: value, max: value }
    }

    /// The lower end of the interval.
    pub fn get_min(&self) -> (r: T)
        ensures
            r == self.min,
    {
        self.min
    }

    /// The upper end of the interval.
    pub fn get_max(&self) -> (r: T)
        ensures
            r == self.max,
    {
        self.max
    }

    /// Does the interval hold exactly one value?
    pub fn is_degenerate(self) -> (r: bool)
        ensures
            r == self.is_degenerate_spec(),
    {
        proof {
            T::lemma_total_order(self.min, self.max, self.min);
        }
        self.min.le(&self.max) && self.max.le(&self.min)
    }

    /// Is the interval empty (its minimum above its maximum)?
    pub fn is_empty(self) -> (r: bool)
        ensures
            r == self.is_empty_spec(),
    {
        !self.min.le(&self.max)
    }

    /// Does `value` lie in the interval?
    pub fn contains_value(&self, value: T) -> (r: bool)
        ensures
            r == self.contains_spec(value),
    {
        self.min.le(&value) && value.le(&self.max)
    }

    /// The intersection of two intervals.
    pub fn intersection(self, b: Self) -> (r: Self)
        ensures
            r == self.intersection_spec(b),
    {
        Interval { min: max_of(self.min, b.min), max: min_of(self.max, b.max) }
    }

    /// The smallest interval covering both; an empty operand is ignored.
    pub fn union(self, b: Self) -> (r: Self)
        ensures
            r == self.union_spec(b),
    {
        if self.is_empty() {
            b
        } else if b.is_empty() {
            self
        } else {
            Interval { min: min_of(self.min, b.min), max: max_of(self.max, b.max) }
        }
    }

    /// The smallest interval covering `self` and `v`.
    pub fn expand_to_value(self, v: T) -> (r: Self)
        ensures
            r == self.expand_spec(v),
    {
        if self.is_empty() {
            Interval::degenerate(v)
        } else {
            Interval { min: min_of(self.min, v), max: max_of(self.max, v) }
        }
    }
}

impl<T: Real> Interval<T> {
    /// An interval made by `new` is never empty, whichever order its ends come in.
    pub proof fn lemma_new_is_never_empty(a: T, b: T)
        ensures
            !Self::new_spec(a, b).is_empty_spec(),
            Self::new_spec(a, b).contains_spec(a),
            Self::new_spec(a, b).contains_spec(b),
    {
        T::lemma_total_order(a, b, a);
        T::lemma_total_order(b, a, b);
    }

    /// The order in which `new` gets the two ends does not matter.
    pub proof fn lemma_new_is_symmetric(a: T, b: T)
        ensures
            Self::new_spec(a, b) == Self::new_spec(b, a),
    {
        T::lemma_total_order(a, b, a);
    }

    /// An empty interval holds no value and is not degenerate; `empty` makes one.
    pub proof fn lemma_empty_holds_nothing(x: Self, v: T)
        ensures
            Self::empty_spec().is_empty_spec(),
            x.is_empty_spec() ==> !x.contains_spec(v),
            x.is_empty_spec() ==> !x.is_degenerate_spec(),
    {
        T::lemma_extremes(v);
        T::lemma_total_order(x.min, v, x.max);
        T::lemma_total_order(x.min, x.max, x.min);
    }

    /// `degenerate(value)` is degenerate, not empty, and holds `value` and nothing else.
    pub proof fn lemma_degenerate_holds_one_value(value: T, w: T)
        ensures
            Self::degenerate_spec(value).is_degenerate_spec(),
            !Self::degenerate_spec(value).is_empty_spec(),
            Self::degenerate_spec(value).contains_spec(w) <==> w == value,
    {
        T::lemma_total_order(value, w, value);
    }

    /// Intersecting with the infinite interval changes nothing.
    pub proof fn lemma_intersection_with_infinite_is_identity(x: Self)
        ensures
            x.intersection_spec(Self::infinite_spec()) == x,
    {
        T::lemma_extremes(x.min);
        T::lemma_extremes(x.max);
        T::lemma_total_order(x.min, T::lowest_spec(), x.min);
        T::lemma_total_order(x.max, T::highest_spec(), x.max);
    }

    /// The union of an interval with itself is that interval.
    pub proof fn lemma_union_with_self_is_identity(x: Self)
        ensures
            x.union_spec(x) == x,
    {
        T::lemma_total_order(x.min, x.max, x.min);
    }

    /// An empty operand leaves the other operand of a union unchanged.
    pub proof fn lemma_union_with_empty_is_identity(x: Self, e: Self)
        requires
            e.is_empty_spec(),
        ensures
            x.union_spec(e) == x || x.is_empty_spec(),
            e.union_spec(x) == x,
    {
    }

    /// The union of `new(a, b)` and `new(c, d)` runs from the least to the
    /// greatest of the four values.
    pub proof fn lemma_union_spans_all_ends(a: T, b: T, c: T, d: T)
        ensures
            ({
                let r = Self::new_spec(a, b).union_spec(Self::new_spec(c, d));
                &&& r.min.le_spec(a) && r.min.le_spec(b) && r.min.le_spec(c) && r.min.le_spec(d)
                &&& (r.min == a || r.min == b || r.min == c || r.min == d)
                &&& a.le_spec(r.max) && b.le_spec(r.max) && c.le_spec(r.max) && d.le_spec(r.max)
                &&& (r.max == a || r.max == b || r.max == c || r.max == d)
            }),
    {
        let x = Self::new_spec(a, b);
        let y = Self::new_spec(c, d);
        Self::lemma_new_is_never_empty(a, b);
        Self::lemma_new_is_never_empty(c, d);
        Self::lemma_min_max_bound(a, b);
        Self::lemma_min_max_bound(c, d);
        Self::lemma_min_max_bound(x.min, y.min);
        Self::lemma_min_max_bound(x.max, y.max);
        let r = x.union_spec(y);
        T::lemma_total_order(r.min, x.min, a);
        T::lemma_total_order(r.min, x.min, b);
        T::lemma_total_order(r.min, y.min, c);
        T::lemma_total_order(r.min, y.min, d);
        T::lemma_total_order(a, x.max, r.max);
        T::lemma_total_order(b, x.max, r.max);
        T::lemma_total_order(c, y.max, r.max);
        T::lemma_total_order(d, y.max, r.max);
    }

    /// The smaller of two values lies below both and is one of them; the
    /// larger lies above both and is one of them.
    proof fn lemma_min_max_bound(a: T, b: T)
        ensures
            min_spec(a, b).le_spec(a) && min_spec(a, b).le_spec(b),
            min_spec(a, b) == a || min_spec(a, b) == b,
            a.le_spec(max_spec(a, b)) && b.le_spec(max_spec(a, b)),
            max_spec(a, b) == a || max_spec(a, b) == b,
    {
        T::lemma_total_order(a, b, a);
        T::lemma_total_order(b, a, b);
    }

    /// A value lies in `new(a, b)` exactly when it lies between `a` and `b`,
    /// in whichever order they come; the lower end of the result is the
    /// smaller of the two.
    pub proof fn lemma_new_holds_the_values_between_its_ends(a: T, b: T, v: T)
        ensures
            Self::new_spec(a, b).contains_spec(v) <==> (a.le_spec(v) && v.le_spec(b)) || (
            b.le_spec(v) && v.le_spec(a)),
            Self::new_spec(a, b).min.le_spec(a) && Self::new_spec(a, b).min.le_spec(b),
            Self::new_spec(a, b).min == a || Self::new_spec(a, b).min == b,
            a.le_spec(Self::new_spec(a, b).max) && b.le_spec(Self::new_spec(a, b).max),
            Self::new_spec(a, b).max == a || Self::new_spec(a, b).max == b,
    {
        Self::lemma_min_max_bound(a, b);
        T::lemma_total_order(a, b, v);
        T::lemma_total_order(b, a, v);
        T::lemma_total_order(v, a, b);
        T::lemma_total_order(v, b, a);
        T::lemma_total_order(a, v, b);
        T::lemma_total_order(b, v, a);
    }

    /// The infinite interval holds every value.
    pub proof fn lemma_infinite_holds_everything(v: T)
        ensures
            Self::infinite_spec().contains_spec(v),
    {
        T::lemma_extremes(v);
    }

    /// An interval is empty exactly when it holds no value.
    pub proof fn lemma_empty_exactly_when_holding_nothing(x: Self)
        ensures
            x.is_empty_spec() <==> forall|v: T| !x.contains_spec(v),
    {
        if x.is_empty_spec() {
            assert forall|v: T| !x.contains_spec(v) by {
                T::lemma_total_order(x.min, v, x.max);
            }
        } else {
            T::lemma_total_order(x.min, x.max, x.min);
            assert(x.contains_spec(x.min));
        }
    }

    /// An interval is degenerate exactly when it holds its lower end and no
    /// other value.
    pub proof fn lemma_degenerate_exactly_when_holding_one_value(x: Self)
        ensures
            x.is_degenerate_spec() <==> (x.contains_spec(x.min) && forall|v: T|
                x.contains_spec(v) ==> v == x.min),
    {
        T::lemma_total_order(x.min, x.max, x.min);
        if x.is_degenerate_spec() {
            assert forall|v: T| x.contains_spec(v) implies v == x.min by {
                T::lemma_total_order(x.min, v, x.min);
            }
        } else if x.contains_spec(x.min) {
            T::lemma_total_order(x.max, x.max, x.max);
            assert(x.contains_spec(x.max));
        }
    }

    /// A value lies in the intersection of two intervals exactly when it lies
    /// in both; the intersection runs from the larger of the lower ends to the
    /// smaller of the upper ends.
    pub proof fn lemma_intersection_holds_the_common_values(x: Self, y: Self, v: T)
        ensures
            x.intersection_spec(y).contains_spec(v) <==> (x.contains_spec(v) && y.contains_spec(v)),
            x.min.le_spec(x.intersection_spec(y).min) && y.min.le_spec(x.intersection_spec(y).min),
            x.intersection_spec(y).min == x.min || x.intersection_spec(y).min == y.min,
            x.intersection_spec(y).max.le_spec(x.max) && x.intersection_spec(y).max.le_spec(y.max),
            x.intersection_spec(y).max == x.max || x.intersection_spec(y).max == y.max,
    {
        let r = x.intersection_spec(y);
        Self::lemma_min_max_bound(x.min, y.min);
        Self::lemma_min_max_bound(x.max, y.max);
        T::lemma_total_order(x.min, r.min, v);
        T::lemma_total_order(y.min, r.min, v);
        T::lemma_total_order(v, r.max, x.max);
        T::lemma_total_order(v, r.max, y.max);
    }

    /// The union holds every value that either interval holds, and it is the
    /// smallest interval that does so: any interval holding the ends of every
    /// non-empty operand holds every value of the union.
    pub proof fn lemma_union_is_the_smallest_cover(x: Self, z: Self, y: Self, v: T)
        ensures
            x.contains_spec(v) ==> x.union_spec(z).contains_spec(v),
            z.contains_spec(v) ==> x.union_spec(z).contains_spec(v),
            (!x.is_empty_spec() ==> y.contains_spec(x.min) && y.contains_spec(x.max)) && (
            !z.is_empty_spec() ==> y.contains_spec(z.min) && y.contains_spec(z.max))
                && x.union_spec(z).contains_spec(v) ==> y.contains_spec(v),
    {
        let r = x.union_spec(z);
        Self::lemma_min_max_bound(x.min, z.min);
        Self::lemma_min_max_bound(x.max, z.max);
        Self::lemma_empty_holds_nothing(x, v);
        Self::lemma_empty_holds_nothing(z, v);
        T::lemma_total_order(r.min, x.min, v);
        T::lemma_total_order(r.min, z.min, v);
        T::lemma_total_order(v, x.max, r.max);
        T::lemma_total_order(v, z.max, r.max);
        T::lemma_total_order(y.min, r.min, v);
        T::lemma_total_order(v, r.max, y.max);
        T::lemma_total_order(y.min, x.min, v);
        T::lemma_total_order(y.min, z.min, v);
        T::lemma_total_order(v, x.max, y.max);
        T::lemma_total_order(v, z.max, y.max);
    }

    /// Expanding an interval to `v` gives an interval that holds `v` and every
    /// value the interval held, and it is the smallest such: any interval
    /// holding `v`, and the ends of the interval if it is not empty, holds
    /// every value of the result. Expanding an empty interval, whatever its
    /// ends, gives the interval of `v` alone.
    pub proof fn lemma_expand_is_the_smallest_cover(x: Self, v: T, y: Self, w: T)
        ensures
            x.expand_spec(v).contains_spec(v),
            x.contains_spec(w) ==> x.expand_spec(v).contains_spec(w),
            y.contains_spec(v) && (!x.is_empty_spec() ==> y.contains_spec(x.min) && y.contains_spec(
                x.max,
            )) && x.expand_spec(v).contains_spec(w) ==> y.contains_spec(w),
            x.is_empty_spec() ==> (x.expand_spec(v).contains_spec(w) <==> w == v),
    {
        let r = x.expand_spec(v);
        Self::lemma_expand_holds_value(x, v);
        Self::lemma_min_max_bound(x.min, v);
        Self::lemma_min_max_bound(x.max, v);
        Self::lemma_empty_holds_nothing(x, w);
        T::lemma_total_order(r.min, x.min, w);
        T::lemma_total_order(w, x.max, r.max);
        T::lemma_total_order(y.min, r.min, w);
        T::lemma_total_order(w, r.max, y.max);
        T::lemma_total_order(y.min, x.min, w);
        T::lemma_total_order(y.min, v, w);
        T::lemma_total_order(w, x.max, y.max);
        T::lemma_total_order(w, v, y.max);
        T::lemma_total_order(v, w, v);
    }

    /// Expanding any interval, empty or not, to a value makes it hold that value.
    pub proof fn lemma_expand_holds_value(x: Self, v: T)
        ensures
            x.expand_spec(v).contains_spec(v),
            !x.expand_spec(v).is_empty_spec(),
    {
        T::lemma_total_order(x.min, v, x.max);
        T::lemma_total_order(v, x.min, x.max);
        T::lemma_total_order(v, x.max, x.min);
    }

    /// Expanding a non-empty interval keeps every value it held, so
    /// intersecting the result with `x` gives `x` back.
    pub proof fn lemma_expand_keeps_interval(x: Self, v: T, w: T)
        requires
            !x.is_empty_spec(),
        ensures
            x.expand_spec(v).intersection_spec(x) == x,
            x.contains_spec(w) ==> x.expand_spec(v).contains_spec(w),
    {
        T::lemma_total_order(x.min, v, x.max);
        T::lemma_total_order(v, x.min, x.max);
        T::lemma_total_order(v, x.max, x.min);
        T::lemma_total_order(x.min, x.max, v);
        T::lemma_total_order(x.max, x.min, v);
        T::lemma_total_order(v, x.min, w);
        T::lemma_total_order(w, x.max, v);
        T::lemma_total_order(x.min, v, w);
        T::lemma_total_order(w, v, x.max);
    }
}

} // verus!
