use vstd::prelude::*;

verus! {

/// A totally ordered scalar with a least and a greatest value.
///
/// Intervals and bounds range over such a type. `lowest` and `highest` play
/// the part of minus and plus infinity: every value lies between them, and
/// they differ from each other.
pub trait Real: Copy + Sized {
    /// `self <= other` in the order of the type.
    spec fn le_spec(self, other: Self) -> bool;

    /// The least value of the type.
    spec fn lowest_spec() -> Self;

    /// The greatest value of the type.
    spec fn highest_spec() -> Self;

    /// The order is total: reflexive, antisymmetric, transitive and connex.
    proof fn lemma_total_order(a: Self, b: Self, c: Self)
        ensures
            a.le_spec(a),
            a.le_spec(b) || b.le_spec(a),
            a.le_spec(b) && b.le_spec(a) ==> a == b,
            a.le_spec(b) && b.le_spec(c) ==> a.le_spec(c),
    ;

    /// `lowest` is below every value, `highest` above every value, and the two differ.
    proof fn lemma_extremes(a: Self)
        ensures
            Self::lowest_spec().le_spec(a),
            a.le_spec(Self::highest_spec()),
            !Self::highest_spec().le_spec(Self::lowest_spec()),
    ;

    /// Is `self <= other`?
    fn le(&self, other: &Self) -> (r: bool)
        ensures
            r == self.le_spec(*other),
    ;

    /// The least value, standing for minus infinity.
    fn lowest() -> (r: Self)
        ensures
            r == Self::lowest_spec(),
    ;

    /// The greatest value, standing for plus infinity.
    fn highest() -> (r: Self)
        ensures
            r == Self::highest_spec(),
    ;

    /// A measure of the width `hi - lo` of the stretch from `lo` to `hi`,
    /// ordered as that width is.
    spec fn span_spec(lo: Self, hi: Self) -> int;

    /// A single value spans no more than any stretch from `lo` up to `hi`.
    proof fn lemma_point_has_least_span(a: Self, lo: Self, hi: Self)
        requires
            lo.le_spec(hi),
        ensures
            Self::span_spec(a, a) <= Self::span_spec(lo, hi),
    ;

    /// Is the width from `lo_a` to `hi_a` less than the width from `lo_b` to `hi_b`?
    fn span_less(lo_a: &Self, hi_a: &Self, lo_b: &Self, hi_b: &Self) -> (r: bool)
        ensures
            r == (Self::span_spec(*lo_a, *hi_a) < Self::span_spec(*lo_b, *hi_b)),
    ;

    /// A measure of the midpoint `(lo + hi) / 2` of the stretch from `lo` to
    /// `hi`, ordered as that midpoint is.
    spec fn centre_spec(lo: Self, hi: Self) -> int;

    /// Does the midpoint of `lo_a..hi_a` lie below the midpoint of `lo_b..hi_b`?
    fn centre_less(lo_a: &Self, hi_a: &Self, lo_b: &Self, hi_b: &Self) -> (r: bool)
        ensures
            r == (Self::centre_spec(*lo_a, *hi_a) < Self::centre_spec(*lo_b, *hi_b)),
    ;
}

/// `a < b` in the order of `T`.
pub open spec fn lt_spec<T: Real>(a: T, b: T) -> bool {
    !b.le_spec(a)
}

/// The smaller of two values.
pub open spec fn min_spec<T: Real>(a: T, b: T) -> T {
    if a.le_spec(b) {
        a
    } else {
        b
    }
}

/// The larger of two values.
pub open spec fn max_spec<T: Real>(a: T, b: T) -> T {
    if a.le_spec(b) {
        b
    } else {
        a
    }
}

/// The smaller of two values.
pub fn min_of<T: Real>(a: T, b: T) -> (r: T)
    ensures
        r == min_spec(a, b),
{
    if a.le(&b) {
        a
    } else {
        b
    }
}

/// The larger of two values.
pub fn max_of<T: Real>(a: T, b: T) -> (r: T)
    ensures
        r == max_spec(a, b),
{
    if a.le(&b) {
        b
    } else {
        a
    }
}

/// On `i64` the order of `Real` is the numeric order, with `i64::MIN` and
/// `i64::MAX` as its least and greatest values; the span of a stretch is its
/// width `hi - lo` and its centre measure is `lo + hi`, twice its midpoint.
pub proof fn lemma_i64_is_numeric(a: i64, b: i64, c: i64, d: i64)
    ensures
        a.le_spec(b) <==> a <= b,
        <i64 as Real>::lowest_spec() == i64::MIN,
        <i64 as Real>::highest_spec() == i64::MAX,
        <i64 as Real>::span_spec(a, b) == b - a,
        <i64 as Real>::span_spec(a, b) < <i64 as Real>::span_spec(c, d) <==> b - a < d - c,
        <i64 as Real>::centre_spec(a, b) == a + b,
        <i64 as Real>::centre_spec(a, b) < <i64 as Real>::centre_spec(c, d) <==> a + b < c + d,
{
}

/// On `i32` the order of `Real` is the numeric order, with `i32::MIN` and
/// `i32::MAX` as its least and greatest values; the span of a stretch is its
/// width `hi - lo` and its centre measure is `lo + hi`, twice its midpoint.
pub proof fn lemma_i32_is_numeric(a: i32, b: i32, c: i32, d: i32)
    ensures
        a.le_spec(b) <==> a <= b,
        <i32 as Real>::lowest_spec() == i32::MIN,
        <i32 as Real>::highest_spec() == i32::MAX,
        <i32 as Real>::span_spec(a, b) == b - a,
        <i32 as Real>::span_spec(a, b) < <i32 as Real>::span_spec(c, d) <==> b - a < d - c,
        <i32 as Real>::centre_spec(a, b) == a + b,
        <i32 as Real>::centre_spec(a, b) < <i32 as Real>::centre_spec(c, d) <==> a + b < c + d,
{
}

impl Real for i64 {
    open spec fn le_spec(self, other: Self) -> bool {
        self <= other
    }

    open spec fn lowest_spec() -> Self {
        i64::MIN
    }

    open spec fn highest_spec() -> Self {
        i64::MAX
    }

    proof fn lemma_total_order(a: Self, b: Self, c: Self) {
    }

    proof fn lemma_extremes(a: Self) {
    }

    fn le(&self, other: &Self) -> (r: bool) {
        *self <= *other
    }

    fn lowest() -> (r: Self)
        ensures
            r == i64::MIN,
    {
        i64::MIN
    }

    fn highest() -> (r: Self)
        ensures
            r == i64::MAX,
    {
        i64::MAX
    }

    open spec fn span_spec(lo: Self, hi: Self) -> int {
        hi - lo
    }

    proof fn lemma_point_has_least_span(a: Self, lo: Self, hi: Self) {
    }

    fn span_less(lo_a: &Self, hi_a: &Self, lo_b: &Self, hi_b: &Self) -> (r: bool)
        ensures
            r == (*hi_a - *lo_a < *hi_b - *lo_b),
    {
        (*hi_a as i128) - (*lo_a as i128) < (*hi_b as i128) - (*lo_b as i128)
    }

    open spec fn centre_spec(lo: Self, hi: Self) -> int {
        lo + hi
    }

    fn centre_less(lo_a: &Self, hi_a: &Self, lo_b: &Self, hi_b: &Self) -> (r: bool)
        ensures
            r == (*lo_a + *hi_a < *lo_b + *hi_b),
    {
        (*lo_a as i128) + (*hi_a as i128) < (*lo_b as i128) + (*hi_b as i128)
    }
}

impl Real for i32 {
    open spec fn le_spec(self, other: Self) -> bool {
        self <= other
    }

    open spec fn lowest_spec() -> Self {
        i32::MIN
    }

    open spec fn highest_spec() -> Self {
        i32::MAX
    }

    proof fn lemma_total_order(a: Self, b: Self, c: Self) {
    }

    proof fn lemma_extremes(a: Self) {
    }

    fn le(&self, other: &Self) -> (r: bool) {
        *self <= *other
    }

    fn lowest() -> (r: Self)
        ensures
            r == i32::MIN,
    {
        i32::MIN
    }

    fn highest() -> (r: Self)
        ensures
            r == i32::MAX,
    {
        i32::MAX
    }

    open spec fn span_spec(lo: Self, hi: Self) -> int {
        hi - lo
    }

    proof fn lemma_point_has_least_span(a: Self, lo: Self, hi: Self) {
    }

    fn span_less(lo_a: &Self, hi_a: &Self, lo_b: &Self, hi_b: &Self) -> (r: bool)
        ensures
            r == (*hi_a - *lo_a < *hi_b - *lo_b),
    {
        (*hi_a as i64) - (*lo_a as i64) < (*hi_b as i64) - (*lo_b as i64)
    }

    open spec fn centre_spec(lo: Self, hi: Self) -> int {
        lo + hi
    }

    fn centre_less(lo_a: &Self, hi_a: &Self, lo_b: &Self, hi_b: &Self) -> (r: bool)
        ensures
            r == (*lo_a + *hi_a < *lo_b + *hi_b),
    {
        (*lo_a as i64) + (*hi_a as i64) < (*lo_b as i64) + (*hi_b as i64)
    }
}

} // verus!
