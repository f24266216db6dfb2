use vstd::prelude::*;

verus! {

/// Grows `v`, if it is shorter than `i + 1`, to length `i + 1` (new elements
/// are clones of `default`, the last one `default` itself), and returns a
/// mutable reference to its element `i`.
pub fn expand_and_index<T: Clone>(v: &mut Vec<T>, i: usize, default: T) -> (r: &mut T)
    requires
        i < usize::MAX,
    ensures
        final(v)@.len() == if old(v)@.len() < i + 1 {
            i + 1
        } else {
            old(v)@.len() as int
        },
        *r == if i < old(v)@.len() {
            old(v)@[i as int]
        } else {
            default
        },
        *final(r) == final(v)@[i as int],
        forall|j: int|
            0 <= j < old(v)@.len() && j != i ==> #[trigger] final(v)@[j] == old(v)@[j],
        forall|j: int|
            old(v)@.len() <= j < final(v)@.len() && j != i ==> cloned(default, #[trigger] final(v)@[j]),
{
    let ghost n0 = v@.len();
    while v.len() < i
        invariant
            i < usize::MAX,
            n0 == old(v)@.len(),
            n0 <= v@.len(),
            v@.len() <= if n0 < i {
                i as int
            } else {
                n0 as int
            },
            forall|j: int| 0 <= j < n0 ==> #[trigger] v@[j] == old(v)@[j],
            forall|j: int| n0 <= j < v@.len() ==> cloned(default, #[trigger] v@[j]),
        decreases i - v@.len(),
    {
        v.push(default.clone());
    }
    if v.len() == i {
        v.push(default);
    }
    &mut v[i]
}

} // verus!

verus! {

/// The length of a sequence of length `len` once `expand_and_index` has made
/// room for index `i`.
pub open spec fn grown_len(len: int, i: int) -> int {
    if len < i + 1 {
        i + 1
    } else {
        len
    }
}

/// The row `s[i]`, or the empty sequence where `s` has no index `i`.
pub open spec fn row_or_empty<X>(s: Seq<Vec<X>>, i: int) -> Seq<X> {
    if 0 <= i < s.len() {
        s[i]@
    } else {
        Seq::empty()
    }
}

/// Stores `value` at `lut[a][b][c][d]`, growing the table where it is too
/// short: with empty rows on the outer three levels and with clones of `fill`
/// on the innermost one.
pub fn store_in_lut<V: Clone>(
    lut: &mut Vec<Vec<Vec<Vec<V>>>>,
    a: usize,
    b: usize,
    c: usize,
    d: usize,
    fill: V,
    value: V,
)
    requires
        a < usize::MAX,
        b < usize::MAX,
        c < usize::MAX,
        d < usize::MAX,
    ensures
        ({
            let (a, b, c, d) = (a as int, b as int, c as int, d as int);
            let before = old(lut)@;
            let after = final(lut)@;
            let before_a = row_or_empty(before, a);
            let before_b = row_or_empty(before_a, b);
            let before_c = row_or_empty(before_b, c);
            &&& after.len() == grown_len(before.len() as int, a)
            &&& forall|i: int|
                0 <= i < after.len() && i != a ==> if i < before.len() {
                    after[i] == before[i]
                } else {
                    after[i]@.len() == 0
                }
            &&& after[a]@.len() == grown_len(before_a.len() as int, b)
            &&& forall|j: int|
                0 <= j < after[a]@.len() && j != b ==> if j < before_a.len() {
                    after[a]@[j] == before_a[j]
                } else {
                    after[a]@[j]@.len() == 0
                }
            &&& after[a]@[b]@.len() == grown_len(before_b.len() as int, c)
            &&& forall|k: int|
                0 <= k < after[a]@[b]@.len() && k != c ==> if k < before_b.len() {
                    after[a]@[b]@[k] == before_b[k]
                } else {
                    after[a]@[b]@[k]@.len() == 0
                }
            &&& after[a]@[b]@[c]@.len() == grown_len(before_c.len() as int, d)
            &&& forall|m: int|
                0 <= m < after[a]@[b]@[c]@.len() && m != d ==> if m < before_c.len() {
                    after[a]@[b]@[c]@[m] == before_c[m]
                } else {
                    cloned(fill, after[a]@[b]@[c]@[m])
                }
            &&& after[a]@[b]@[c]@[d] == value
        }),
{
    let row_a = expand_and_index(lut, a, Vec::new());
    let row_b = expand_and_index(row_a, b, Vec::new());
    let row_c = expand_and_index(row_b, c, Vec::new());
    let cell = expand_and_index(row_c, d, fill);
    *cell = value;
}

} // verus!
