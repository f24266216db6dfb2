use vstd::prelude::*;

verus! {

/// Bit `i` of `x` is set.
pub open spec fn bit(x: u32, i: u32) -> bool {
    (x >> i) & 1 == 1
}

/// Bit `i` of the spread of `v`: bit `p` of `v`, for `p` below 9, moved to bit `3 * p`.
pub open spec fn spread_bit(v: u32, i: u32) -> bool {
    i % 3 == 0 && i / 3 < 9 && bit(v, i / 3)
}

/// Bit `i` of the Morton code of `x`, `y`, `z`: bit `p` of `z`, `y` and `x`,
/// for `p` below 9, at bits `3 * p`, `3 * p + 1` and `3 * p + 2`.
pub open spec fn morton_bit(x: u32, y: u32, z: u32, i: u32) -> bool {
    i < 27 && if i % 3 == 2 {
        bit(x, i / 3)
    } else if i % 3 == 1 {
        bit(y, i / 3)
    } else {
        bit(z, i / 3)
    }
}

proof fn lemma_zero_bits(i: u32)
    requires
        i < 32,
    ensures
        !bit(0, i),
{
    assert((0u32 >> i) & 1 != 1) by (bit_vector)
        requires
            i < 32,
    ;
}

proof fn lemma_spread_step(result: u32, v: u32, p: u32, i: u32)
    requires
        p < 9,
        i < 32,
    ensures
        bit(result | (((1u32 << p) & v) << (p * 2)), i) == (bit(result, i) || (i == 3 * p && bit(
            v,
            p,
        ))),
{
    assert((((result | (((1u32 << p) & v) << (p * 2))) >> i) & 1 == 1) == (((result >> i) & 1 == 1)
        || (i == 3 * p && ((v >> p) & 1 == 1)))) by (bit_vector)
        requires
            p < 9,
            i < 32,
    ;
}

/// Spreads the lowest nine bits of `v` apart: bit `p` moves to bit `3 * p`,
/// and every other bit of the result is clear.
pub fn spread_bits(v: u32) -> (r: u32)
    ensures
        forall|i: u32| i < 32 ==> (#[trigger] bit(r, i) <==> spread_bit(v, i)),
{
    let mut result: u32 = 0;
    let mut power: u32 = 0;
    proof {
        assert forall|i: u32| i < 32 implies (#[trigger] bit(result, i) <==> (i % 3 == 0 && i / 3
            < power && bit(v, i / 3))) by {
            lemma_zero_bits(i);
        }
    }
    while power < 9
        invariant
            power <= 9,
            forall|i: u32|
                i < 32 ==> (#[trigger] bit(result, i) <==> (i % 3 == 0 && i / 3 < power && bit(
                    v,
                    i / 3,
                ))),
        decreases 9 - power,
    {
        let next = result | (((1u32 << power) & v) << (power * 2));
        proof {
            assert forall|i: u32| i < 32 implies (#[trigger] bit(next, i) <==> (i % 3 == 0 && i / 3
                < power + 1 && bit(v, i / 3))) by {
                lemma_spread_step(result, v, power, i);
                assert(bit(result, i) <==> (i % 3 == 0 && i / 3 < power && bit(v, i / 3)));
            }
        }
        result = next;
        power = power + 1;
    }
    result
}

proof fn lemma_interleave(a: u32, b: u32, c: u32, i: u32)
    requires
        i < 32,
    ensures
        bit((a << 2u32) | (b << 1u32) | c, i) == ((i >= 2 && bit(a, (i - 2) as u32)) || (i >= 1
            && bit(b, (i - 1) as u32)) || bit(c, i)),
{
    assert((((((a << 2u32) | (b << 1u32) | c) >> i) & 1 == 1) == ((i >= 2 && ((a >> ((i
        - 2) as u32)) & 1 == 1)) || (i >= 1 && ((b >> ((i - 1) as u32)) & 1 == 1)) || ((c >> i) & 1
        == 1)))) by (bit_vector)
        requires
            i < 32,
    ;
}

/// The Morton code of a point whose coordinates are already scaled to
/// integers: the lowest nine bits of the three coordinates interleaved, with
/// `z` in the lowest bit of each group of three, `y` next and `x` highest.
pub fn morton_order_value_3d(x: u32, y: u32, z: u32) -> (r: u32)
    ensures
        forall|i: u32| i < 32 ==> (#[trigger] bit(r, i) <==> morton_bit(x, y, z, i)),
{
    let sx = spread_bits(x);
    let sy = spread_bits(y);
    let sz = spread_bits(z);
    let r = (sx << 2u32) | (sy << 1u32) | sz;
    proof {
        assert forall|i: u32| i < 32 implies (#[trigger] bit(r, i) <==> morton_bit(x, y, z, i)) by {
            lemma_interleave(sx, sy, sz, i);
            if i >= 2 {
                assert(bit(sx, (i - 2) as u32) <==> spread_bit(x, (i - 2) as u32));
            }
            if i >= 1 {
                assert(bit(sy, (i - 1) as u32) <==> spread_bit(y, (i - 1) as u32));
            }
            assert(bit(sz, i) <==> spread_bit(z, i));
        }
    }
    r
}

} // verus!
