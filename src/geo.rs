//! The integer side of the geohash: interleaving two 32-bit grid numbers into
//! one 64-bit code and back.
use vstd::prelude::*;

verus! {

/// Bit `i` of `x`.
pub open spec fn bit(x: u64, i: u64) -> bool {
    (x >> i) & 1 == 1
}

/// Spreads the bits of `v` (below 2^32) to the even positions.
pub fn spread_int32_to_int64(v: u32) -> (r: u64)
    ensures
        forall|i: u64| i < 32 ==> #[trigger] bit(r, (2 * i) as u64) == bit(v as u64, i),
        forall|i: u64| i < 32 ==> !#[trigger] bit(r, (2 * i + 1) as u64),
{
    let x: u64 = v as u64;
    let mut result: u64 = x;
    result = (result | (result << 16u64)) & 0x0000FFFF0000FFFFu64;
    result = (result | (result << 8u64)) & 0x00FF00FF00FF00FFu64;
    result = (result | (result << 4u64)) & 0x0F0F0F0F0F0F0F0Fu64;
    result = (result | (result << 2u64)) & 0x3333333333333333u64;
    result = (result | (result << 1u64)) & 0x5555555555555555u64;
    proof {
        let r1 = (x | (x << 16u64)) & 0x0000FFFF0000FFFFu64;
        let r2 = (r1 | (r1 << 8u64)) & 0x00FF00FF00FF00FFu64;
        let r3 = (r2 | (r2 << 4u64)) & 0x0F0F0F0F0F0F0F0Fu64;
        let r4 = (r3 | (r3 << 2u64)) & 0x3333333333333333u64;
        let r5 = (r4 | (r4 << 1u64)) & 0x5555555555555555u64;
        assert(result == r5);
        assert forall|i: u64| i < 32 implies #[trigger] bit(result, (2 * i) as u64) == bit(x, i) by {
            assert(((r5 >> ((2 * i) as u64)) & 1 == 1) == ((x >> i) & 1 == 1)) by (bit_vector)
                requires
                    x < 0x1_0000_0000u64,
                    i < 32,
                    r1 == (x | (x << 16u64)) & 0x0000FFFF0000FFFFu64,
                    r2 == (r1 | (r1 << 8u64)) & 0x00FF00FF00FF00FFu64,
                    r3 == (r2 | (r2 << 4u64)) & 0x0F0F0F0F0F0F0F0Fu64,
                    r4 == (r3 | (r3 << 2u64)) & 0x3333333333333333u64,
                    r5 == (r4 | (r4 << 1u64)) & 0x5555555555555555u64,
            ;
        }
        assert forall|i: u64| i < 32 implies !#[trigger] bit(result, (2 * i + 1) as u64) by {
            assert(!((r5 >> ((2 * i + 1) as u64)) & 1 == 1)) by (bit_vector)
                requires
                    i < 32,
                    r5 == (r4 | (r4 << 1u64)) & 0x5555555555555555u64,
            ;
        }
    }
    result
}

/// Interleaves two grid numbers: the bits of `x` at the even positions, those
/// of `y` at the odd ones.
pub fn interleave(x: u32, y: u32) -> (r: u64)
    ensures
        forall|i: u64| i < 32 ==> #[trigger] bit(r, (2 * i) as u64) == bit(x as u64, i),
        forall|i: u64| i < 32 ==> #[trigger] bit(r, (2 * i + 1) as u64) == bit(y as u64, i),
{
    let x_spread = spread_int32_to_int64(x);
    let y_spread = spread_int32_to_int64(y);
    let y_shifted = y_spread << 1u64;
    let r = x_spread | y_shifted;
    proof {
        assert forall|i: u64| i < 32 implies #[trigger] bit(r, (2 * i) as u64) == bit(x as u64, i) by {
            let e = (2 * i) as u64;
            assert(bit(x_spread, e) == bit(x as u64, i));
            if i > 0 {
                let j = (i - 1) as u64;
                assert(!bit(y_spread, (2 * j + 1) as u64));
                assert((2 * j + 1) as u64 == (e - 1) as u64);
                assert(((r >> e) & 1 == 1) == ((x_spread >> e) & 1 == 1)) by (bit_vector)
                    requires
                        r == x_spread | (y_spread << 1u64),
                        e >= 2,
                        e < 64,
                        !((y_spread >> ((e - 1) as u64)) & 1 == 1),
                ;
            } else {
                assert(((r >> 0u64) & 1 == 1) == ((x_spread >> 0u64) & 1 == 1)) by (bit_vector)
                    requires
                        r == x_spread | (y_spread << 1u64),
                ;
            }
        }
        assert forall|i: u64| i < 32 implies #[trigger] bit(r, (2 * i + 1) as u64) == bit(y as u64, i) by {
            let o = (2 * i + 1) as u64;
            let e = (2 * i) as u64;
            assert(bit(y_spread, e) == bit(y as u64, i));
            assert(!bit(x_spread, o));
            assert(((r >> o) & 1 == 1) == ((y_spread >> e) & 1 == 1)) by (bit_vector)
                requires
                    r == x_spread | (y_spread << 1u64),
                    o == e + 1,
                    e < 63,
                    !((x_spread >> o) & 1 == 1),
            ;
        }
    }
    r
}

/// Gathers the bits at the even positions of `v` into a 32-bit number.
pub fn compact_int64_to_int32(v: u64) -> (r: u32)
    ensures
        forall|i: u64| i < 32 ==> #[trigger] bit(r as u64, i) == bit(v, (2 * i) as u64),
{
    let mut result: u64 = v & 0x5555555555555555u64;
    result = (result | (result >> 1u64)) & 0x3333333333333333u64;
    result = (result | (result >> 2u64)) & 0x0F0F0F0F0F0F0F0Fu64;
    result = (result | (result >> 4u64)) & 0x00FF00FF00FF00FFu64;
    result = (result | (result >> 8u64)) & 0x0000FFFF0000FFFFu64;
    result = (result | (result >> 16u64)) & 0x00000000FFFFFFFFu64;
    proof {
        let r0 = v & 0x5555555555555555u64;
        let r1 = (r0 | (r0 >> 1u64)) & 0x3333333333333333u64;
        let r2 = (r1 | (r1 >> 2u64)) & 0x0F0F0F0F0F0F0F0Fu64;
        let r3 = (r2 | (r2 >> 4u64)) & 0x00FF00FF00FF00FFu64;
        let r4 = (r3 | (r3 >> 8u64)) & 0x0000FFFF0000FFFFu64;
        let r5 = (r4 | (r4 >> 16u64)) & 0x00000000FFFFFFFFu64;
        assert(result == r5);
        assert(r5 < 0x1_0000_0000u64) by (bit_vector)
            requires
                r5 == (r4 | (r4 >> 16u64)) & 0x00000000FFFFFFFFu64,
        ;
        assert forall|i: u64| i < 32 implies #[trigger] bit(r5, i) == bit(v, (2 * i) as u64) by {
            assert(((r5 >> i) & 1 == 1) == ((v >> ((2 * i) as u64)) & 1 == 1)) by (bit_vector)
                requires
                    i < 32,
                    r0 == v & 0x5555555555555555u64,
                    r1 == (r0 | (r0 >> 1u64)) & 0x3333333333333333u64,
                    r2 == (r1 | (r1 >> 2u64)) & 0x0F0F0F0F0F0F0F0Fu64,
                    r3 == (r2 | (r2 >> 4u64)) & 0x00FF00FF00FF00FFu64,
                    r4 == (r3 | (r3 >> 8u64)) & 0x0000FFFF0000FFFFu64,
                    r5 == (r4 | (r4 >> 16u64)) & 0x00000000FFFFFFFFu64,
            ;
        }
    }
    result as u32
}

/// Splits a geohash into its two grid numbers: the even bits and the odd bits.
pub fn deinterleave(code: u64) -> (r: (u32, u32))
    ensures
        forall|i: u64| i < 32 ==> #[trigger] bit(r.0 as u64, i) == bit(code, (2 * i) as u64),
        forall|i: u64| i < 32 ==> #[trigger] bit(r.1 as u64, i) == bit(code, (2 * i + 1) as u64),
{
    let a = compact_int64_to_int32(code);
    let b = compact_int64_to_int32(code >> 1u64);
    proof {
        assert forall|i: u64| i < 32 implies #[trigger] bit(b as u64, i) == bit(code, (2 * i + 1) as u64) by {
            let e = (2 * i) as u64;
            assert(bit(b as u64, i) == bit(code >> 1u64, e));
            assert((((code >> 1u64) >> e) & 1 == 1) == ((code >> ((e + 1) as u64)) & 1 == 1)) by (bit_vector)
                requires
                    e < 63,
            ;
        }
    }
    (a, b)
}

/// Interleaving two grid numbers and splitting the code gives them back, bit
/// for bit.
pub proof fn lemma_interleave_round_trip(x: u32, y: u32, code: u64, back: (u32, u32))
    requires
        forall|i: u64| i < 32 ==> #[trigger] bit(code, (2 * i) as u64) == bit(x as u64, i),
        forall|i: u64| i < 32 ==> #[trigger] bit(code, (2 * i + 1) as u64) == bit(y as u64, i),
        forall|i: u64| i < 32 ==> #[trigger] bit(back.0 as u64, i) == bit(code, (2 * i) as u64),
        forall|i: u64| i < 32 ==> #[trigger] bit(back.1 as u64, i) == bit(code, (2 * i + 1) as u64),
    ensures
        back.0 == x,
        back.1 == y,
{
    lemma_bits_equal(back.0, x);
    lemma_bits_equal(back.1, y);
}

/// Two 32-bit numbers with the same bits are equal.
pub proof fn lemma_bits_equal(a: u32, b: u32)
    requires
        forall|i: u64| i < 32 ==> #[trigger] bit(a as u64, i) == bit(b as u64, i),
    ensures
        a == b,
{
    let x = a as u64;
    let y = b as u64;
    let d = x ^ y;
    assert forall|i: u64| i < 32 implies (d >> i) & 1 == 0 by {
        assert(bit(x, i) == bit(y, i));
        assert((d >> i) & 1 == 0) by (bit_vector)
            requires
                d == x ^ y,
                ((x >> i) & 1 == 1) == ((y >> i) & 1 == 1),
        ;
    }
    assert(d == 0) by {
        assert((d >> 0u64) & 1 == 0);
        assert((d >> 1u64) & 1 == 0);
        assert((d >> 2u64) & 1 == 0);
        assert((d >> 3u64) & 1 == 0);
        assert((d >> 4u64) & 1 == 0);
        assert((d >> 5u64) & 1 == 0);
        assert((d >> 6u64) & 1 == 0);
        assert((d >> 7u64) & 1 == 0);
        assert((d >> 8u64) & 1 == 0);
        assert((d >> 9u64) & 1 == 0);
        assert((d >> 10u64) & 1 == 0);
        assert((d >> 11u64) & 1 == 0);
        assert((d >> 12u64) & 1 == 0);
        assert((d >> 13u64) & 1 == 0);
        assert((d >> 14u64) & 1 == 0);
        assert((d >> 15u64) & 1 == 0);
        assert((d >> 16u64) & 1 == 0);
        assert((d >> 17u64) & 1 == 0);
        assert((d >> 18u64) & 1 == 0);
        assert((d >> 19u64) & 1 == 0);
        assert((d >> 20u64) & 1 == 0);
        assert((d >> 21u64) & 1 == 0);
        assert((d >> 22u64) & 1 == 0);
        assert((d >> 23u64) & 1 == 0);
        assert((d >> 24u64) & 1 == 0);
        assert((d >> 25u64) & 1 == 0);
        assert((d >> 26u64) & 1 == 0);
        assert((d >> 27u64) & 1 == 0);
        assert((d >> 28u64) & 1 == 0);
        assert((d >> 29u64) & 1 == 0);
        assert((d >> 30u64) & 1 == 0);
        assert((d >> 31u64) & 1 == 0);
        assert(d == 0) by (bit_vector)
            requires
                x < 0x1_0000_0000u64,
                y < 0x1_0000_0000u64,
                d == x ^ y,
                (d >> 0u64) & 1 == 0, (d >> 1u64) & 1 == 0, (d >> 2u64) & 1 == 0, (d >> 3u64) & 1 == 0,
                (d >> 4u64) & 1 == 0, (d >> 5u64) & 1 == 0, (d >> 6u64) & 1 == 0, (d >> 7u64) & 1 == 0,
                (d >> 8u64) & 1 == 0, (d >> 9u64) & 1 == 0, (d >> 10u64) & 1 == 0, (d >> 11u64) & 1 == 0,
                (d >> 12u64) & 1 == 0, (d >> 13u64) & 1 == 0, (d >> 14u64) & 1 == 0, (d >> 15u64) & 1 == 0,
                (d >> 16u64) & 1 == 0, (d >> 17u64) & 1 == 0, (d >> 18u64) & 1 == 0, (d >> 19u64) & 1 == 0,
                (d >> 20u64) & 1 == 0, (d >> 21u64) & 1 == 0, (d >> 22u64) & 1 == 0, (d >> 23u64) & 1 == 0,
                (d >> 24u64) & 1 == 0, (d >> 25u64) & 1 == 0, (d >> 26u64) & 1 == 0, (d >> 27u64) & 1 == 0,
                (d >> 28u64) & 1 == 0, (d >> 29u64) & 1 == 0, (d >> 30u64) & 1 == 0, (d >> 31u64) & 1 == 0,
        ;
    }
    assert(x == y) by (bit_vector)
        requires
            x ^ y == 0,
    ;
}

} // verus!
