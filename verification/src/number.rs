//! Conversions between small nonnegative integers and the IEEE-754 double
//! bit patterns that carry them in AMF0 Numbers.
//!
//! Transaction ids and stream ids are integers for the protocol but travel
//! as doubles on the wire. This module computes the exact bit pattern of a
//! `u32` as a double, and recovers a `u32` from a bit pattern exactly when
//! the pattern denotes such an integer, with no floating-point arithmetic.

use vstd::prelude::*;

verus! {

/// Floor of the base-two logarithm.
pub open spec fn ilog2(n: u64) -> nat
    decreases n,
{
    if n <= 1 {
        0
    } else {
        1 + ilog2(n / 2)
    }
}

/// For positive `n`, `ilog2(n)` is the position of the highest set bit:
/// shifting by it leaves exactly 1.
pub proof fn lemma_ilog2_char(n: u64)
    requires
        n >= 1,
    ensures
        ilog2(n) <= 63,
        (n >> (ilog2(n) as u64)) == 1,
    decreases n,
{
    if n == 1 {
        assert(1u64 >> 0u64 == 1) by (bit_vector);
    } else {
        let h = n / 2;
        lemma_ilog2_char(h);
        let e = ilog2(h) as u64;
        assert(h <= 0x7fffffffffffffffu64);
        assert((h >> e) == 1 && h <= 0x7fffffffffffffffu64 ==> e <= 62) by (bit_vector);
        assert(n >> 1 == n / 2) by (bit_vector);
        assert(n >> (e + 1) == (n >> 1u64) >> e) by (bit_vector)
            requires
                e <= 62,
        ;
        assert(ilog2(n) == e + 1);
    }
}

/// The mantissa mask of a double: the low 52 bits.
pub const FRACTION_MASK: u64 = 0x000F_FFFF_FFFF_FFFF;

/// The IEEE-754 double bit pattern whose value is the nonnegative integer
/// `n`: zero for zero, else biased exponent `1023 + floor(log2 n)` and the
/// bits of `n` below its leading bit as the high mantissa bits.
pub open spec fn spec_f64_bits_of_u32(n: u32) -> u64 {
    if n == 0 {
        0
    } else {
        let e = ilog2(n as u64) as u64;
        (((1023 + e) as u64) << 52u64) | (((n as u64) << ((52 - e) as u64)) & FRACTION_MASK)
    }
}

/// The nonnegative integer below 2^32 that the double bit pattern denotes,
/// if it denotes exactly such an integer: the sign bit must be clear, the
/// unbiased exponent must lie in 0..=31, and no fractional mantissa bits may
/// remain.
pub open spec fn spec_u32_of_f64_bits(bits: u64) -> Option<u32> {
    if bits == 0 {
        Option::Some(0u32)
    } else if bits >> 63u64 != 0 {
        Option::None
    } else {
        let ebits = (bits >> 52u64) & 0x7FF;
        if ebits < 1023 || ebits > 1054 {
            Option::None
        } else {
            let e = ((ebits - 1023) as u64);
            let frac = bits & FRACTION_MASK;
            if frac & (((1u64 << ((52 - e) as u64)) - 1) as u64) != 0 {
                Option::None
            } else {
                Option::Some(((((1u64 << 52u64) | frac) >> ((52 - e) as u64)) as u32))
            }
        }
    }
}

/// Round trip: the bit pattern of a `u32` denotes exactly that `u32`.
pub proof fn lemma_number_bits_round_trip(n: u32)
    ensures
        spec_u32_of_f64_bits(spec_f64_bits_of_u32(n)) == Option::Some(n),
{
    if n != 0 {
        let nn = n as u64;
        lemma_ilog2_char(nn);
        let e = ilog2(nn) as u64;
        assert((nn >> e) == 1 && nn == n as u64 ==> e <= 31) by (bit_vector);
        let eb: u64 = ((1023 + e) as u64);
        let sh: u64 = ((52 - e) as u64);
        let bits = (eb << 52u64) | ((nn << sh) & FRACTION_MASK);
        assert({
            &&& bits != 0
            &&& bits >> 63u64 == 0
            &&& (bits >> 52u64) & 0x7FF == eb
            &&& bits & 0x000F_FFFF_FFFF_FFFFu64 == (nn << sh) & 0x000F_FFFF_FFFF_FFFFu64
            &&& ((nn << sh) & 0x000F_FFFF_FFFF_FFFFu64) & (((1u64 << sh) - 1) as u64) == 0
            &&& ((1u64 << 52u64) | ((nn << sh) & 0x000F_FFFF_FFFF_FFFFu64)) >> sh == nn
        }) by (bit_vector)
            requires
                (nn >> e) == 1,
                e <= 31,
                eb == 1023 + e,
                sh == 52 - e,
                bits == (eb << 52u64) | ((nn << sh) & 0x000F_FFFF_FFFF_FFFFu64),
        ;
        assert(1023 <= eb <= 1054);
        assert(((eb - 1023) as u64) == e);
    }
}

/// Computes the double bit pattern of a `u32`.
pub fn f64_bits_of_u32(n: u32) -> (r: u64)
    ensures
        r == spec_f64_bits_of_u32(n),
{
    if n == 0 {
        return 0;
    }
    let nn = n as u64;
    proof {
        lemma_ilog2_char(nn);
    }
    proof {
        assert(nn >> 0u64 == nn) by (bit_vector);
    }
    let mut e: u64 = 0;
    while (nn >> e) != 1
        invariant
            e <= 31,
            nn == n as u64,
            1 <= n,
            (nn >> e) >= 1,
            forall|d: u64| d < e ==> (nn >> d) != 1,
        decreases 31 - e,
    {
        proof {
            assert(nn >> e >= 2 && nn <= 0xFFFFFFFFu64 ==> e <= 30) by (bit_vector)
                requires
                    nn >> e >= 2,
                    nn <= 0xFFFFFFFFu64,
            ;
            assert(nn >> (e + 1) == (nn >> e) / 2 && nn >> (e + 1) >= 1) by (bit_vector)
                requires
                    e <= 30,
                    nn >> e >= 2,
            ;
        }
        e = e + 1;
    }
    proof {
        let ei = ilog2(nn) as u64;
        assert(!(ei < e)) by {
            if ei < e {
                assert((nn >> ei) != 1);
            }
        }
        assert((nn >> e) == 1 && (nn >> ei) == 1 && e <= 63 && ei <= 63 && !(ei < e) ==> e == ei)
            by (bit_vector);
    }
    (1023 + e) << 52 | ((nn << (52 - e)) & FRACTION_MASK)
}

/// Recovers the `u32` that a double bit pattern denotes, if it denotes
/// exactly a nonnegative integer below 2^32.
pub fn u32_of_f64_bits(bits: u64) -> (r: Option<u32>)
    ensures
        r == spec_u32_of_f64_bits(bits),
{
    if bits == 0 {
        return Some(0);
    }
    if bits >> 63 != 0 {
        return None;
    }
    let ebits = (bits >> 52) & 0x7FF;
    if ebits < 1023 || ebits > 1054 {
        return None;
    }
    let e = ebits - 1023;
    let frac = bits & FRACTION_MASK;
    proof {
        let sh: u64 = ((52 - e) as u64);
        assert(1u64 << sh >= 1) by (bit_vector)
            requires
                sh <= 63,
        ;
    }
    if frac & ((1u64 << (52 - e)) - 1) != 0 {
        return None;
    }
    Some((((1u64 << 52) | frac) >> (52 - e)) as u32)
}

} // verus!
