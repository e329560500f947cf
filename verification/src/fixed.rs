//! Raw 32-bit value patterns decoded into fixed-point numbers.
//!
//! Raw vector values arrive as IEEE-754 single-precision bit
//! patterns; the engine computes on fixed point with 16 fractional
//! bits.  The decoder reads sign, exponent and significand directly
//! from the pattern, truncates toward zero, and saturates at
//! magnitude `2^31` (the patterns with all exponent bits set — the
//! infinities and the non-numbers — saturate too).

use vstd::prelude::*;
use vstd::arithmetic::power2::pow2;
use vstd::arithmetic::power2::lemma2_to64;
use vstd::arithmetic::power2::lemma_pow2_strictly_increases;
use vstd::bits::lemma_u64_shl_is_mul;
use vstd::bits::lemma_u64_shr_is_div;

verus! {

/// The saturation magnitude of the fixed-point decoder: `2^47`,
/// standing for the value `2^31`.
pub const FIXED_SAT: i64 = 0x8000_0000_0000;

/// The fixed-point number (16 fractional bits) a 32-bit value pattern
/// denotes, truncated toward zero and saturated at magnitude `2^47`.
pub open spec fn spec_bits_to_fixed(bits: u32) -> int {
    let sign = bits >> 31;
    let e = ((bits >> 23) & 0xff) as int;
    let m = (bits & 0x7fffff) as int;
    let mag = if e == 0 {
        0
    } else if e == 255 {
        0x8000_0000_0000
    } else {
        let frac = m + 0x800000;
        let raw = if e >= 134 {
            frac * pow2((e - 134) as nat)
        } else {
            frac / pow2((134 - e) as nat) as int
        };
        if raw > 0x8000_0000_0000 {
            0x8000_0000_0000
        } else {
            raw
        }
    };
    if sign == 1 {
        -mag
    } else {
        mag
    }
}

/// Decodes one 32-bit value pattern into fixed point.
pub fn bits_to_fixed(bits: u32) -> (r: i64)
    ensures
        r == spec_bits_to_fixed(bits),
        -0x8000_0000_0000 <= r <= 0x8000_0000_0000,
{
    let sign = bits >> 31;
    let e = (bits >> 23) & 0xff;
    let m = (bits & 0x7fffff) as u64;
    proof {
        assert(bits >> 31 == 1 || bits >> 31 == 0) by (bit_vector);
        assert(((bits >> 23) & 0xff) < 256) by (bit_vector);
        assert((bits & 0x7fffff) < 0x800000) by (bit_vector);
        lemma2_to64();
    }
    let mag: u64 = if e == 0 {
        0
    } else if e == 255 {
        0x8000_0000_0000
    } else {
        let frac = m + 0x800000;
        let raw: u64 = if e >= 134 {
            let k = e - 134;
            if k >= 24 {
                proof {
                    let fr = (m + 0x800000) as int;
                    lemma_pow2_value_bound(k as nat);
                    assert(fr * pow2(k as nat) >= 0x8000_0000_0000) by (nonlinear_arith)
                        requires
                            fr >= 0x800000,
                            pow2(k as nat) >= 0x1000000,
                    ;
                }
                0x8000_0000_0001u64
            } else {
                proof {
                    assert(pow2(k as nat) <= pow2(23nat)) by {
                        if k < 23 {
                            lemma_pow2_strictly_increases(k as nat, 23nat);
                        }
                    }
                    assert(frac * pow2(k as nat) <= 0x1000000 * 0x800000) by (nonlinear_arith)
                        requires
                            0 <= frac <= 0x1000000,
                            0 <= pow2(k as nat) <= 0x800000,
                    ;
                    lemma_u64_shl_is_mul(frac, k as u64);
                }
                frac << (k as u64)
            }
        } else {
            let k = 134 - e;
            if k >= 24 {
                proof {
                    let fr = (m + 0x800000) as int;
                    lemma_pow2_value_bound(k as nat);
                    assert(fr / pow2(k as nat) as int == 0) by (nonlinear_arith)
                        requires
                            0 <= fr < 0x1000000,
                            pow2(k as nat) >= 0x1000000,
                    ;
                }
                0
            } else {
                proof {
                    lemma_u64_shr_is_div(frac, k as u64);
                }
                frac >> (k as u64)
            }
        };
        if raw > 0x8000_0000_0000 {
            0x8000_0000_0000
        } else {
            raw
        }
    };
    if sign == 1 {
        -(mag as i64)
    } else {
        mag as i64
    }
}

/// From the 24th power on, a power of two is at least `2^24`.
proof fn lemma_pow2_value_bound(k: nat)
    requires
        k >= 24,
    ensures
        pow2(k) >= 0x1000000,
    decreases k,
{
    lemma2_to64();
    if k > 24 {
        lemma_pow2_strictly_increases(24nat, k);
    }
}

/// Decodes a whole vector of 32-bit value patterns.
pub fn bits_vec_to_fixed(bits: &Vec<u32>) -> (r: Vec<i64>)
    ensures
        r@.len() == bits@.len(),
        forall|i: int| 0 <= i < bits@.len() ==> r@[i] == spec_bits_to_fixed(#[trigger] bits@[i]),
{
    let mut out: Vec<i64> = Vec::new();
    let mut i: usize = 0;
    while i < bits.len()
        invariant
            i <= bits@.len(),
            out@.len() == i,
            forall|j: int| 0 <= j < i ==> out@[j] == spec_bits_to_fixed(#[trigger] bits@[j]),
        decreases bits@.len() - i,
    {
        out.push(bits_to_fixed(bits[i]));
        i = i + 1;
    }
    out
}

} // verus!
