//! Scaling an IEEE-754 double, given as raw bits, to an 8-bit-percent color
//! component: the exact integer nearest `value * 255`, half rounding away
//! from zero, saturated to the `i32` range. All arithmetic is exact integer
//! arithmetic on the sign, exponent and mantissa fields.

use vstd::prelude::*;

verus! {

/// Two to the power `n`.
pub open spec fn spec_pow2(n: nat) -> int
    decreases n,
{
    if n == 0 {
        1
    } else {
        2 * spec_pow2((n - 1) as nat)
    }
}

/// `value * 255` rounded to the nearest integer (half away from zero) and
/// saturated to the `i32` range, where `value` is the IEEE-754 double encoded
/// by `bits`. A NaN scales to 0; infinities saturate.
pub open spec fn spec_scaled_255(bits: u64) -> int {
    let sign = bits / 0x8000000000000000;
    let exponent = (bits / 0x10000000000000) % 0x800;
    let mantissa = bits % 0x10000000000000;
    if exponent == 0x7FF {
        if mantissa != 0 {
            0
        } else if sign == 0 {
            i32::MAX as int
        } else {
            i32::MIN as int
        }
    } else if exponent >= 1075 {
        // Magnitude at least 2^52: far past the saturation bound.
        if sign == 0 {
            i32::MAX as int
        } else {
            i32::MIN as int
        }
    } else {
        let m: int = if exponent == 0 {
            mantissa as int
        } else {
            mantissa + 0x10000000000000
        };
        let num = 255 * m;
        let shift: int = 1075 - (if exponent == 0 {
            1int
        } else {
            exponent as int
        });
        let p = spec_pow2(shift as nat);
        let q = num / p;
        let rounded: int = if 2 * (num % p) >= p {
            q + 1
        } else {
            q
        };
        if sign == 0 {
            if rounded > i32::MAX {
                i32::MAX as int
            } else {
                rounded
            }
        } else {
            if rounded > 0x80000000 {
                i32::MIN as int
            } else {
                -rounded
            }
        }
    }
}

/// `spec_pow2` is positive.
proof fn lemma_pow2_pos(n: nat)
    ensures
        spec_pow2(n) >= 1,
    decreases n,
{
    if n > 0 {
        lemma_pow2_pos((n - 1) as nat);
    }
}

/// `spec_pow2` never decreases.
proof fn lemma_pow2_increases(a: nat, b: nat)
    requires
        a <= b,
    ensures
        spec_pow2(a) <= spec_pow2(b),
    decreases b,
{
    if a < b {
        lemma_pow2_increases(a, (b - 1) as nat);
        lemma_pow2_pos((b - 1) as nat);
    }
}

/// The value of `spec_pow2` at 62.
proof fn lemma_pow2_62()
    ensures
        spec_pow2(62) == 0x4000000000000000,
{
    reveal_with_fuel(spec_pow2, 64);
}

/// See [`spec_scaled_255`].
pub fn scaled_255_from_float_bits(bits: u64) -> (r: i32)
    ensures
        r as int == spec_scaled_255(bits),
{
    let sign = bits / 0x8000000000000000;
    let exponent = (bits / 0x10000000000000) % 0x800;
    let mantissa = bits % 0x10000000000000;
    if exponent == 0x7FF {
        if mantissa != 0 {
            0
        } else if sign == 0 {
            i32::MAX
        } else {
            i32::MIN
        }
    } else if exponent >= 1075 {
        if sign == 0 {
            i32::MAX
        } else {
            i32::MIN
        }
    } else {
        let m: u64 = if exponent == 0 {
            mantissa
        } else {
            mantissa + 0x10000000000000
        };
        let num: u64 = 255 * m;
        let shift: u64 = 1075 - (if exponent == 0 {
            1
        } else {
            exponent
        });
        if shift >= 62 {
            // num < 2^61, so dividing by at least 2^62 rounds to zero.
            proof {
                lemma_pow2_62();
                lemma_pow2_increases(62, shift as nat);
                let p = spec_pow2(shift as nat);
                assert(num < p);
                assert(num as int / p == 0) by (nonlinear_arith)
                    requires
                        0 <= num < p,
                {}
                assert(num as int % p == num) by (nonlinear_arith)
                    requires
                        0 <= num < p,
                {}
            }
            0
        } else {
            let mut p: u64 = 1;
            let mut i: u64 = 0;
            while i < shift
                invariant
                    0 <= i <= shift <= 61,
                    p == spec_pow2(i as nat),
                    1 <= p <= 0x4000000000000000,
                decreases shift - i,
            {
                proof {
                    lemma_pow2_62();
                    lemma_pow2_increases((i + 1) as nat, 62);
                    lemma_pow2_pos(i as nat);
                }
                p = 2 * p;
                i = i + 1;
            }
            let q = num / p;
            let rem = num % p;
            let rounded: u64 = if 2 * rem >= p {
                q + 1
            } else {
                q
            };
            if sign == 0 {
                if rounded > i32::MAX as u64 {
                    i32::MAX
                } else {
                    rounded as i32
                }
            } else {
                if rounded > 0x80000000 {
                    i32::MIN
                } else {
                    (-(rounded as i64)) as i32
                }
            }
        }
    }
}

} // verus!
