//! The integer reading of a number.
//!
//! A number is an IEEE-754 binary64 value carried by its bit pattern: a
//! sign bit, an 11-bit biased exponent and a 52-bit fraction. Two of the
//! operator rules (text times number, text divided by number) read a
//! number only as a count of repetitions or a chunk width, that is as
//! the number truncated toward zero and saturated to the machine's
//! `usize` range, with a non-finite or negative number reading as zero
//! or as the maximum, exactly as a hardware cast would produce. That
//! reading is pure integer arithmetic on the bit fields, so it is
//! defined and computed here without any floating-point operation.

use vstd::prelude::*;

verus! {

/// The biased exponent field: bits 52 to 62.
pub open spec fn field_exp(b: u64) -> u64 {
    (b >> 52) & 0x7ff
}

/// The fraction field: bits 0 to 51.
pub open spec fn field_frac(b: u64) -> u64 {
    b & 0x000f_ffff_ffff_ffff
}

/// The sign bit: bit 63.
pub open spec fn sign_bit(b: u64) -> bool {
    (b >> 63) != 0
}

/// The number truncated toward zero and saturated to `u64`.
///
/// A finite binary64 value with biased exponent `e >= 1023` and
/// fraction `f` has magnitude `(2^52 + f) * 2^(e - 1075)`; its whole
/// part is that product shifted into place. A negative number, a NaN
/// (exponent field all ones, nonzero fraction) or any magnitude below
/// one truncates to zero; positive infinity and any magnitude of
/// `2^64` or more saturate to `u64::MAX`.
pub open spec fn trunc_sat(b: u64) -> u64 {
    let e = field_exp(b);
    let f = field_frac(b);
    if e == 0x7ff {
        if f != 0 {
            0
        } else if sign_bit(b) {
            0
        } else {
            u64::MAX
        }
    } else if sign_bit(b) || e < 1023 {
        0
    } else if e >= 1087 {
        u64::MAX
    } else {
        let m = f | 0x0010_0000_0000_0000;
        if e <= 1075 {
            m >> (1075 - e)
        } else {
            m << (e - 1075)
        }
    }
}

/// The number read as a count: truncated toward zero and saturated to
/// the `usize` range, as the hardware cast of a binary64 to `usize`
/// yields it.
pub open spec fn count_of(b: u64) -> nat {
    if trunc_sat(b) as nat > usize::MAX as nat {
        usize::MAX as nat
    } else {
        trunc_sat(b) as nat
    }
}

/// Computes [`count_of`]: the whole part of the number held in `b`,
/// clamped to `0..=usize::MAX`.
pub fn floor_count(b: u64) -> (n: usize)
    ensures
        n as nat == count_of(b),
{
    let e: u64 = (b >> 52) & 0x7ff;
    let f: u64 = b & 0x000f_ffff_ffff_ffff;
    let negative: bool = (b >> 63) != 0;
    let t: u64 = if e == 0x7ff {
        if f != 0 {
            0
        } else if negative {
            0
        } else {
            u64::MAX
        }
    } else if negative || e < 1023 {
        0
    } else if e >= 1087 {
        u64::MAX
    } else {
        let m: u64 = f | 0x0010_0000_0000_0000;
        if e <= 1075 {
            m >> (1075 - e)
        } else {
            m << (e - 1075)
        }
    };
    proof {
        assert(t == trunc_sat(b));
    }
    if t > usize::MAX as u64 {
        usize::MAX
    } else {
        t as usize
    }
}

} // verus!
