//! The payload amplification factor, held as the bits of an IEEE 754 single
//! precision number so that it travels unchanged, and the exact amplified
//! length it gives.

use vstd::prelude::*;
use vstd::arithmetic::power2::{lemma2_to64, lemma_pow2_adds, lemma_pow2_pos, pow2};

verus! {

/// The bits of the factor one, which asks for no amplification.
pub const MUL_ONE: u32 = 0x3F80_0000;

/// The biased exponent field of the factor with bits `b`.
pub open spec fn exponent_field(b: u32) -> int {
    ((b / 0x80_0000) % 0x100) as int
}

/// The fraction field of the factor with bits `b`.
pub open spec fn fraction_field(b: u32) -> int {
    (b % 0x80_0000) as int
}

/// The integer significand of a finite factor: its value is the significand
/// times two to the power `scale_of(b)`.
pub open spec fn significand_of(b: u32) -> int {
    if exponent_field(b) == 0 {
        fraction_field(b)
    } else {
        fraction_field(b) + 0x80_0000
    }
}

/// The power of two that scales the significand of a finite factor.
pub open spec fn scale_of(b: u32) -> int {
    if exponent_field(b) == 0 {
        -149
    } else {
        exponent_field(b) - 150
    }
}

/// `len` times the factor with bits `b`, rounded down. A negative factor or
/// NaN gives zero; infinity gives more than any length can be, unless `len`
/// is zero.
pub open spec fn amplified_len(len: nat, b: u32) -> int {
    if b >= 0x8000_0000 {
        0
    } else if exponent_field(b) == 255 {
        if fraction_field(b) != 0 || len == 0 {
            0
        } else {
            usize::MAX + 1
        }
    } else if scale_of(b) >= 0 {
        len * significand_of(b) * pow2(scale_of(b) as nat)
    } else {
        len * significand_of(b) / pow2((-scale_of(b)) as nat) as int
    }
}

/// The unit factor leaves a length as it is.
pub proof fn lemma_unit_factor(len: nat)
    ensures
        amplified_len(len, MUL_ONE) == len,
{
    lemma2_to64();
    assert(exponent_field(MUL_ONE) == 127);
    assert(fraction_field(MUL_ONE) == 0);
    assert(significand_of(MUL_ONE) == pow2(23));
    assert((len as int) * (pow2(23) as int) / (pow2(23) as int) == len) by (nonlinear_arith)
        requires
            pow2(23) > 0,
    ;
}

/// Amplifying nothing gives nothing.
pub proof fn lemma_nothing_amplified(b: u32)
    ensures
        amplified_len(0, b) == 0,
{
    let m = significand_of(b);
    let p = pow2((-scale_of(b)) as nat) as int;
    let q = pow2(scale_of(b) as nat) as int;
    lemma_pow2_pos((-scale_of(b)) as nat);
    assert(0 * m * q == 0) by (nonlinear_arith);
    assert(0 * m / p == 0) by (nonlinear_arith)
        requires
            p > 0,
    ;
}

/// An amplified length is never negative.
pub proof fn lemma_amplified_nonneg(len: nat, b: u32)
    ensures
        amplified_len(len, b) >= 0,
{
    let m = significand_of(b);
    let p = pow2((-scale_of(b)) as nat) as int;
    let q = pow2(scale_of(b) as nat) as int;
    lemma_pow2_pos((-scale_of(b)) as nat);
    assert(m >= 0);
    assert(len * m * q >= 0) by (nonlinear_arith)
        requires
            m >= 0,
            q >= 0,
    ;
    assert(len * m / p >= 0) by (nonlinear_arith)
        requires
            p > 0,
            m >= 0,
    ;
}

/// `x / 2^n`, by halving `n` times.
fn halve(x: u128, n: u32) -> (r: u128)
    ensures
        r == x as int / pow2(n as nat) as int,
{
    let mut r = x;
    let mut i: u32 = 0;
    proof {
        lemma2_to64();
    }
    while i < n
        invariant
            i <= n,
            r == x as int / pow2(i as nat) as int,
        decreases n - i,
    {
        proof {
            lemma2_to64();
            lemma_pow2_pos(i as nat);
            lemma_pow2_adds(i as nat, 1);
            vstd::arithmetic::div_mod::lemma_div_denominator(
                x as int,
                pow2(i as nat) as int,
                2,
            );
        }
        r = r / 2;
        i = i + 1;
    }
    r
}

/// `x * 2^n` when that fits in `usize`.
fn double_within_usize(x: u128, n: u32) -> (r: Option<usize>)
    requires
        x <= usize::MAX,
    ensures
        match r {
            Some(v) => v == x * pow2(n as nat),
            None => x * pow2(n as nat) > usize::MAX,
        },
{
    let mut r = x;
    let mut i: u32 = 0;
    proof {
        lemma2_to64();
    }
    while i < n
        invariant
            i <= n,
            r == x * pow2(i as nat),
            r <= usize::MAX,
        decreases n - i,
    {
        proof {
            lemma2_to64();
            lemma_pow2_adds(i as nat, 1);
            assert(x * pow2((i + 1) as nat) == 2 * (x * pow2(i as nat))) by (nonlinear_arith)
                requires
                    pow2((i + 1) as nat) == pow2(i as nat) * 2,
            ;
        }
        if r > (usize::MAX as u128) / 2 {
            proof {
                lemma_pow2_adds((i + 1) as nat, (n - i - 1) as nat);
                lemma_pow2_pos((n - i - 1) as nat);
                assert(x * pow2(n as nat) >= x * pow2((i + 1) as nat)) by (nonlinear_arith)
                    requires
                        pow2(n as nat) == pow2((i + 1) as nat) * pow2((n - i - 1) as nat),
                        pow2((n - i - 1) as nat) >= 1,
                        x >= 0,
                ;
            }
            return None;
        }
        r = r * 2;
        i = i + 1;
    }
    Some(r as usize)
}

/// Returns `len` times the factor with bits `bits`, rounded down, when it
/// fits in `usize`.
pub fn amplified_length(len: usize, bits: u32) -> (r: Option<usize>)
    ensures
        match r {
            Some(n) => n == amplified_len(len as nat, bits),
            None => amplified_len(len as nat, bits) > usize::MAX,
        },
{
    if bits >= 0x8000_0000 {
        return Some(0);
    }
    let exponent: u32 = (bits / 0x80_0000) % 0x100;
    let fraction: u32 = bits % 0x80_0000;
    if exponent == 255 {
        if fraction != 0 || len == 0 {
            return Some(0);
        } else {
            return None;
        }
    }
    let significand: u128 = if exponent == 0 {
        fraction as u128
    } else {
        fraction as u128 + 0x80_0000
    };
    assert((len as int) * (significand as int) <= u128::MAX) by (nonlinear_arith)
        requires
            len <= usize::MAX,
            significand <= 0x100_0000,
    ;
    let x: u128 = (len as u128) * significand;
    if exponent >= 150 {
        if x > usize::MAX as u128 {
            proof {
                lemma_pow2_pos((exponent - 150) as nat);
                assert(x * pow2((exponent - 150) as nat) >= x) by (nonlinear_arith)
                    requires
                        pow2((exponent - 150) as nat) >= 1,
                        x >= 0,
                ;
            }
            return None;
        }
        double_within_usize(x, exponent - 150)
    } else {
        let shift: u32 = if exponent == 0 {
            149
        } else {
            150 - exponent
        };
        let q = halve(x, shift);
        if q > usize::MAX as u128 {
            None
        } else {
            Some(q as usize)
        }
    }
}

} // verus!
