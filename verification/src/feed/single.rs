//! Whole numbers as bit patterns of 32-bit floats.

use vstd::arithmetic::power2::{lemma2_to64, lemma_pow2_adds, lemma_pow2_pos, lemma_pow2_strictly_increases, lemma_pow2_unfold, pow2};
use vstd::prelude::*;

verus! {

/// The exponent of the greatest power of two that is not above `n`.
pub open spec fn exponent(n: nat) -> nat
    decreases n,
{
    if n < 2 {
        0
    } else {
        1 + exponent(n / 2)
    }
}

/// The bit pattern of the 32-bit float with the value `n`: the exponent, biased by 127,
/// above 23 bits of what `n` has beyond that power of two.
pub open spec fn single_bits(n: nat) -> nat {
    let power = pow2(exponent(n));
    (127 + exponent(n)) * 0x80_0000 + ((n - power) * (0x80_0000int / power as int)) as nat
}

/// Bounds a number by its exponent.
pub proof fn lemma_exponent(n: nat)
    requires
        n > 0,
    ensures
        pow2(exponent(n)) <= n < 2 * pow2(exponent(n)),
    decreases n,
{
    lemma2_to64();
    if n >= 2 {
        lemma_exponent(n / 2);
        lemma_pow2_unfold(exponent(n));
    }
}

/// Encodes a whole number that a 32-bit float holds exactly.
pub fn whole_to_single_bits(n: u32) -> (bits: u32)
    requires
        0 < n < 0x100_0000,
    ensures
        bits == single_bits(n as nat),
{
    let mut power: u32 = 1;
    let mut exp: u32 = 0;
    let mut rest: u32 = n;
    proof {
        lemma2_to64();
    }
    while rest >= 2
        invariant
            0 < n < 0x100_0000,
            rest > 0,
            power == pow2(exp as nat),
            power * rest <= n,
            exponent(n as nat) == exp + exponent(rest as nat),
        decreases rest,
    {
        proof {
            let half = rest / 2;
            assert(power * 2 * half <= power * rest) by (nonlinear_arith)
                requires
                    2 * half <= rest,
                    power >= 0,
            ;
            assert(power * 2 <= power * 2 * half) by (nonlinear_arith)
                requires
                    half >= 1,
                    power >= 0,
            ;
            lemma_pow2_unfold((exp + 1) as nat);
            lemma_pow2_pos(exp as nat);
            if exp >= 24 {
                lemma2_to64();
                if exp > 24 {
                    lemma_pow2_strictly_increases(24, exp as nat);
                }
            }
        }
        rest = rest / 2;
        power = power * 2;
        exp = exp + 1;
    }
    proof {
        lemma_exponent(n as nat);
        lemma_single_parts(n as nat);
    }
    (127 + exp) * 0x80_0000 + (n - power) * (0x80_0000 / power)
}

/// The two parts of a pattern keep to their bits.
pub proof fn lemma_single_parts(n: nat)
    requires
        0 < n < 0x100_0000,
    ensures
        exponent(n) <= 23,
        0 <= (n - pow2(exponent(n))) * (0x80_0000int / pow2(exponent(n)) as int) < 0x80_0000,
{
    let e = exponent(n);
    lemma_exponent(n);
    lemma2_to64();
    if e >= 24 {
        if e > 24 {
            lemma_pow2_strictly_increases(24, e);
        }
    }
    lemma_pow2_adds(e, (23 - e) as nat);
    lemma_pow2_pos(e);
    lemma_pow2_pos((23 - e) as nat);
    let p = pow2(e) as int;
    let q = pow2((23 - e) as nat) as int;
    assert(p * q == 0x80_0000);
    assert(0x80_0000int / p == q) by (nonlinear_arith)
        requires
            p * q == 0x80_0000,
            p > 0,
    ;
    assert(0 <= (n - p) * q < 0x80_0000) by (nonlinear_arith)
        requires
            p <= n < 2 * p,
            p * q == 0x80_0000,
            q > 0,
    ;
}

/// The pattern is that of a float with the value `n`: its significand, the implicit
/// leading one included, times the power of two of its exponent, over 2^23.
pub proof fn law_single_bits_are_exact(n: nat)
    requires
        0 < n < 0x100_0000,
    ensures
        ({
            let bits = single_bits(n);
            let exp = bits / 0x80_0000 - 127;
            let fraction = bits % 0x80_0000;
            exp >= 0 && (0x80_0000 + fraction) * pow2(exp as nat) == n * 0x80_0000
        }),
{
    let e = exponent(n);
    lemma_single_parts(n);
    lemma_exponent(n);
    lemma2_to64();
    lemma_pow2_adds(e, (23 - e) as nat);
    lemma_pow2_pos(e);
    let p = pow2(e) as int;
    let q = pow2((23 - e) as nat) as int;
    assert(0x80_0000int / p == q) by (nonlinear_arith)
        requires
            p * q == 0x80_0000,
            p > 0,
    ;
    assert((0x80_0000 + (n - p) * q) * p == n * 0x80_0000) by (nonlinear_arith)
        requires
            p * q == 0x80_0000,
    ;
}

/// The pattern that is made for a whole number is that of a positive float with this value.
pub proof fn law_whole_numbers_are_encoded_exactly(n: u32, bits: u32)
    requires
        0 < n < 0x100_0000,
        call_ensures(whole_to_single_bits, (n,), bits),
    ensures
        bits < 0x8000_0000,
        127 <= bits as int / 0x80_0000 <= 150,
        (0x80_0000 + bits as int % 0x80_0000) * pow2((bits as int / 0x80_0000 - 127) as nat) == n * 0x80_0000,
{
    law_single_bits_are_exact(n as nat);
    lemma_single_parts(n as nat);
}

} // verus!
