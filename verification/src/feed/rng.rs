//! A small deterministic random number generator: `xoshiro256**`, seeded by
//! SplitMix64. Good enough for plausible quantities; not cryptographic.

use vstd::prelude::*;

verus! {

/// The four words of the generator.
pub struct RngState {
    /// First word.
    pub a: u64,
    /// Second word.
    pub b: u64,
    /// Third word.
    pub c: u64,
    /// Fourth word.
    pub d: u64,
}

/// `x` rotated to the left by `k` bits.
pub open spec fn rotated(x: u64, k: u64) -> u64 {
    (x << k) | (x >> ((64 - k) as u64))
}

/// The output function of SplitMix64.
#[verifier::opaque]
pub open spec fn mixed(x: u64) -> u64 {
    let y = (x ^ (x >> 30)).wrapping_mul(0xBF58_476D_1CE4_E5B9);
    let z = (y ^ (y >> 27)).wrapping_mul(0x94D0_49BB_1331_11EB);
    z ^ (z >> 31)
}

/// The state of SplitMix64 after `x`.
pub open spec fn mix_step(x: u64) -> u64 {
    x.wrapping_add(0x9E37_79B9_7F4A_7C15)
}

impl RngState {
    /// The state that the generator must not have: it would stay in it.
    pub open spec fn zero() -> RngState {
        RngState { a: 0, b: 0, c: 0, d: 0 }
    }

    /// The state for a seed: four outputs of SplitMix64.
    pub open spec fn seeded(seed: u64) -> RngState {
        let x1 = mix_step(seed);
        let x2 = mix_step(x1);
        let x3 = mix_step(x2);
        let x4 = mix_step(x3);
        let state = RngState { a: mixed(x1), b: mixed(x2), c: mixed(x3), d: mixed(x4) };
        if state == RngState::zero() {
            RngState { a: 1, ..state }
        } else {
            state
        }
    }

    /// The number that it gives.
    pub open spec fn output(self) -> u64 {
        rotated(self.b.wrapping_mul(5), 7).wrapping_mul(9)
    }

    /// The state after that number.
    pub open spec fn step(self) -> RngState {
        let c = self.c ^ self.a;
        let d = self.d ^ self.b;
        RngState { a: self.a ^ d, b: self.b ^ c, c: c ^ (self.b << 17), d: rotated(d, 45) }
    }

    /// A number below `n` that it gives; `0` when `n` is `0`.
    pub open spec fn in_range(self, n: u32) -> u32 {
        if n == 0 {
            0
        } else {
            ((self.output() >> 32) as u32) % n
        }
    }

    /// The state after that number: giving a number below `0` takes no step.
    pub open spec fn after_range(self, n: u32) -> RngState {
        if n == 0 {
            self
        } else {
            self.step()
        }
    }
}

/// The generator.
pub struct Rng {
    s: [u64; 4],
}

/// `x` rotated to the left by `k` bits.
fn rotate_left(x: u64, k: u64) -> (y: u64)
    requires
        0 < k < 64,
    ensures
        y == rotated(x, k),
{
    (x << k) | (x >> (64 - k))
}

/// One step of SplitMix64.
fn split_mix(x: &mut u64) -> (z: u64)
    ensures
        *final(x) == mix_step(*old(x)),
        z == mixed(*final(x)),
{
    proof {
        reveal(mixed);
    }
    *x = x.wrapping_add(0x9E37_79B9_7F4A_7C15);
    let mut z: u64 = *x;
    z = (z ^ (z >> 30)).wrapping_mul(0xBF58_476D_1CE4_E5B9);
    z = (z ^ (z >> 27)).wrapping_mul(0x94D0_49BB_1331_11EB);
    z ^ (z >> 31)
}

impl Rng {
    /// The words of the generator.
    pub closed spec fn view(&self) -> RngState {
        RngState { a: self.s[0], b: self.s[1], c: self.s[2], d: self.s[3] }
    }

    /// The generator for a seed.
    pub fn new(seed: u64) -> (rng: Rng)
        ensures
            rng@ == RngState::seeded(seed),
            rng@ != RngState::zero(),
    {
        let mut x: u64 = seed;
        let a = split_mix(&mut x);
        let b = split_mix(&mut x);
        let c = split_mix(&mut x);
        let d = split_mix(&mut x);
        let mut s = [a, b, c, d];
        if a == 0 && b == 0 && c == 0 && d == 0 {
            s[0] = 1;
        }
        Rng { s }
    }

    /// The next number.
    pub fn next_u64(&mut self) -> (result: u64)
        ensures
            result == old(self)@.output(),
            final(self)@ == old(self)@.step(),
    {
        let result: u64 = rotate_left(self.s[1].wrapping_mul(5), 7).wrapping_mul(9);
        let t: u64 = self.s[1] << 17;
        self.s[2] = self.s[2] ^ self.s[0];
        self.s[3] = self.s[3] ^ self.s[1];
        self.s[1] = self.s[1] ^ self.s[2];
        self.s[0] = self.s[0] ^ self.s[3];
        self.s[2] = self.s[2] ^ t;
        self.s[3] = rotate_left(self.s[3], 45);
        result
    }

    /// The next number, brought below `n`. Slightly biased.
    pub fn next_in_range(&mut self, n: u32) -> (result: u32)
        ensures
            result == old(self)@.in_range(n),
            n > 0 ==> result < n,
            final(self)@ == old(self)@.after_range(n),
    {
        if n == 0 {
            return 0;
        }
        ((self.next_u64() >> 32) as u32) % n
    }
}

/// The generator never runs dry: no step leads to the state of zeros.
pub proof fn law_state_stays_nonzero(state: RngState)
    requires
        state != RngState::zero(),
    ensures
        state.step() != RngState::zero(),
{
    let (a, b, c, d) = (state.a, state.b, state.c, state.d);
    if state.step() == RngState::zero() {
        let x = d ^ b;
        assert(x == 0) by (bit_vector)
            requires
                (x << 45) | (x >> 19) == 0u64,
        ;
        assert(a == 0) by (bit_vector)
            requires
                a ^ x == 0,
                x == 0,
        ;
        let y = c ^ a;
        assert(b == 0) by (bit_vector)
            requires
                b ^ y == 0,
                y ^ (b << 17) == 0,
        ;
        assert(c == 0 && d == 0) by (bit_vector)
            requires
                a == 0,
                b == 0,
                x == 0,
                x == d ^ b,
                y == c ^ a,
                b ^ y == 0,
        ;
    }
}

/// Multiplying by a number and then by its inverse modulo 2^64 changes nothing.
proof fn lemma_times_inverse(x: u64, factor: u64, inverse: u64, k: int)
    requires
        factor * inverse == 1 + k * 0x1_0000_0000_0000_0000,
    ensures
        x.wrapping_mul(factor).wrapping_mul(inverse) == x,
{
    let m = 0x1_0000_0000_0000_0000int;
    let product = x as int * factor as int;
    assert(((product % m) * inverse) % m == (product * inverse) % m) by {
        vstd::arithmetic::div_mod::lemma_mul_mod_noop_left(product, inverse as int, m);
    }
    assert(product * inverse == m * (x * k) + x) by (nonlinear_arith)
        requires
            product == x as int * factor as int,
            factor * inverse == 1 + k * m,
    ;
    vstd::arithmetic::div_mod::lemma_mod_multiples_vanish(x * k, x as int, m);
    vstd::arithmetic::div_mod::lemma_small_mod(x as nat, m as nat);
}

/// What SplitMix64 mixed `z` from: its three multiplications and shifts, undone.
#[verifier::opaque]
pub open spec fn unmixed(z: u64) -> u64 {
    let y = (z ^ (z >> 31) ^ (z >> 62)).wrapping_mul(0x3196_42B2_D24D_8EC3);
    let x = (y ^ (y >> 27) ^ (y >> 54)).wrapping_mul(0x96DE_1B17_3F11_9089);
    x ^ (x >> 30) ^ (x >> 60)
}

proof fn lemma_unmixed(x: u64)
    ensures
        unmixed(mixed(x)) == x,
{
    reveal(mixed);
    reveal(unmixed);
    let a = x ^ (x >> 30);
    let y = a.wrapping_mul(0xBF58_476D_1CE4_E5B9);
    let b = y ^ (y >> 27);
    let z = b.wrapping_mul(0x94D0_49BB_1331_11EB);
    let w = z ^ (z >> 31);
    assert(w ^ (w >> 31) ^ (w >> 62) == z) by (bit_vector)
        requires
            w == z ^ (z >> 31),
    ;
    assert(0x94D0_49BB_1331_11EBu64 * 0x3196_42B2_D24D_8EC3u64 == 1 + 0x1CD3_36ED_A85F_1453int
        * 0x1_0000_0000_0000_0000int);
    lemma_times_inverse(b, 0x94D0_49BB_1331_11EB, 0x3196_42B2_D24D_8EC3, 0x1CD3_36ED_A85F_1453);
    assert(b ^ (b >> 27) ^ (b >> 54) == y) by (bit_vector)
        requires
            b == y ^ (y >> 27),
    ;
    assert(0xBF58_476D_1CE4_E5B9u64 * 0x96DE_1B17_3F11_9089u64 == 1 + 0x70C3_BCA7_8F27_F46Cint
        * 0x1_0000_0000_0000_0000int);
    lemma_times_inverse(a, 0xBF58_476D_1CE4_E5B9, 0x96DE_1B17_3F11_9089, 0x70C3_BCA7_8F27_F46C);
    assert(a ^ (a >> 30) ^ (a >> 60) == x) by (bit_vector)
        requires
            a == x ^ (x >> 30),
    ;
}

proof fn lemma_mix_steps(seed: u64)
    ensures
        ({
            let x1 = mix_step(seed);
            let x2 = mix_step(x1);
            let x3 = mix_step(x2);
            let x4 = mix_step(x3);
            &&& x1 == (seed + 0x9E37_79B9_7F4A_7C15) % 0x1_0000_0000_0000_0000
            &&& x2 == (seed + 2 * 0x9E37_79B9_7F4A_7C15) % 0x1_0000_0000_0000_0000
            &&& x3 == (seed + 3 * 0x9E37_79B9_7F4A_7C15) % 0x1_0000_0000_0000_0000
            &&& x4 == (seed + 4 * 0x9E37_79B9_7F4A_7C15) % 0x1_0000_0000_0000_0000
            &&& x1 != x2
        }),
{
}

/// The seed can be told from every word of the new generator: word by word it is the seed,
/// moved on by the constant of SplitMix64 once, twice, three and four times, and mixed.
pub proof fn law_seed_is_in_every_word(seed: u64, rng: Rng)
    requires
        call_ensures(Rng::new, (seed,), rng),
    ensures
        unmixed(rng@.a) == (seed + 0x9E37_79B9_7F4A_7C15) % 0x1_0000_0000_0000_0000,
        unmixed(rng@.b) == (seed + 2 * 0x9E37_79B9_7F4A_7C15) % 0x1_0000_0000_0000_0000,
        unmixed(rng@.c) == (seed + 3 * 0x9E37_79B9_7F4A_7C15) % 0x1_0000_0000_0000_0000,
        unmixed(rng@.d) == (seed + 4 * 0x9E37_79B9_7F4A_7C15) % 0x1_0000_0000_0000_0000,
{
    let x1 = mix_step(seed);
    let x2 = mix_step(x1);
    let x3 = mix_step(x2);
    let x4 = mix_step(x3);
    lemma_mix_steps(seed);
    lemma_unmixed(x1);
    lemma_unmixed(x2);
    lemma_unmixed(x3);
    lemma_unmixed(x4);
    // Different numbers are mixed to different words, so not all of these are zero.
    assert(mixed(x1) != mixed(x2)) by {
        if mixed(x1) == mixed(x2) {
            assert(x1 == x2);
        }
    }
}

/// What a number was made from: the second word of the generator, its two multiplications
/// and its rotation undone.
pub open spec fn unscrambled(result: u64) -> u64 {
    let x = result.wrapping_mul(0x8E38_E38E_38E3_8E39);
    ((x >> 7) | (x << 57)).wrapping_mul(0xCCCC_CCCC_CCCC_CCCD)
}

/// A number tells the second word of the generator that gave it, and the words after it
/// tell those before it: from `a`, `b`, `c`, `d` afterwards, the four words from before are
/// got by undoing each exclusive or, shift and rotation.
pub proof fn law_numbers_tell_the_words(rng: &mut Rng, result: u64)
    requires
        call_ensures(Rng::next_u64, (rng,), result),
    ensures
        unscrambled(result) == old(rng)@.b,
        ({
            let after = final(rng)@;
            let before = old(rng)@;
            let turned = (after.d >> 45) | (after.d << 19);
            let mixed_b = after.b ^ after.c;
            let b = mixed_b ^ (mixed_b << 17) ^ (mixed_b << 34) ^ (mixed_b << 51);
            &&& before.b == b
            &&& before.a == after.a ^ turned
            &&& before.d == turned ^ b
            &&& before.c == after.b ^ b ^ before.a
        }),
{
    let (a, b, c, d) = (old(rng)@.a, old(rng)@.b, old(rng)@.c, old(rng)@.d);
    let five = b.wrapping_mul(5);
    let turned = (five << 7) | (five >> 57);
    assert(rotated(five, 7) == turned);
    assert(0x9u64 * 0x8E38_E38E_38E3_8E39u64 == 1 + 5 * 0x1_0000_0000_0000_0000int);
    lemma_times_inverse(turned, 9, 0x8E38_E38E_38E3_8E39, 5);
    assert((turned >> 7) | (turned << 57) == five) by (bit_vector)
        requires
            turned == (five << 7) | (five >> 57),
    ;
    assert(0x5u64 * 0xCCCC_CCCC_CCCC_CCCDu64 == 1 + 4 * 0x1_0000_0000_0000_0000int);
    lemma_times_inverse(b, 5, 0xCCCC_CCCC_CCCC_CCCD, 4);
    let e = d ^ b;
    let after_d = (e << 45) | (e >> 19);
    assert(final(rng)@.d == after_d);
    assert((after_d >> 45) | (after_d << 19) == e) by (bit_vector)
        requires
            after_d == (e << 45) | (e >> 19),
    ;
    let f = c ^ a;
    let (after_b, after_c) = (b ^ f, f ^ (b << 17));
    let m = after_b ^ after_c;
    assert(m ^ (m << 17) ^ (m << 34) ^ (m << 51) == b) by (bit_vector)
        requires
            after_b == b ^ f,
            after_c == f ^ (b << 17),
            m == after_b ^ after_c,
    ;
    assert((a ^ e) ^ e == a && e ^ b == d && (b ^ f) ^ b ^ a == c) by (bit_vector)
        requires
            e == d ^ b,
            f == c ^ a,
    ;
}

/// A number below `n` is what is left of the upper half of the next number after taking away
/// `n` as often as it goes; below zero there is only zero, and nothing is used up.
pub proof fn law_range_is_the_remainder(rng: &mut Rng, n: u32, result: u32, other: &mut Rng, whole: u64)
    requires
        call_ensures(Rng::next_in_range, (rng, n), result),
        *old(other) == *old(rng),
        call_ensures(Rng::next_u64, (other,), whole),
    ensures
        n > 0 ==> {
            &&& result < n
            &&& exists|q: int| 0 <= q && whole as int / 0x1_0000_0000 == #[trigger] (q * n) + result
            &&& final(rng)@ == final(other)@
        },
        n == 0 ==> result == 0 && final(rng)@ == old(rng)@,
{
    if n > 0 {
        let upper = (whole >> 32) as u32;
        assert((whole >> 32) as u32 == whole / 0x1_0000_0000) by (bit_vector);
        let q = upper as int / n as int;
        vstd::arithmetic::div_mod::lemma_fundamental_div_mod(upper as int, n as int);
        assert(q * n == n * q) by (nonlinear_arith);
        vstd::arithmetic::div_mod::lemma_div_pos_is_pos(upper as int, n as int);
        assert(whole as int / 0x1_0000_0000 == q * n + result);
    }
}

} // verus!
