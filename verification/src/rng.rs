//! A xoshiro256-style pseudo-random generator used to fill the Zobrist table.
//!
//! All arithmetic wraps at 64 bits; the wrap-around is made explicit so the
//! generator is a total, fully specified function of its seed.

use vstd::prelude::*;

verus! {

/// The modulus of 64-bit machine arithmetic.
pub const TWO_POW_64: u128 = 0x1_0000_0000_0000_0000;

/// `a + b` reduced modulo 2^64.
pub open spec fn wrapping_add64(a: u64, b: u64) -> u64 {
    (((a as int) + (b as int)) % (TWO_POW_64 as int)) as u64
}

/// `a * b` reduced modulo 2^64.
pub open spec fn wrapping_mul64(a: u64, b: u64) -> u64 {
    (((a as int) * (b as int)) % (TWO_POW_64 as int)) as u64
}

/// `x` rotated left by `k` bits, for `0 < k < 64`.
pub open spec fn rotate_left64(x: u64, k: u64) -> u64 {
    (x << k) | (x >> ((64 - k) as u64))
}

/// 64-bit addition that wraps instead of overflowing.
fn wadd(a: u64, b: u64) -> (r: u64)
    ensures
        r == wrapping_add64(a, b),
{
    (((a as u128) + (b as u128)) % TWO_POW_64) as u64
}

/// 64-bit multiplication that wraps instead of overflowing.
fn wmul(a: u64, b: u64) -> (r: u64)
    ensures
        r == wrapping_mul64(a, b),
{
    let wa: u128 = a as u128;
    let wb: u128 = b as u128;
    proof {
        assert(wa * wb <= 0xffff_ffff_ffff_ffffu128 * 0xffff_ffff_ffff_ffffu128)
            by (nonlinear_arith)
            requires
                wa <= 0xffff_ffff_ffff_ffffu128,
                wb <= 0xffff_ffff_ffff_ffffu128,
        ;
    }
    ((wa * wb) % TWO_POW_64) as u64
}

/// Left bit-rotation.
fn rotl(x: u64, k: u64) -> (r: u64)
    requires
        0 < k < 64,
    ensures
        r == rotate_left64(x, k),
{
    (x << k) | (x >> (64 - k))
}

/// The state-advance half of the splitmix64 step.
pub open spec fn split_mix_state(x: u64) -> u64 {
    wrapping_add64(x, 0x9e3779b97f4a7c15)
}

/// The output half of the splitmix64 step, applied to the advanced state.
pub open spec fn split_mix_out(x: u64) -> u64 {
    let z1 = wrapping_mul64(x ^ (x >> 30), 0xbf58476d1ce4e5b9);
    let z2 = wrapping_mul64(z1 ^ (z1 >> 27), 0x94d049bb133111eb);
    z2 ^ (z2 >> 31)
}

/// One splitmix64 step: advances `*x` and returns the mixed output.
pub fn split_mix_64(x: &mut u64) -> (r: u64)
    ensures
        *final(x) == split_mix_state(*old(x)),
        r == split_mix_out(split_mix_state(*old(x))),
{
    *x = wadd(*x, 0x9e3779b97f4a7c15);
    let z1: u64 = wmul(*x ^ (*x >> 30), 0xbf58476d1ce4e5b9);
    let z2: u64 = wmul(z1 ^ (z1 >> 27), 0x94d049bb133111eb);
    z2 ^ (z2 >> 31)
}

/// A xoshiro256-style generator.
pub struct Xoshiro256 {
    pub s0: u64,
    pub s1: u64,
    pub s2: u64,
    pub s3: u64,
}

/// The generator state seeded with four successive splitmix64 outputs.
pub open spec fn xoshiro_from_seed(seed: u64) -> Xoshiro256 {
    let x1 = split_mix_state(seed);
    let x2 = split_mix_state(x1);
    let x3 = split_mix_state(x2);
    let x4 = split_mix_state(x3);
    Xoshiro256 {
        s0: split_mix_out(x1),
        s1: split_mix_out(x2),
        s2: split_mix_out(x3),
        s3: split_mix_out(x4),
    }
}

/// The value produced by one `next` call.
pub open spec fn xoshiro_next_out(s: Xoshiro256) -> u64 {
    wrapping_mul64(rotate_left64(wrapping_mul64(s.s1, 5), 7), 9)
}

/// The generator state after one `next` call.
pub open spec fn xoshiro_next_state(s: Xoshiro256) -> Xoshiro256 {
    let t = s.s1 << 17;
    let s2a = s.s2 ^ s.s0;
    let s3a = s.s3 ^ s.s1;
    Xoshiro256 { s0: s.s0 ^ s3a, s1: s.s1 ^ s2a, s2: s2a ^ t, s3: rotate_left64(s3a, 45) }
}

/// The generator state after `k` draws.
pub open spec fn rng_state_after(s: Xoshiro256, k: nat) -> Xoshiro256
    decreases k,
{
    if k == 0 {
        s
    } else {
        rng_state_after(xoshiro_next_state(s), (k - 1) as nat)
    }
}

/// The value of the `k`-th draw (counting from zero) from state `s`.
pub open spec fn rng_out_at(s: Xoshiro256, k: nat) -> u64 {
    xoshiro_next_out(rng_state_after(s, k))
}

/// Drawing once more from the state after `k` draws is the state after
/// `k + 1` draws.
pub proof fn lemma_rng_state_after_snoc(s: Xoshiro256, k: nat)
    ensures
        rng_state_after(s, k + 1) == xoshiro_next_state(rng_state_after(s, k)),
    decreases k,
{
    assert(rng_state_after(s, k + 1) == rng_state_after(xoshiro_next_state(s), k));
    if k > 0 {
        lemma_rng_state_after_snoc(xoshiro_next_state(s), (k - 1) as nat);
        assert(rng_state_after(xoshiro_next_state(s), k) == xoshiro_next_state(
            rng_state_after(xoshiro_next_state(s), (k - 1) as nat),
        ));
        assert(rng_state_after(s, k) == rng_state_after(xoshiro_next_state(s), (k - 1) as nat));
    }
}

impl Xoshiro256 {
    /// Seeds the generator deterministically from `seed`.
    pub fn new(seed: u64) -> (r: Self)
        ensures
            r == xoshiro_from_seed(seed),
    {
        let mut x: u64 = seed;
        let s0 = split_mix_64(&mut x);
        let s1 = split_mix_64(&mut x);
        let s2 = split_mix_64(&mut x);
        let s3 = split_mix_64(&mut x);
        Self { s0, s1, s2, s3 }
    }

    /// Draws the next 64-bit value and advances the state.
    pub fn next(&mut self) -> (r: u64)
        ensures
            r == xoshiro_next_out(*old(self)),
            *final(self) == xoshiro_next_state(*old(self)),
    {
        let result = wmul(rotl(wmul(self.s1, 5), 7), 9);
        let t = self.s1 << 17;

        self.s2 = self.s2 ^ self.s0;
        self.s3 = self.s3 ^ self.s1;
        self.s1 = self.s1 ^ self.s2;
        self.s0 = self.s0 ^ self.s3;
        self.s2 = self.s2 ^ t;
        self.s3 = rotl(self.s3, 45);

        result
    }

    /// Draws a value uniformly reduced into `[lower, upper)`.
    pub fn gen_usize(&mut self, lower: usize, upper: usize) -> (r: usize)
        requires
            lower < upper,
        ensures
            lower <= r < upper,
            r == lower + (xoshiro_next_out(*old(self)) as int) % ((upper - lower) as int),
            *final(self) == xoshiro_next_state(*old(self)),
    {
        let count = upper - lower;
        ((self.next() % (count as u64)) as usize) + lower
    }

    /// Draws a value uniformly reduced into `[lower, upper)`.
    pub fn gen_i32(&mut self, lower: i32, upper: i32) -> (r: i32)
        requires
            lower < upper,
        ensures
            lower <= r < upper,
            r == lower + (xoshiro_next_out(*old(self)) as int) % ((upper as int) - (lower as int)),
            *final(self) == xoshiro_next_state(*old(self)),
    {
        let count: i64 = (upper as i64) - (lower as i64);
        (((self.next() % (count as u64)) as i64) + (lower as i64)) as i32
    }
}

} // verus!
