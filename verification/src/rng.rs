//! Deterministic, seedable random stream in the POSIX `drand48` family: a 48-bit
//! linear congruential generator (multiplier `0x5DEECE66D`, increment `0xB`,
//! modulus 2^48), with `rand()` and `lrand48()` returning the top 31 bits.

use vstd::prelude::*;
use vstd::arithmetic::div_mod::{lemma_add_mod_noop, lemma_mod_mod};

verus! {

/// `RAND_MAX` for the deterministic `rand()`.
pub const RAND_MAX: i32 = 0x7fff_ffff;

/// The LCG multiplier.
pub const LCG_A: u64 = 0x5DEECE66D;
/// The LCG increment.
pub const LCG_C: u64 = 0xB;

/// One step of the 48-bit generator.
#[verifier::opaque]
pub open spec fn lcg_next(s: u64) -> u64 {
    ((LCG_A as int * s as int + LCG_C as int) % 0x1_0000_0000_0000) as u64
}

/// The state after `n` steps.
pub open spec fn lcg_iter(s: u64, n: nat) -> u64
    decreases n,
{
    if n == 0 {
        s
    } else {
        lcg_next(lcg_iter(s, (n - 1) as nat))
    }
}

/// The 31-bit draw a state yields (`rand()` / `lrand48()`).
pub open spec fn draw(s: u64) -> int {
    s as int / 0x20000
}

/// The state `srand48(seed)` installs: the low 32 bits of the seed above `0x330E`.
pub open spec fn seed_state(seed: u64) -> u64 {
    ((seed as int % 0x1_0000_0000) * 0x10000 + 0x330E) as u64
}

/// A deterministic POSIX-style random stream.
#[derive(Clone, Debug)]
pub struct Rng {
    state: u64,
}

impl View for Rng {
    type V = u64;

    closed spec fn view(&self) -> u64 {
        self.state
    }
}

proof fn lemma_next_state(s: u64, m: u64, t: u64, r: u64)
    requires
        m == ((LCG_A as nat * s as nat) % 0x1_0000_0000_0000_0000) as u64,
        t == (if m + LCG_C > u64::MAX { (m + LCG_C - 0x1_0000_0000_0000_0000) as u64 } else { (m + LCG_C) as u64 }),
        r == t & 0xFFFF_FFFF_FFFF,
    ensures
        r == lcg_next(s),
        r < 0x1_0000_0000_0000,
{
    reveal(lcg_next);
    assert(t & 0xFFFF_FFFF_FFFF == t % 0x1_0000_0000_0000) by (bit_vector);
    assert(t & 0xFFFF_FFFF_FFFF < 0x1_0000_0000_0000) by (bit_vector);
    let p48: int = 0x1_0000_0000_0000;
    let p16: int = 0x10000;
    let x: int = LCG_A as int * s as int;
    assert(t as int == (m as int + LCG_C as int) % (p48 * p16));
    lemma_mod_mod(m as int + LCG_C as int, p48, p16);
    lemma_mod_mod(x, p48, p16);
    assert(m as int == x % (p48 * p16));
    lemma_add_mod_noop(m as int, LCG_C as int, p48);
    lemma_add_mod_noop(x, LCG_C as int, p48);
}

impl Rng {
    /// Seed the generator with `srand48(seed)` semantics.
    pub fn new(seed: u64) -> (r: Rng)
        ensures
            r@ == seed_state(seed),
    {
        let state = ((seed & 0xFFFF_FFFF) << 16) | 0x330E;
        assert(((seed & 0xFFFF_FFFF) << 16) | 0x330E == (seed % 0x1_0000_0000) * 0x10000 + 0x330E) by (bit_vector);
        Rng { state }
    }

    /// The raw state, for keyframe serialization.
    pub fn raw(&self) -> (s: u64)
        ensures
            s == self@,
    {
        self.state
    }

    /// Rebuild from a raw state captured by [`Rng::raw`].
    pub fn from_raw(state: u64) -> (r: Rng)
        ensures
            r@ == state,
    {
        Rng { state }
    }

    /// Advance the state one step and return it.
    fn next_state(&mut self) -> (s: u64)
        ensures
            s == lcg_next(old(self)@),
            final(self)@ == s,
            s < 0x1_0000_0000_0000,
    {
        let m = LCG_A.wrapping_mul(self.state);
        let t = m.wrapping_add(LCG_C);
        let r = t & 0xFFFF_FFFF_FFFF;
        proof {
            lemma_next_state(self.state, m, t, r);
        }
        self.state = r;
        r
    }

    /// `rand()`: the top 31 bits of the next state, in `0..=RAND_MAX`.
    pub fn rand(&mut self) -> (r: i32)
        ensures
            final(self)@ == lcg_next(old(self)@),
            r == draw(lcg_next(old(self)@)),
            0 <= r <= RAND_MAX,
    {
        let x = self.next_state();
        assert(x < 0x1_0000_0000_0000 ==> x >> 17 == x / 0x20000 && x >> 17 < 0x8000_0000) by (bit_vector);
        (x >> 17) as i32
    }

    /// `rand() % n` for `n > 0`.
    pub fn rand_below(&mut self, n: i32) -> (r: i32)
        requires
            n > 0,
        ensures
            final(self)@ == lcg_next(old(self)@),
            r == draw(lcg_next(old(self)@)) % (n as int),
            0 <= r < n,
    {
        let x = self.rand();
        x % n
    }

    /// `lrand48()`: the top 31 bits of the next state, in `0..2^31`.
    pub fn lrand48(&mut self) -> (r: i64)
        ensures
            final(self)@ == lcg_next(old(self)@),
            r == draw(lcg_next(old(self)@)),
            0 <= r <= RAND_MAX,
    {
        let x = self.next_state();
        assert(x < 0x1_0000_0000_0000 ==> x >> 17 == x / 0x20000 && x >> 17 < 0x8000_0000) by (bit_vector);
        (x >> 17) as i64
    }
}

/// Two generators seeded alike produce the same draw, and stay alike.
pub proof fn lemma_same_seed_same_stream(a: Rng, b: Rng, n: nat)
    requires
        a@ == b@,
    ensures
        lcg_iter(a@, n) == lcg_iter(b@, n),
        draw(lcg_iter(a@, n)) == draw(lcg_iter(b@, n)),
{
}

} // verus!
