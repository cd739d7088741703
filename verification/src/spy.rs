//! Spy reveal math (Ames / Ace / Condor): the share of cells a spy hides, the
//! deterministic per-tick noise, and the funds a spy reveals to its holder.

use vstd::prelude::*;
use crate::weapons::WeaponToken;

verus! {

/// How many ticks after the opponent's tetris the Ace spy keeps perturbing funds.
pub const ACE_TETRIS_WINDOW: u64 = 60;

/// Percentage of a spy's cells the holder hides each frame: Ames 50, Ace 15,
/// anything else (Condor) 0.
pub fn hide_pct(token: WeaponToken) -> (p: u32)
    ensures
        p == (match token {
            WeaponToken::Ames => 50u32,
            WeaponToken::Ace => 15u32,
            _ => 0u32,
        }),
{
    match token {
        WeaponToken::Ames => 50,
        WeaponToken::Ace => 15,
        _ => 0,
    }
}

/// Multiplication modulo 2^64.
pub open spec fn mul64(a: u64, b: u64) -> u64 {
    ((a as nat * b as nat) % 0x1_0000_0000_0000_0000) as u64
}

/// Addition modulo 2^64.
pub open spec fn add64(a: u64, b: u64) -> u64 {
    ((a as nat + b as nat) % 0x1_0000_0000_0000_0000) as u64
}

/// The splitmix64 finalizer applied to `tick + side * golden`.
pub open spec fn noise_spec(tick: u64, side: u64) -> u64 {
    let z0 = add64(tick, mul64(side, 0x9E37_79B9_7F4A_7C15));
    let z1 = mul64(z0 ^ (z0 >> 30u64), 0xBF58_476D_1CE4_E5B9);
    let z2 = mul64(z1 ^ (z1 >> 27u64), 0x94D0_49BB_1331_11EB);
    z2 ^ (z2 >> 31u64)
}

/// A deterministic per-tick, per-side noise word (splitmix64 finalizer).
pub fn noise_for(tick: u64, side: u64) -> (n: u64)
    ensures
        n == noise_spec(tick, side),
{
    let mut z = tick.wrapping_add(side.wrapping_mul(0x9E37_79B9_7F4A_7C15));
    z = (z ^ (z >> 30)).wrapping_mul(0xBF58_476D_1CE4_E5B9);
    z = (z ^ (z >> 27)).wrapping_mul(0x94D0_49BB_1331_11EB);
    z ^ (z >> 31)
}

/// Multiplying by `k` modulo 2^64 is undone by multiplying by `ki` when
/// `k * ki` is one more than a multiple `t` of 2^64.
proof fn lemma_mul64_undone(a: u64, k: u64, ki: u64, t: int)
    requires
        k as int * ki as int == 1 + t * 0x1_0000_0000_0000_0000,
    ensures
        mul64(mul64(a, k), ki) == a,
{
    let m: int = 0x1_0000_0000_0000_0000;
    let x = a as int * k as int;
    vstd::arithmetic::div_mod::lemma_mul_mod_noop_left(x, ki as int, m);
    assert(x * ki == a as int * (k as int * ki as int)) by (nonlinear_arith)
        requires
            x == a as int * k as int,
    ;
    assert(a as int * (1 + t * m) == m * (a as int * t) + a as int) by (nonlinear_arith);
    vstd::arithmetic::div_mod::lemma_mod_multiples_vanish(a as int * t, a as int, m);
    vstd::arithmetic::div_mod::lemma_small_mod(a as nat, m as nat);
}

/// `z ^ (z >> s)` (a splitmix shift-xor step) loses nothing: different
/// words stay different.
proof fn lemma_xorshift_injective(a: u64, b: u64)
    ensures
        a ^ (a >> 30u64) == b ^ (b >> 30u64) ==> a == b,
        a ^ (a >> 27u64) == b ^ (b >> 27u64) ==> a == b,
        a ^ (a >> 31u64) == b ^ (b >> 31u64) ==> a == b,
{
    assert(a ^ (a >> 30u64) == b ^ (b >> 30u64) ==> a == b) by (bit_vector);
    assert(a ^ (a >> 27u64) == b ^ (b >> 27u64) ==> a == b) by (bit_vector);
    assert(a ^ (a >> 31u64) == b ^ (b >> 31u64) ==> a == b) by (bit_vector);
}

/// For one side, different ticks give different noise words: every step of
/// the finalizer can be undone, so the noise never repeats within a side.
pub proof fn lemma_noise_injective(t1: u64, t2: u64, side: u64)
    requires
        t1 != t2,
    ensures
        noise_spec(t1, side) != noise_spec(t2, side),
{
    let c = mul64(side, 0x9E37_79B9_7F4A_7C15);
    let a0 = add64(t1, c);
    let b0 = add64(t2, c);
    assert(a0 != b0);
    let a1 = mul64(a0 ^ (a0 >> 30u64), 0xBF58_476D_1CE4_E5B9);
    let b1 = mul64(b0 ^ (b0 >> 30u64), 0xBF58_476D_1CE4_E5B9);
    lemma_xorshift_injective(a0, b0);
    lemma_mul64_undone(a0 ^ (a0 >> 30u64), 0xBF58_476D_1CE4_E5B9, 0x96de_1b17_3f11_9089, 8125545580553827436);
    lemma_mul64_undone(b0 ^ (b0 >> 30u64), 0xBF58_476D_1CE4_E5B9, 0x96de_1b17_3f11_9089, 8125545580553827436);
    assert(a1 != b1);
    let a2 = mul64(a1 ^ (a1 >> 27u64), 0x94D0_49BB_1331_11EB);
    let b2 = mul64(b1 ^ (b1 >> 27u64), 0x94D0_49BB_1331_11EB);
    lemma_xorshift_injective(a1, b1);
    lemma_mul64_undone(a1 ^ (a1 >> 27u64), 0x94D0_49BB_1331_11EB, 0x3196_42b2_d24d_8ec3, 2077064247507883091);
    lemma_mul64_undone(b1 ^ (b1 >> 27u64), 0x94D0_49BB_1331_11EB, 0x3196_42b2_d24d_8ec3, 2077064247507883091);
    assert(a2 != b2);
    lemma_xorshift_injective(a2, b2);
}

/// The pseudo-random sign a noise word carries (bit 33).
pub open spec fn noise_sign(noise: u64) -> int {
    if noise & 0x2_0000_0000 != 0 { -1 } else { 1 }
}

/// `|x|`.
pub open spec fn abs_int(x: int) -> int {
    if x < 0 { -x } else { x }
}

/// The funds a spy reveals: Condor exact; Ace exact unless the opponent's tetris
/// is recent, then off by `noise % 100`; Ames (and any other token) off by
/// `1 + noise % |funds|`, in the direction of the noise's sign bit, so never
/// the exact figure, except that nothing is off from funds of 0.
pub open spec fn adjust_spec(funds: i64, token: WeaponToken, noise: u64, ace_recent_tetris: bool) -> int {
    match token {
        WeaponToken::Condor => funds as int,
        WeaponToken::Ace => if ace_recent_tetris {
            funds + noise_sign(noise) * (noise as int % 100)
        } else {
            funds as int
        },
        _ => if funds == 0 {
            0
        } else {
            funds + noise_sign(noise) * (1 + noise as int % abs_int(funds as int))
        },
    }
}

/// The funds a spy reveals to its holder.
pub fn adjust_funds(funds: i64, token: WeaponToken, noise: u64, ace_recent_tetris: bool) -> (r: i64)
    requires
        funds != i64::MIN,
        i64::MIN <= adjust_spec(funds, token, noise, ace_recent_tetris) <= i64::MAX,
    ensures
        r == adjust_spec(funds, token, noise, ace_recent_tetris),
        token == WeaponToken::Condor ==> r == funds,
        token == WeaponToken::Ace && !ace_recent_tetris ==> r == funds,
        token == WeaponToken::Ace ==> -100 < r - funds < 100,
        !(token is Condor || token is Ace) && funds != 0 ==> 1 <= abs_int(r - funds) <= abs_int(funds as int) && r != funds,
        !(token is Condor || token is Ace) && funds == 0 ==> r == 0,
{
    let sign: i64 = if noise & (1u64 << 33u64) != 0 { -1 } else { 1 };
    assert(1u64 << 33u64 == 0x2_0000_0000) by (bit_vector);
    match token {
        WeaponToken::Condor => funds,
        WeaponToken::Ace => {
            if ace_recent_tetris {
                funds + sign * (noise % 100) as i64
            } else {
                funds
            }
        },
        _ => {
            if funds == 0 {
                0
            } else {
                let span: u64 = if funds < 0 { (-funds) as u64 } else { funds as u64 };
                let k = noise % span;
                assert(k < span);
                assert(span == abs_int(funds as int));
                let r = funds + sign * ((k + 1) as i64);
                assert(r - funds == sign * (k + 1));
                assert(abs_int(r - funds) == k + 1);
                r
            }
        },
    }
}

} // verus!
