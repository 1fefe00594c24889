//! Integer core of the lattice-gradient noise engine.
//!
//! Every integer lattice point owns a pseudo-random gradient direction. The
//! direction is derived from the point's coordinates alone, by a fixed
//! multiply-rotate-xor mixing of two 64-bit words, so the lattice is a pure
//! function: deterministic, stateless, never cached. The caller turns the
//! mixed word into an angle and a unit vector; only that last step involves
//! real arithmetic and stays outside this library.

use vstd::prelude::*;

verus! {

/// First multiplier of the mixing pipeline.
pub const MIX_MUL_A: u64 = 3284157443;

/// Second multiplier of the mixing pipeline.
pub const MIX_MUL_B: u64 = 1911520717;

/// Third multiplier of the mixing pipeline.
pub const MIX_MUL_C: u64 = 2048419325;

/// The two 32-bit halves of a word, swapped.
pub open spec fn swap_halves(x: u64) -> u64 {
    (x << 32) | (x >> 32)
}

/// The mixed word that seeds the gradient direction of lattice point
/// `(ix, iy)`: three wrapping multiplications interleaved with xors of
/// half-swapped intermediate words.
pub open spec fn hash_of(ix: u64, iy: u64) -> u64 {
    let a1 = ix.wrapping_mul(MIX_MUL_A);
    let b1 = iy ^ swap_halves(a1);
    let b2 = b1.wrapping_mul(MIX_MUL_B);
    let a2 = a1 ^ swap_halves(b2);
    a2.wrapping_mul(MIX_MUL_C)
}

/// Mixes the coordinates of a lattice point into the 64-bit word that
/// determines the point's gradient direction. Same inputs, same word:
/// the result is `hash_of(ix, iy)`, a pure function of the coordinates.
pub fn gradient_hash(ix: u64, iy: u64) -> (h: u64)
    ensures
        h == hash_of(ix, iy),
{
    let mut a = ix.wrapping_mul(MIX_MUL_A);
    let mut b = iy ^ ((a << 32) | (a >> 32));
    b = b.wrapping_mul(MIX_MUL_B);
    a = a ^ ((b << 32) | (b >> 32));
    a.wrapping_mul(MIX_MUL_C)
}

/// Spatial frequency multiplier of octave `k` (counted from 1) relative to
/// the base frequency: each octave doubles the frequency of the one before.
pub open spec fn octave_gain(k: nat) -> nat
    decreases k,
{
    if k <= 1 {
        1
    } else {
        2 * octave_gain((k - 1) as nat)
    }
}

/// Computes the frequency doubling factor `2^(k-1)` of octave `k`.
///
/// Only the first 32 octaves are representable; the animation's fractal
/// sum never asks for more, since the caller keeps `detail` small.
pub fn octave_factor(k: usize) -> (f: u32)
    requires
        1 <= k <= 32,
    ensures
        f == octave_gain(k as nat),
{
    let mut f: u32 = 1;
    let mut i: usize = 1;
    while i < k
        invariant
            1 <= i <= k <= 32,
            f == octave_gain(i as nat),
        decreases k - i,
    {
        proof {
            lemma_octave_gain_bound(i as nat);
        }
        f = f * 2;
        i = i + 1;
    }
    f
}

/// `octave_gain(k)` is exactly the power `2^(k-1)`.
proof fn lemma_octave_gain_is_pow2(k: nat)
    requires
        1 <= k,
    ensures
        octave_gain(k) == vstd::arithmetic::power2::pow2((k - 1) as nat),
    decreases k,
{
    vstd::arithmetic::power2::lemma2_to64();
    if k > 1 {
        lemma_octave_gain_is_pow2((k - 1) as nat);
        vstd::arithmetic::power2::lemma_pow2_unfold((k - 1) as nat);
    }
}

/// `octave_gain(k)` is `2^(k-1)`, so it stays within `u32` range for the
/// first 32 octaves.
proof fn lemma_octave_gain_bound(k: nat)
    requires
        1 <= k <= 32,
    ensures
        octave_gain(k) >= 1,
        k < 32 ==> octave_gain(k) <= 0x4000_0000,
        octave_gain(k) <= 0x8000_0000,
{
    lemma_octave_gain_is_pow2(k);
    vstd::arithmetic::power2::lemma2_to64();
    if k < 32 && k - 1 < 30 {
        vstd::arithmetic::power2::lemma_pow2_strictly_increases((k - 1) as nat, 30);
    }
    if k - 1 < 31 {
        vstd::arithmetic::power2::lemma_pow2_strictly_increases((k - 1) as nat, 31);
    }
}

} // verus!
