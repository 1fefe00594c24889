//! Color-gradient mapping.
//!
//! A gradient is a non-empty sequence of RGB control points. A scalar in
//! `[0, 1]` selects a position along the ramp; the color is the linear
//! interpolation of the two nearest control points, each channel truncated
//! down to a whole 8-bit value.
//!
//! Scalars are fixed-point: a value in `[0, 1]` is carried as a count of
//! `SCALAR_UNIT`-ths, so the mapping is exact integer arithmetic.

use vstd::prelude::*;

verus! {

/// One RGB color: red, green, blue channels.
pub type Rgb = (u8, u8, u8);

/// Number of fixed-point steps in one whole unit: a scalar `s` in `[0, 1]`
/// is represented by the integer `s * SCALAR_UNIT`.
pub const SCALAR_UNIT: u32 = 1_000_000;

/// Linear interpolation of one 8-bit channel from `a` toward `b` by the
/// fraction `f / SCALAR_UNIT`, truncated down to a whole value.
pub open spec fn channel_of(a: u8, b: u8, f: int) -> u8 {
    ((a * (SCALAR_UNIT - f) + b * f) / (SCALAR_UNIT as int)) as u8
}

/// The index of the control point at or below position `n` on the ramp.
pub open spec fn lower_index_of(n: u32, len: nat) -> int {
    (n * (len - 1)) / (SCALAR_UNIT as int)
}

/// The interpolation weight between the two selected control points,
/// in `SCALAR_UNIT`-ths.
pub open spec fn weight_of(n: u32, len: nat) -> int {
    (n * (len - 1)) % (SCALAR_UNIT as int)
}

/// The color that a gradient `g` assigns to the scalar `n` (given in
/// `SCALAR_UNIT`-ths): position `n * (len - 1)` selects the two nearest
/// control points, and the fractional part interpolates each channel,
/// the upper index clamped at the last control point.
pub open spec fn mix_of(n: u32, g: Seq<Rgb>) -> Rgb
    recommends
        g.len() >= 1,
        n <= SCALAR_UNIT,
{
    let i = lower_index_of(n, g.len());
    let f = weight_of(n, g.len());
    let lo = g[i];
    let hi = g[if i + 1 < g.len() { i + 1 } else { g.len() - 1 }];
    (channel_of(lo.0, hi.0, f), channel_of(lo.1, hi.1, f), channel_of(lo.2, hi.2, f))
}

/// Interpolates one channel; exact integer form of
/// `a + (b - a) * f / SCALAR_UNIT`, truncated down.
fn mix_channel(a: u8, b: u8, f: u32) -> (c: u8)
    requires
        f < SCALAR_UNIT,
    ensures
        c == channel_of(a, b, f as int),
{
    proof {
        assert((a as int) * ((SCALAR_UNIT - f) as int) + (b as int) * (f as int) <= 255
            * (SCALAR_UNIT as int)) by (nonlinear_arith)
            requires
                a <= 255,
                b <= 255,
                0 <= f < SCALAR_UNIT,
                SCALAR_UNIT == 1_000_000,
        ;
    }
    let num: u64 = (a as u64) * ((SCALAR_UNIT - f) as u64) + (b as u64) * (f as u64);
    proof {
        vstd::arithmetic::div_mod::lemma_div_is_ordered(
            num as int,
            255 * (SCALAR_UNIT as int),
            SCALAR_UNIT as int,
        );
        vstd::arithmetic::div_mod::lemma_div_by_multiple(255, SCALAR_UNIT as int);
    }
    (num / (SCALAR_UNIT as u64)) as u8
}

/// Maps the scalar `n` (in `SCALAR_UNIT`-ths of one whole) to a color of the
/// gradient: the color is exactly `mix_of(n, gradient)`. A single-element
/// gradient yields that element whatever `n` is.
pub fn mix_rgb(n: u32, gradient: &[Rgb]) -> (c: Rgb)
    requires
        gradient@.len() >= 1,
        n <= SCALAR_UNIT,
    ensures
        c == mix_of(n, gradient@),
{
    let l = gradient.len();
    proof {
        assert((n as int) * ((l - 1) as int) <= 1_000_000 * 0xFFFF_FFFF_FFFF_FFFFint)
            by (nonlinear_arith)
            requires
                n <= 1_000_000,
                0 <= (l - 1) as int <= 0xFFFF_FFFF_FFFF_FFFFint,
        ;
    }
    let a: u128 = (n as u128) * ((l - 1) as u128);
    proof {
        vstd::arithmetic::mul::lemma_mul_inequality(
            n as int,
            SCALAR_UNIT as int,
            (l - 1) as int,
        );
        vstd::arithmetic::div_mod::lemma_div_is_ordered(
            a as int,
            (SCALAR_UNIT as int) * ((l - 1) as int),
            SCALAR_UNIT as int,
        );
        vstd::arithmetic::div_mod::lemma_div_multiples_vanish(
            (l - 1) as int,
            SCALAR_UNIT as int,
        );
    }
    let i = (a / (SCALAR_UNIT as u128)) as usize;
    let f = (a % (SCALAR_UNIT as u128)) as u32;
    let lo = gradient[i];
    let hi = gradient[if i + 1 < l { i + 1 } else { l - 1 }];
    (mix_channel(lo.0, hi.0, f), mix_channel(lo.1, hi.1, f), mix_channel(lo.2, hi.2, f))
}

/// At the bottom of the ramp the gradient yields its first control point:
/// `mix_of(0, g) == g[0]`.
pub proof fn lemma_mix_at_zero(g: Seq<Rgb>)
    requires
        g.len() >= 1,
    ensures
        mix_of(0, g) == g[0],
{
    lemma_channel_at_zero_weight(g[0].0, g[if g.len() > 1 { 1int } else { 0int }].0);
    lemma_channel_at_zero_weight(g[0].1, g[if g.len() > 1 { 1int } else { 0int }].1);
    lemma_channel_at_zero_weight(g[0].2, g[if g.len() > 1 { 1int } else { 0int }].2);
}

/// At the top of the ramp the gradient yields its last control point:
/// `mix_of(SCALAR_UNIT, g) == g[g.len() - 1]`.
pub proof fn lemma_mix_at_one(g: Seq<Rgb>)
    requires
        g.len() >= 1,
    ensures
        mix_of(SCALAR_UNIT, g) == g[g.len() - 1],
{
    let l = g.len() as int;
    vstd::arithmetic::div_mod::lemma_div_multiples_vanish(l - 1, SCALAR_UNIT as int);
    vstd::arithmetic::div_mod::lemma_mod_multiples_basic(l - 1, SCALAR_UNIT as int);
    assert(lower_index_of(SCALAR_UNIT, g.len()) == l - 1);
    assert(weight_of(SCALAR_UNIT, g.len()) == 0);
    lemma_channel_at_zero_weight(g[l - 1].0, g[l - 1].0);
    lemma_channel_at_zero_weight(g[l - 1].1, g[l - 1].1);
    lemma_channel_at_zero_weight(g[l - 1].2, g[l - 1].2);
}

/// A single-element gradient is a constant ramp: `mix_of(n, g) == g[0]`
/// for every scalar `n`.
pub proof fn lemma_mix_single(g: Seq<Rgb>, n: u32)
    requires
        g.len() == 1,
        n <= SCALAR_UNIT,
    ensures
        mix_of(n, g) == g[0],
{
    assert(n * (g.len() - 1) == 0) by (nonlinear_arith)
        requires
            g.len() == 1,
    ;
    lemma_channel_at_zero_weight(g[0].0, g[0].0);
    lemma_channel_at_zero_weight(g[0].1, g[0].1);
    lemma_channel_at_zero_weight(g[0].2, g[0].2);
}

/// With weight zero an interpolated channel is its lower endpoint.
proof fn lemma_channel_at_zero_weight(a: u8, b: u8)
    ensures
        channel_of(a, b, 0) == a,
{
    vstd::arithmetic::div_mod::lemma_div_by_multiple(a as int, SCALAR_UNIT as int);
}

} // verus!
