//! The contribution algorithm: the combined illumination multiplier
//! at a sample point, from an ambient base plus a set of point
//! lights with distance attenuation, quadratic falloff shaping,
//! flicker modulation and upper clamping.

use vstd::prelude::*;
use crate::fixed::{
    abs_mag, fx_add, fx_add_spec, fx_min, fx_mul, fx_mul_spec, fx_sub, fx_sub_spec, half_tz,
    is_sqrt_floor, isqrt_u128, lemma_sqrt_floor_exists, lemma_sqrt_floor_monotone,
    lemma_sqrt_floor_unique, sat64, sqrt_floor, tz_div, Fx, FX_ONE,
};
use crate::light::{Channels, Light};

verus! {

/// A light bound to a scene position for one query, together with
/// the flicker oscillator sample for that light at the query time.
///
/// `wave` is the caller-supplied oscillator value, the fixed-point
/// `sin(time * flicker_speed * 10)` in `[-FX_ONE, FX_ONE]`; it is
/// read only when `flicker_amount > 0`, and any value outside that
/// range has its literal mathematical effect.
#[derive(Clone, Copy, Debug, PartialEq, Eq, Structural)]
pub struct LightSample {
    pub x: Fx,
    pub y: Fx,
    pub light: Light,
    pub wave: Fx,
}

/// A color channel normalized from `[0, 255]` to `[0, FX_ONE]`.
pub open spec fn channel_norm(c: u8) -> int {
    (c as int * FX_ONE as int) / 255
}

/// Squared distance between the sample point and a light position
/// (each coordinate difference saturates at the `i64` range).
pub open spec fn dist_sq_of(x: int, y: int, lx: int, ly: int) -> int {
    let dx = sat64(x - lx);
    let dy = sat64(y - ly);
    dx * dx + dy * dy
}

/// Attenuation at squared distance `dsq` from a light of positive
/// radius: the linear falloff `1 - min(dist/radius, 1)`, squared to
/// steepen the edge and flatten the center; in `[0, FX_ONE]`.
pub open spec fn att_spec(dsq: int, radius: int) -> int {
    let d = sqrt_floor(dsq);
    let ratio = (FX_ONE as int * d) / radius;
    let rm = if ratio > FX_ONE as int { FX_ONE as int } else { ratio };
    let t = FX_ONE as int - rm;
    (t * t) / (FX_ONE as int)
}

/// The flicker oscillator sample remapped from `[-FX_ONE, FX_ONE]`
/// to `[0, FX_ONE]`.
pub open spec fn osc_of(wave: int) -> int {
    tz_div(sat64(wave + FX_ONE as int), 2)
}

/// The light's intensity after flicker: at the oscillator's peak a
/// `flicker_amount` of one removes the intensity entirely; at or
/// below zero, flicker is disabled and `wave` is irrelevant.
pub open spec fn effective_intensity(l: Light, wave: int) -> int {
    if l.flicker_amount > 0 {
        let flicker = fx_mul_spec(osc_of(wave), l.flicker_amount as int);
        fx_mul_spec(l.intensity as int, fx_sub_spec(FX_ONE as int, flicker))
    } else {
        l.intensity as int
    }
}

/// Whether the sample point lies strictly inside the light's disk of
/// influence: a point exactly at the radius receives nothing, and a
/// light with `radius <= 0` influences nothing anywhere.
pub open spec fn influences(x: int, y: int, s: LightSample) -> bool {
    s.light.radius > 0 && dist_sq_of(x, y, s.x as int, s.y as int) < (s.light.radius as int)
        * (s.light.radius as int)
}

/// One light's contribution to one color channel `c` of the sample.
pub open spec fn term_channel(x: int, y: int, s: LightSample, c: u8) -> int {
    if influences(x, y, s) {
        let att = att_spec(dist_sq_of(x, y, s.x as int, s.y as int), s.light.radius as int);
        fx_mul_spec(fx_mul_spec(channel_norm(c), att), effective_intensity(s.light, s.wave as int))
    } else {
        0
    }
}

/// One light's contribution to the three color channels.
pub open spec fn term_rgb(x: int, y: int, s: LightSample) -> (int, int, int) {
    (
        term_channel(x, y, s, s.light.color.r),
        term_channel(x, y, s, s.light.color.g),
        term_channel(x, y, s, s.light.color.b),
    )
}

/// The running totals after folding every sample's contribution, in
/// order, onto the accumulator `acc` (saturating adds).
pub open spec fn accum_rgb(x: int, y: int, samples: Seq<LightSample>, acc: (int, int, int)) -> (
    int,
    int,
    int,
)
    decreases samples.len(),
{
    if samples.len() == 0 {
        acc
    } else {
        let t = term_rgb(x, y, samples[0]);
        accum_rgb(
            x,
            y,
            samples.drop_first(),
            (fx_add_spec(acc.0, t.0), fx_add_spec(acc.1, t.1), fx_add_spec(acc.2, t.2)),
        )
    }
}

/// The final upper clamp: channels never exceed one, but are not
/// clamped below, so negative intensities may darken a sample.
pub open spec fn clamp_channel(v: int) -> int {
    if v > FX_ONE as int {
        FX_ONE as int
    } else {
        v
    }
}

/// What a sample query returns: ambient plus every light's
/// contribution, each color channel clamped above at one, and alpha
/// fixed at one.
pub open spec fn contribution_spec(x: int, y: int, samples: Seq<LightSample>, ambient: Channels) -> (
    int,
    int,
    int,
    int,
) {
    let acc = accum_rgb(x, y, samples, (ambient.r as int, ambient.g as int, ambient.b as int));
    (clamp_channel(acc.0), clamp_channel(acc.1), clamp_channel(acc.2), FX_ONE as int)
}

/// A light with non-positive radius contributes exactly zero at
/// every point: its influence test never passes.
pub proof fn lemma_zero_radius_no_contribution(x: int, y: int, s: LightSample)
    requires
        s.light.radius <= 0,
    ensures
        term_rgb(x, y, s) == (0int, 0int, 0int),
{
}

/// A point at or beyond the radius receives nothing from the light:
/// the influence test is a strict inequality, so the disk of
/// influence is half-open and the exact boundary is dark.
pub proof fn lemma_boundary_no_contribution(x: int, y: int, s: LightSample)
    requires
        dist_sq_of(x, y, s.x as int, s.y as int) >= (s.light.radius as int) * (
        s.light.radius as int),
    ensures
        term_rgb(x, y, s) == (0int, 0int, 0int),
{
}

/// At the light's center the attenuation is exactly one: no dimming
/// from distance.
pub proof fn lemma_attenuation_at_center(radius: int)
    requires
        radius > 0,
    ensures
        att_spec(0, radius) == FX_ONE as int,
{
    lemma_sqrt_floor_unique(0, 0);
    assert((FX_ONE as int) * 0 == 0);
    vstd::arithmetic::div_mod::lemma_div_of0(radius);
    vstd::arithmetic::div_mod::lemma_div_multiples_vanish(FX_ONE as int, FX_ONE as int);
}

/// Attenuation never increases with distance: over squared
/// distances (the monotone image of distances), a farther point
/// never receives more than a nearer one from the same light.
pub proof fn lemma_attenuation_monotone(d1: int, d2: int, radius: int)
    requires
        radius > 0,
        0 <= d1 <= d2,
    ensures
        att_spec(d2, radius) <= att_spec(d1, radius),
{
    lemma_sqrt_floor_exists(d1);
    lemma_sqrt_floor_exists(d2);
    lemma_sqrt_floor_monotone(d1, d2);
    let s1 = sqrt_floor(d1);
    let s2 = sqrt_floor(d2);
    vstd::arithmetic::mul::lemma_mul_inequality(s1, s2, FX_ONE as int);
    assert((FX_ONE as int) * s1 == s1 * (FX_ONE as int)) by (nonlinear_arith);
    assert((FX_ONE as int) * s2 == s2 * (FX_ONE as int)) by (nonlinear_arith);
    vstd::arithmetic::div_mod::lemma_div_is_ordered(
        (FX_ONE as int) * s1,
        (FX_ONE as int) * s2,
        radius,
    );
    vstd::arithmetic::div_mod::lemma_div_pos_is_pos((FX_ONE as int) * s1, radius);
    vstd::arithmetic::mul::lemma_mul_nonnegative(FX_ONE as int, s1);
    let ratio1 = ((FX_ONE as int) * s1) / radius;
    let ratio2 = ((FX_ONE as int) * s2) / radius;
    let rm1 = if ratio1 > FX_ONE as int { FX_ONE as int } else { ratio1 };
    let rm2 = if ratio2 > FX_ONE as int { FX_ONE as int } else { ratio2 };
    let t1 = FX_ONE as int - rm1;
    let t2 = FX_ONE as int - rm2;
    assert(t2 * t2 <= t1 * t1) by (nonlinear_arith)
        requires
            0 <= t2 <= t1,
    ;
    vstd::arithmetic::div_mod::lemma_div_is_ordered(t2 * t2, t1 * t1, FX_ONE as int);
}

/// Attenuation always lies between zero and one.
pub proof fn lemma_att_spec_bounds(dsq: int, radius: int)
    requires
        radius > 0,
        dsq >= 0,
    ensures
        0 <= att_spec(dsq, radius) <= FX_ONE as int,
{
    lemma_sqrt_floor_exists(dsq);
    let d = sqrt_floor(dsq);
    vstd::arithmetic::mul::lemma_mul_nonnegative(FX_ONE as int, d);
    vstd::arithmetic::div_mod::lemma_div_pos_is_pos((FX_ONE as int) * d, radius);
    let ratio = ((FX_ONE as int) * d) / radius;
    let rm = if ratio > FX_ONE as int { FX_ONE as int } else { ratio };
    let t = FX_ONE as int - rm;
    vstd::arithmetic::mul::lemma_mul_nonnegative(t, t);
    vstd::arithmetic::div_mod::lemma_div_pos_is_pos(t * t, FX_ONE as int);
    assert(t * t <= (FX_ONE as int) * (FX_ONE as int)) by (nonlinear_arith)
        requires
            0 <= t <= FX_ONE as int,
    ;
    vstd::arithmetic::div_mod::lemma_div_is_ordered(
        t * t,
        (FX_ONE as int) * (FX_ONE as int),
        FX_ONE as int,
    );
    vstd::arithmetic::div_mod::lemma_div_multiples_vanish(FX_ONE as int, FX_ONE as int);
}

/// A saturating truncated product of non-negative factors is
/// non-negative.
proof fn lemma_fx_mul_spec_nonneg(a: int, b: int)
    requires
        a >= 0,
        b >= 0,
    ensures
        fx_mul_spec(a, b) >= 0,
{
    vstd::arithmetic::mul::lemma_mul_nonnegative(a, b);
    vstd::arithmetic::div_mod::lemma_div_pos_is_pos(a * b, FX_ONE as int);
}

/// A light of non-negative intensity whose flicker stays in its
/// nominal range never contributes negatively on any channel.
pub proof fn lemma_term_nonnegative(x: int, y: int, s: LightSample)
    requires
        s.light.intensity >= 0,
        s.light.flicker_amount <= FX_ONE,
        -FX_ONE <= s.wave <= FX_ONE,
    ensures
        term_rgb(x, y, s).0 >= 0,
        term_rgb(x, y, s).1 >= 0,
        term_rgb(x, y, s).2 >= 0,
{
    if influences(x, y, s) {
        let dx = sat64(x - s.x as int);
        let dy = sat64(y - s.y as int);
        assert(dx * dx >= 0 && dy * dy >= 0) by (nonlinear_arith);
        let dsq = dist_sq_of(x, y, s.x as int, s.y as int);
        lemma_att_spec_bounds(dsq, s.light.radius as int);
        let att = att_spec(dsq, s.light.radius as int);
        let eff = effective_intensity(s.light, s.wave as int);
        assert(eff >= 0) by {
            if s.light.flicker_amount > 0 {
                let osc = osc_of(s.wave as int);
                assert(0 <= osc <= FX_ONE as int) by {
                    vstd::arithmetic::div_mod::lemma_div_pos_is_pos(
                        sat64(s.wave as int + FX_ONE as int),
                        2,
                    );
                    vstd::arithmetic::div_mod::lemma_div_is_ordered(
                        sat64(s.wave as int + FX_ONE as int),
                        2 * (FX_ONE as int),
                        2,
                    );
                    vstd::arithmetic::div_mod::lemma_div_multiples_vanish(FX_ONE as int, 2);
                }
                let flicker = fx_mul_spec(osc, s.light.flicker_amount as int);
                assert(0 <= flicker <= FX_ONE as int) by {
                    lemma_fx_mul_spec_nonneg(osc, s.light.flicker_amount as int);
                    vstd::arithmetic::mul::lemma_mul_upper_bound(
                        osc,
                        FX_ONE as int,
                        s.light.flicker_amount as int,
                        FX_ONE as int,
                    );
                    vstd::arithmetic::div_mod::lemma_div_is_ordered(
                        osc * (s.light.flicker_amount as int),
                        (FX_ONE as int) * (FX_ONE as int),
                        FX_ONE as int,
                    );
                    vstd::arithmetic::div_mod::lemma_div_multiples_vanish(
                        FX_ONE as int,
                        FX_ONE as int,
                    );
                }
                lemma_fx_mul_spec_nonneg(
                    s.light.intensity as int,
                    fx_sub_spec(FX_ONE as int, flicker),
                );
            }
        }
        lemma_fx_mul_spec_nonneg(channel_norm(s.light.color.r), att);
        lemma_fx_mul_spec_nonneg(channel_norm(s.light.color.g), att);
        lemma_fx_mul_spec_nonneg(channel_norm(s.light.color.b), att);
        vstd::arithmetic::div_mod::lemma_div_pos_is_pos(
            (s.light.color.r as int) * (FX_ONE as int),
            255,
        );
        vstd::arithmetic::div_mod::lemma_div_pos_is_pos(
            (s.light.color.g as int) * (FX_ONE as int),
            255,
        );
        vstd::arithmetic::div_mod::lemma_div_pos_is_pos(
            (s.light.color.b as int) * (FX_ONE as int),
            255,
        );
        lemma_fx_mul_spec_nonneg(fx_mul_spec(channel_norm(s.light.color.r), att), eff);
        lemma_fx_mul_spec_nonneg(fx_mul_spec(channel_norm(s.light.color.g), att), eff);
        lemma_fx_mul_spec_nonneg(fx_mul_spec(channel_norm(s.light.color.b), att), eff);
    }
}

/// The running totals stay non-negative under non-negative terms.
proof fn lemma_accum_nonnegative(x: int, y: int, samples: Seq<LightSample>, acc: (int, int, int))
    requires
        acc.0 >= 0,
        acc.1 >= 0,
        acc.2 >= 0,
        forall|i: int|
            0 <= i < samples.len() ==> samples[i].light.intensity >= 0
                && samples[i].light.flicker_amount <= FX_ONE && -FX_ONE <= samples[i].wave
                <= FX_ONE,
    ensures
        accum_rgb(x, y, samples, acc).0 >= 0,
        accum_rgb(x, y, samples, acc).1 >= 0,
        accum_rgb(x, y, samples, acc).2 >= 0,
    decreases samples.len(),
{
    if samples.len() > 0 {
        lemma_term_nonnegative(x, y, samples[0]);
        let t = term_rgb(x, y, samples[0]);
        assert(forall|i: int|
            0 <= i < samples.drop_first().len() ==> samples.drop_first()[i] == samples[i + 1]);
        lemma_accum_nonnegative(
            x,
            y,
            samples.drop_first(),
            (fx_add_spec(acc.0, t.0), fx_add_spec(acc.1, t.1), fx_add_spec(acc.2, t.2)),
        );
    }
}

/// A channel may fall below zero only when a negative intensity is
/// deliberately configured: over a non-negative ambient, lights of
/// non-negative intensity whose flicker stays in its nominal range
/// never darken a sample below black (and the upper clamp holds by
/// the query's own contract).
pub proof fn lemma_no_darkening_without_negative_intensity(
    x: int,
    y: int,
    samples: Seq<LightSample>,
    ambient: Channels,
)
    requires
        ambient.r >= 0,
        ambient.g >= 0,
        ambient.b >= 0,
        forall|i: int|
            0 <= i < samples.len() ==> samples[i].light.intensity >= 0
                && samples[i].light.flicker_amount <= FX_ONE && -FX_ONE <= samples[i].wave
                <= FX_ONE,
    ensures
        contribution_spec(x, y, samples, ambient).0 >= 0,
        contribution_spec(x, y, samples, ambient).1 >= 0,
        contribution_spec(x, y, samples, ambient).2 >= 0,
{
    lemma_accum_nonnegative(
        x,
        y,
        samples,
        (ambient.r as int, ambient.g as int, ambient.b as int),
    );
}

/// With flicker disabled (a flicker amount at or below zero), the
/// oscillator sample and the flicker speed have no effect: two
/// samples of the same placed light that differ only in wave and in
/// flicker speed contribute identically.
pub proof fn lemma_flicker_disabled(x: int, y: int, a: LightSample, b: LightSample)
    requires
        a.light.flicker_amount <= 0,
        b.x == a.x,
        b.y == a.y,
        b.light == (Light { flicker_speed: b.light.flicker_speed, ..a.light }),
    ensures
        term_rgb(x, y, a) == term_rgb(x, y, b),
{
}

/// Two scenes of pairwise equally placed, flicker-disabled lights
/// fold to the same totals whatever their waves and speeds.
proof fn lemma_accum_flicker_disabled(
    x: int,
    y: int,
    a: Seq<LightSample>,
    b: Seq<LightSample>,
    acc: (int, int, int),
)
    requires
        a.len() == b.len(),
        forall|i: int|
            0 <= i < a.len() ==> a[i].light.flicker_amount <= 0 && b[i].x == a[i].x && b[i].y
                == a[i].y && b[i].light == (Light {
                flicker_speed: b[i].light.flicker_speed,
                ..a[i].light
            }),
    ensures
        accum_rgb(x, y, a, acc) == accum_rgb(x, y, b, acc),
    decreases a.len(),
{
    if a.len() > 0 {
        lemma_flicker_disabled(x, y, a[0], b[0]);
        assert(forall|i: int| 0 <= i < a.drop_first().len() ==> a.drop_first()[i] == a[i + 1]);
        assert(forall|i: int| 0 <= i < b.drop_first().len() ==> b.drop_first()[i] == b[i + 1]);
        let t = term_rgb(x, y, a[0]);
        lemma_accum_flicker_disabled(
            x,
            y,
            a.drop_first(),
            b.drop_first(),
            (fx_add_spec(acc.0, t.0), fx_add_spec(acc.1, t.1), fx_add_spec(acc.2, t.2)),
        );
    }
}

/// With flicker disabled on every light, the oscillator samples
/// (that is, the query time) and the flicker speeds are irrelevant
/// to the whole query: two scenes of pairwise equally placed lights
/// that differ only in waves and flicker speeds yield the same
/// result.
pub proof fn lemma_query_ignores_time_without_flicker(
    x: int,
    y: int,
    a: Seq<LightSample>,
    b: Seq<LightSample>,
    ambient: Channels,
)
    requires
        a.len() == b.len(),
        forall|i: int|
            0 <= i < a.len() ==> a[i].light.flicker_amount <= 0 && b[i].x == a[i].x && b[i].y
                == a[i].y && b[i].light == (Light {
                flicker_speed: b[i].light.flicker_speed,
                ..a[i].light
            }),
    ensures
        contribution_spec(x, y, a, ambient) == contribution_spec(x, y, b, ambient),
{
    lemma_accum_flicker_disabled(
        x,
        y,
        a,
        b,
        (ambient.r as int, ambient.g as int, ambient.b as int),
    );
}

/// With a flicker amount of one and the oscillator at its peak, the
/// effective intensity is exactly zero, so the light contributes
/// nothing at all (full flicker-out).
pub proof fn lemma_full_flicker_peak(x: int, y: int, s: LightSample)
    requires
        s.light.flicker_amount == FX_ONE,
        s.wave == FX_ONE,
    ensures
        effective_intensity(s.light, s.wave as int) == 0,
        term_rgb(x, y, s) == (0int, 0int, 0int),
{
    vstd::arithmetic::div_mod::lemma_div_multiples_vanish(FX_ONE as int, FX_ONE as int);
    assert(osc_of(FX_ONE as int) == FX_ONE as int);
    assert(fx_mul_spec(FX_ONE as int, FX_ONE as int) == FX_ONE as int);
    assert(effective_intensity(s.light, s.wave as int) == 0) by {
        assert((s.light.intensity as int) * 0 == 0) by (nonlinear_arith);
        vstd::arithmetic::div_mod::lemma_div_of0(FX_ONE as int);
    }
    if influences(x, y, s) {
        let att = att_spec(dist_sq_of(x, y, s.x as int, s.y as int), s.light.radius as int);
        let base = fx_mul_spec(channel_norm(s.light.color.r), att);
        assert(base * 0 == 0) by (nonlinear_arith);
        let baseg = fx_mul_spec(channel_norm(s.light.color.g), att);
        assert(baseg * 0 == 0) by (nonlinear_arith);
        let baseb = fx_mul_spec(channel_norm(s.light.color.b), att);
        assert(baseb * 0 == 0) by (nonlinear_arith);
        vstd::arithmetic::div_mod::lemma_div_of0(FX_ONE as int);
    }
}

/// With no lights, a query returns the ambient color unchanged (for
/// ambient channels at most one, as the convention keeps them) and
/// alpha one; in particular a fully white ambient -- the default --
/// yields the fully lit multiplier.
pub proof fn lemma_no_lights(x: int, y: int, ambient: Channels)
    requires
        ambient.r <= FX_ONE,
        ambient.g <= FX_ONE,
        ambient.b <= FX_ONE,
    ensures
        contribution_spec(x, y, Seq::<LightSample>::empty(), ambient) == (
            ambient.r as int,
            ambient.g as int,
            ambient.b as int,
            FX_ONE as int,
        ),
{
}

/// A color channel of 255 normalizes to exactly one: a fully white
/// ambient is the fully lit multiplier.
pub proof fn lemma_full_channel_is_one()
    ensures
        channel_norm(255) == FX_ONE as int,
{
    vstd::arithmetic::div_mod::lemma_div_multiples_vanish(FX_ONE as int, 255);
    assert(255 * (FX_ONE as int) == (255 as int) * (FX_ONE as int));
}

/// A color channel normalized from `[0, 255]` to `[0, FX_ONE]`.
pub fn normalize_channel(c: u8) -> (r: i64)
    ensures
        r as int == channel_norm(c),
        0 <= r <= FX_ONE,
{
    proof {
        assert((c as int) * (FX_ONE as int) <= 255 * (FX_ONE as int)) by (nonlinear_arith)
            requires
                0 <= c as int <= 255,
        ;
    }
    let v: u64 = (c as u64) * (FX_ONE as u64);
    let q: u64 = v / 255;
    proof {
        vstd::arithmetic::div_mod::lemma_div_is_ordered(
            v as int,
            255 * FX_ONE as int,
            255,
        );
    }
    q as i64
}

/// Attenuation of a light of positive radius at a squared distance
/// strictly inside its disk of influence.
fn attenuation(dsq: u128, radius: i64) -> (att: i64)
    requires
        radius > 0,
        (dsq as int) < (radius as int) * (radius as int),
    ensures
        att as int == att_spec(dsq as int, radius as int),
        0 <= att <= FX_ONE,
{
    let d: u128 = isqrt_u128(dsq);
    proof {
        lemma_sqrt_floor_unique(dsq as int, d as int);
        assert(d as int <= 0xffffffffffffffff) by (nonlinear_arith)
            requires
                is_sqrt_floor(dsq as int, d as int),
                dsq <= u128::MAX,
        ;
        assert((FX_ONE as int) * (d as int) <= (FX_ONE as int) * 0xffffffffffffffff)
            by (nonlinear_arith)
            requires
                0 <= d as int <= 0xffffffffffffffff,
        ;
    }
    let num: u128 = (FX_ONE as u128) * d;
    let ratio: u128 = num / (radius as u128);
    let rm: i64 = if ratio > FX_ONE as u128 {
        FX_ONE
    } else {
        ratio as i64
    };
    let t: i64 = FX_ONE - rm;
    proof {
        assert((t as int) * (t as int) <= (FX_ONE as int) * (FX_ONE as int)) by (nonlinear_arith)
            requires
                0 <= t as int <= FX_ONE as int,
        ;
    }
    let tt: u64 = (t as u64) * (t as u64);
    let att: i64 = (tt / (FX_ONE as u64)) as i64;
    proof {
        vstd::arithmetic::div_mod::lemma_div_is_ordered(
            tt as int,
            FX_ONE as int * FX_ONE as int,
            FX_ONE as int,
        );
    }
    att
}

/// The running totals advance by one sample: folding from sample `i`
/// equals folding from sample `i + 1` after adding sample `i`'s
/// contribution to the accumulator.
proof fn lemma_accum_step(x: int, y: int, s: Seq<LightSample>, i: int, acc: (int, int, int))
    requires
        0 <= i < s.len(),
    ensures
        accum_rgb(x, y, s.skip(i), acc) == accum_rgb(
            x,
            y,
            s.skip(i + 1),
            (
                fx_add_spec(acc.0, term_rgb(x, y, s[i]).0),
                fx_add_spec(acc.1, term_rgb(x, y, s[i]).1),
                fx_add_spec(acc.2, term_rgb(x, y, s[i]).2),
            ),
        ),
{
    assert(s.skip(i).len() > 0);
    assert(s.skip(i)[0] == s[i]);
    assert(s.skip(i).drop_first() =~= s.skip(i + 1));
}

/// The color multiplier at `(x, y)`: ambient plus every sample's
/// contribution, clamped above at one per color channel, with alpha
/// fixed at one. Pure: it reads nothing but its arguments, so
/// concurrent queries over one snapshot are safe.
pub fn calculate_light_contribution(
    x: Fx,
    y: Fx,
    lights: &Vec<LightSample>,
    ambient: Channels,
) -> (out: Channels)
    ensures
        (out.r as int, out.g as int, out.b as int, out.a as int) == contribution_spec(
            x as int,
            y as int,
            lights@,
            ambient,
        ),
        out.r <= FX_ONE,
        out.g <= FX_ONE,
        out.b <= FX_ONE,
        out.a == FX_ONE,
{
    let ghost amb0: (int, int, int) = (ambient.r as int, ambient.g as int, ambient.b as int);
    let mut tr: i64 = ambient.r;
    let mut tg: i64 = ambient.g;
    let mut tb: i64 = ambient.b;
    let n: usize = lights.len();
    let mut i: usize = 0;
    proof {
        assert(lights@.skip(0) =~= lights@);
    }
    while i < n
        invariant
            n == lights@.len(),
            i <= n,
            accum_rgb(x as int, y as int, lights@.skip(i as int), (tr as int, tg as int, tb as int))
                == accum_rgb(x as int, y as int, lights@, amb0),
        decreases n - i,
    {
        let s: LightSample = lights[i];
        let mut term_r: i64 = 0;
        let mut term_g: i64 = 0;
        let mut term_b: i64 = 0;
        if s.light.radius > 0 {
            let dx: i64 = fx_sub(x, s.x);
            let dy: i64 = fx_sub(y, s.y);
            let mdx: u128 = abs_mag(dx) as u128;
            let mdy: u128 = abs_mag(dy) as u128;
            proof {
                assert(mdx * mdx <= 0x8000000000000000 * 0x8000000000000000 && mdy * mdy
                    <= 0x8000000000000000 * 0x8000000000000000 && mdx * mdx == (dx as int) * (
                dx as int) && mdy * mdy == (dy as int) * (dy as int)) by (nonlinear_arith)
                    requires
                        mdx <= 0x8000000000000000u128,
                        mdy <= 0x8000000000000000u128,
                        mdx as int == if dx >= 0 {
                            dx as int
                        } else {
                            -(dx as int)
                        },
                        mdy as int == if dy >= 0 {
                            dy as int
                        } else {
                            -(dy as int)
                        },
                ;
            }
            let dsq: u128 = mdx * mdx + mdy * mdy;
            let rad: u128 = s.light.radius as u128;
            proof {
                assert(rad * rad <= 0x8000000000000000 * 0x8000000000000000) by (nonlinear_arith)
                    requires
                        rad <= 0x8000000000000000u128,
                ;
            }
            let rsq: u128 = rad * rad;
            if dsq < rsq {
                let att: i64 = attenuation(dsq, s.light.radius);
                let eff: i64 = if s.light.flicker_amount > 0 {
                    let osc: i64 = half_tz(fx_add(s.wave, FX_ONE));
                    let fl: i64 = fx_mul(osc, s.light.flicker_amount);
                    fx_mul(s.light.intensity, fx_sub(FX_ONE, fl))
                } else {
                    s.light.intensity
                };
                term_r = fx_mul(fx_mul(normalize_channel(s.light.color.r), att), eff);
                term_g = fx_mul(fx_mul(normalize_channel(s.light.color.g), att), eff);
                term_b = fx_mul(fx_mul(normalize_channel(s.light.color.b), att), eff);
            }
        }
        proof {
            assert((term_r as int, term_g as int, term_b as int) == term_rgb(
                x as int,
                y as int,
                s,
            ));
            lemma_accum_step(
                x as int,
                y as int,
                lights@,
                i as int,
                (tr as int, tg as int, tb as int),
            );
        }
        tr = fx_add(tr, term_r);
        tg = fx_add(tg, term_g);
        tb = fx_add(tb, term_b);
        i = i + 1;
    }
    proof {
        assert(lights@.skip(n as int) =~= Seq::<LightSample>::empty());
    }
    Channels { r: fx_min(tr, FX_ONE), g: fx_min(tg, FX_ONE), b: fx_min(tb, FX_ONE), a: FX_ONE }
}

} // verus!
