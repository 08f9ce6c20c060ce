use lumen2d::contribution::{calculate_light_contribution, normalize_channel, LightSample};
use lumen2d::fixed::FX_ONE;
use lumen2d::light::{Channels, Light, LightingState, Rgba};

fn black_ambient() -> Channels {
    Channels { r: 0, g: 0, b: 0, a: FX_ONE }
}

fn sample(x: i64, y: i64, light: Light) -> LightSample {
    LightSample { x, y, light, wave: 0 }
}

#[test]
fn single_red_light_quarter_attenuation() {
    // radius 100, red, default intensity, no flicker, light at the
    // origin, ambient black, sampled at (50, 0): the falloff is
    // t = 1 - 50/100 = 0.5, squared to 0.25, so the red channel is
    // exactly a quarter.
    let light = Light::new(100 * FX_ONE, Rgba { r: 255, g: 0, b: 0, a: 255 });
    let lights = vec![sample(0, 0, light)];
    let out = calculate_light_contribution(50 * FX_ONE, 0, &lights, black_ambient());
    assert_eq!(out.r, FX_ONE / 4);
    assert_eq!(out.g, 0);
    assert_eq!(out.b, 0);
    assert_eq!(out.a, FX_ONE);
}

#[test]
fn two_lights_blend_additively() {
    // Red at (0,0) and green at (10,0), both radius 50, sampled at
    // (5,0) over black ambient: the combined output is the clamped
    // sum of each light's independent contribution.
    let red = Light::new(50 * FX_ONE, Rgba { r: 255, g: 0, b: 0, a: 255 });
    let green = Light::new(50 * FX_ONE, Rgba { r: 0, g: 255, b: 0, a: 255 });
    let both = vec![sample(0, 0, red), sample(10 * FX_ONE, 0, green)];
    let red_only = vec![sample(0, 0, red)];
    let green_only = vec![sample(10 * FX_ONE, 0, green)];
    let x = 5 * FX_ONE;
    let out = calculate_light_contribution(x, 0, &both, black_ambient());
    let out_r = calculate_light_contribution(x, 0, &red_only, black_ambient());
    let out_g = calculate_light_contribution(x, 0, &green_only, black_ambient());
    assert!(out_r.r > 0);
    assert!(out_g.g > 0);
    assert_eq!(out.r, out_r.r.min(FX_ONE));
    assert_eq!(out.g, out_g.g.min(FX_ONE));
    assert_eq!(out.b, 0);
    assert_eq!(out.a, FX_ONE);
}

#[test]
fn order_of_lights_is_irrelevant_here() {
    let red = Light::new(50 * FX_ONE, Rgba { r: 255, g: 0, b: 0, a: 255 });
    let green = Light::new(50 * FX_ONE, Rgba { r: 0, g: 255, b: 0, a: 255 });
    let ab = vec![sample(0, 0, red), sample(10 * FX_ONE, 0, green)];
    let ba = vec![sample(10 * FX_ONE, 0, green), sample(0, 0, red)];
    let x = 5 * FX_ONE;
    let out_ab = calculate_light_contribution(x, 0, &ab, black_ambient());
    let out_ba = calculate_light_contribution(x, 0, &ba, black_ambient());
    assert_eq!(out_ab, out_ba);
}

#[test]
fn zero_radius_contributes_nothing() {
    let light = Light::new(0, Rgba { r: 255, g: 255, b: 255, a: 255 });
    let lights = vec![sample(0, 0, light)];
    let out = calculate_light_contribution(0, 0, &lights, black_ambient());
    assert_eq!((out.r, out.g, out.b, out.a), (0, 0, 0, FX_ONE));
}

#[test]
fn negative_radius_contributes_nothing() {
    // A malformed (negative) radius yields zero contribution, like
    // a zero one; it does not light anything through the square of
    // its magnitude.
    let light = Light::new(-100 * FX_ONE, Rgba { r: 255, g: 255, b: 255, a: 255 });
    let lights = vec![sample(0, 0, light)];
    let out = calculate_light_contribution(0, 0, &lights, black_ambient());
    assert_eq!((out.r, out.g, out.b, out.a), (0, 0, 0, FX_ONE));
}

#[test]
fn boundary_point_receives_nothing() {
    // The influence test is strict: a point exactly at the radius
    // gets zero, while a point just inside gets something.
    let light = Light::new(10 * FX_ONE, Rgba { r: 255, g: 255, b: 255, a: 255 });
    let lights = vec![sample(0, 0, light)];
    let at_edge = calculate_light_contribution(10 * FX_ONE, 0, &lights, black_ambient());
    assert_eq!((at_edge.r, at_edge.g, at_edge.b), (0, 0, 0));
    let inside = calculate_light_contribution(9 * FX_ONE, 0, &lights, black_ambient());
    assert!(inside.r > 0);
}

#[test]
fn center_attenuation_is_exactly_one() {
    // At the light's center the attenuation is one, so a fully
    // white light of default intensity saturates the channels.
    let light = Light::new(7 * FX_ONE, Rgba { r: 255, g: 255, b: 255, a: 255 });
    let lights = vec![sample(3 * FX_ONE, 4 * FX_ONE, light)];
    let out = calculate_light_contribution(3 * FX_ONE, 4 * FX_ONE, &lights, black_ambient());
    assert_eq!((out.r, out.g, out.b, out.a), (FX_ONE, FX_ONE, FX_ONE, FX_ONE));
}

#[test]
fn attenuation_never_increases_with_distance() {
    let light = Light::new(100 * FX_ONE, Rgba { r: 255, g: 0, b: 0, a: 255 });
    let lights = vec![sample(0, 0, light)];
    let mut last = i64::MAX;
    for step in 0..100 {
        let out = calculate_light_contribution(step * FX_ONE, 0, &lights, black_ambient());
        assert!(out.r <= last);
        last = out.r;
    }
}

#[test]
fn disabled_flicker_ignores_wave_and_speed() {
    // flicker_amount zero: whatever oscillator sample (that is,
    // whatever time) and whatever flicker speed, the output is
    // identical.
    let mut a = Light::new(100 * FX_ONE, Rgba { r: 200, g: 100, b: 50, a: 255 });
    a.flicker_speed = 3 * FX_ONE;
    let mut b = a;
    b.flicker_speed = 11 * FX_ONE;
    let la = vec![LightSample { x: 0, y: 0, light: a, wave: -FX_ONE }];
    let lb = vec![LightSample { x: 0, y: 0, light: b, wave: FX_ONE / 3 }];
    let out_a = calculate_light_contribution(20 * FX_ONE, 0, &la, black_ambient());
    let out_b = calculate_light_contribution(20 * FX_ONE, 0, &lb, black_ambient());
    assert_eq!(out_a, out_b);
}

#[test]
fn full_flicker_at_peak_blacks_out_the_light() {
    // flicker_amount one and the oscillator at its peak: the
    // effective intensity is exactly zero.
    let mut light = Light::new(100 * FX_ONE, Rgba { r: 255, g: 255, b: 255, a: 255 });
    light.flicker_amount = FX_ONE;
    let lights = vec![LightSample { x: 0, y: 0, light, wave: FX_ONE }];
    let out = calculate_light_contribution(0, 0, &lights, black_ambient());
    assert_eq!((out.r, out.g, out.b, out.a), (0, 0, 0, FX_ONE));
}

#[test]
fn half_flicker_at_peak_halves_the_light() {
    let mut light = Light::new(100 * FX_ONE, Rgba { r: 255, g: 255, b: 255, a: 255 });
    light.flicker_amount = FX_ONE / 2;
    let lights = vec![LightSample { x: 0, y: 0, light, wave: FX_ONE }];
    let out = calculate_light_contribution(0, 0, &lights, black_ambient());
    assert_eq!(out.r, FX_ONE / 2);
}

#[test]
fn channels_clamp_above_at_one_only() {
    // Many overlapping intense lights never push a channel past
    // one; a negative intensity may pull it below zero, which is
    // not clamped.
    let mut hot = Light::new(100 * FX_ONE, Rgba { r: 255, g: 255, b: 255, a: 255 });
    hot.intensity = 10 * FX_ONE;
    let many: Vec<LightSample> = (0..8).map(|_| sample(0, 0, hot)).collect();
    let out = calculate_light_contribution(0, 0, &many, black_ambient());
    assert_eq!((out.r, out.g, out.b), (FX_ONE, FX_ONE, FX_ONE));

    let mut dark = hot;
    dark.intensity = -FX_ONE;
    let lights = vec![sample(0, 0, dark)];
    let out = calculate_light_contribution(0, 0, &lights, black_ambient());
    assert_eq!(out.r, -FX_ONE);
    assert!(out.r < 0);
}

#[test]
fn default_lighting_state_is_full_white() {
    let state = LightingState::new();
    assert_eq!(state.ambient, Channels { r: FX_ONE, g: FX_ONE, b: FX_ONE, a: FX_ONE });
    let state = LightingState::default();
    assert_eq!(state.ambient.r, FX_ONE);
}

#[test]
fn light_new_defaults() {
    let light = Light::new(42 * FX_ONE, Rgba { r: 1, g: 2, b: 3, a: 4 });
    assert_eq!(light.radius, 42 * FX_ONE);
    assert_eq!(light.color, Rgba { r: 1, g: 2, b: 3, a: 4 });
    assert_eq!(light.intensity, FX_ONE);
    assert_eq!(light.flicker_amount, 0);
    assert_eq!(light.flicker_speed, FX_ONE);
}

#[test]
fn channel_normalization_is_exact() {
    assert_eq!(normalize_channel(0), 0);
    assert_eq!(normalize_channel(255), FX_ONE);
    // 128 * 65536 / 255 truncates to 32896.
    assert_eq!(normalize_channel(128), 32896);
}
