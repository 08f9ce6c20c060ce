use lumen2d::contribution::{calculate_light_contribution, LightSample};
use lumen2d::engine::LightingEngine;
use lumen2d::fixed::FX_ONE;
use lumen2d::light::{LightError, Rgba};
use lumen2d::registry::LightRegistry;
use lumen2d::light::Light;

#[test]
fn ambient_white_query_with_no_lights_is_fully_lit() {
    let mut engine = LightingEngine::new();
    engine.set_ambient(255, 255, 255, 255);
    let out = calculate_light_contribution(12 * FX_ONE, -7 * FX_ONE, &vec![], engine.lighting.ambient);
    assert_eq!((out.r, out.g, out.b, out.a), (FX_ONE, FX_ONE, FX_ONE, FX_ONE));
}

#[test]
fn default_ambient_query_with_no_lights_is_fully_lit() {
    let engine = LightingEngine::new();
    let out = calculate_light_contribution(0, 0, &vec![], engine.lighting.ambient);
    assert_eq!((out.r, out.g, out.b, out.a), (FX_ONE, FX_ONE, FX_ONE, FX_ONE));
}

#[test]
fn set_ambient_converts_channels() {
    let mut engine = LightingEngine::new();
    engine.set_ambient(0, 255, 128, 64);
    assert_eq!(engine.lighting.ambient.r, 0);
    assert_eq!(engine.lighting.ambient.g, FX_ONE);
    assert_eq!(engine.lighting.ambient.b, 32896);
    assert_eq!(engine.lighting.ambient.a, 16448);
}

#[test]
fn create_then_mutate_succeeds() {
    let mut engine = LightingEngine::new();
    let id = engine.light_create(10 * FX_ONE, 1, 2, 3, 4);
    assert_eq!(engine.light_set_color(id, 9, 8, 7, 6), Ok(()));
    assert_eq!(engine.light_set_intensity(id, -3 * FX_ONE), Ok(()));
    assert_eq!(engine.light_set_flicker(id, 2 * FX_ONE, FX_ONE / 2), Ok(()));
    let light = engine.lights.get(id).unwrap();
    assert_eq!(light.color, Rgba { r: 9, g: 8, b: 7, a: 6 });
    assert_eq!(light.intensity, -3 * FX_ONE);
    assert_eq!(light.flicker_amount, 2 * FX_ONE);
    assert_eq!(light.flicker_speed, FX_ONE / 2);
    assert_eq!(light.radius, 10 * FX_ONE);
}

#[test]
fn mutating_a_freed_handle_is_invalid() {
    let mut engine = LightingEngine::new();
    let id = engine.light_create(10 * FX_ONE, 255, 255, 255, 255);
    assert_eq!(engine.light_free(id), Ok(()));
    assert_eq!(engine.light_set_color(id, 1, 1, 1, 1), Err(LightError::InvalidHandle(id)));
    assert_eq!(engine.light_set_intensity(id, FX_ONE), Err(LightError::InvalidHandle(id)));
    assert_eq!(engine.light_set_flicker(id, 0, 0), Err(LightError::InvalidHandle(id)));
    assert_eq!(engine.light_free(id), Err(LightError::InvalidHandle(id)));
}

#[test]
fn freed_handle_value_is_reused_and_works_again() {
    let mut engine = LightingEngine::new();
    let first = engine.light_create(10 * FX_ONE, 255, 0, 0, 255);
    assert_eq!(engine.light_free(first), Ok(()));
    let second = engine.light_create(20 * FX_ONE, 0, 255, 0, 255);
    // The registry reuses the lowest free slot, so the numeric
    // value comes back; operations on the new allocation succeed.
    assert_eq!(second, first);
    assert_eq!(engine.light_set_intensity(second, 2 * FX_ONE), Ok(()));
    assert_eq!(engine.lights.get(second).unwrap().radius, 20 * FX_ONE);
}

#[test]
fn unknown_handle_is_invalid_and_carries_the_id() {
    let mut engine = LightingEngine::new();
    match engine.light_set_intensity(40, FX_ONE) {
        Err(LightError::InvalidHandle(id)) => assert_eq!(id, 40),
        other => panic!("expected an invalid handle error, got {:?}", other),
    }
}

#[test]
fn failed_mutation_changes_nothing() {
    let mut engine = LightingEngine::new();
    let id = engine.light_create(10 * FX_ONE, 1, 2, 3, 4);
    let before = engine.lights.get(id).unwrap();
    assert!(engine.light_set_color(id + 1, 9, 9, 9, 9).is_err());
    assert_eq!(engine.lights.get(id).unwrap(), before);
}

#[test]
fn engine_flow_create_gather_query() {
    // The per-frame flow: mutate through the engine, gather the
    // live lights, query a sample point with the engine's ambient.
    let mut engine = LightingEngine::new();
    engine.set_ambient(0, 0, 0, 255);
    let id = engine.light_create(100 * FX_ONE, 255, 0, 0, 255);
    let light = engine.lights.get(id).unwrap();
    let samples = vec![LightSample { x: 0, y: 0, light, wave: 0 }];
    let out = calculate_light_contribution(50 * FX_ONE, 0, &samples, engine.lighting.ambient);
    assert_eq!((out.r, out.g, out.b, out.a), (FX_ONE / 4, 0, 0, FX_ONE));
}

#[test]
fn registry_insert_get_set_remove() {
    let mut reg = LightRegistry::new();
    let a = reg.insert(Light::new(FX_ONE, Rgba { r: 1, g: 1, b: 1, a: 1 }));
    let b = reg.insert(Light::new(2 * FX_ONE, Rgba { r: 2, g: 2, b: 2, a: 2 }));
    assert_ne!(a, b);
    assert_eq!(reg.get(a).unwrap().radius, FX_ONE);
    assert_eq!(reg.get(b).unwrap().radius, 2 * FX_ONE);
    assert!(reg.set(a, Light::new(3 * FX_ONE, Rgba { r: 3, g: 3, b: 3, a: 3 })));
    assert_eq!(reg.get(a).unwrap().radius, 3 * FX_ONE);
    let removed = reg.remove(a).unwrap();
    assert_eq!(removed.radius, 3 * FX_ONE);
    assert!(reg.get(a).is_none());
    assert!(reg.remove(a).is_none());
    assert!(!reg.set(a, Light::new(FX_ONE, Rgba { r: 0, g: 0, b: 0, a: 0 })));
    // The freed slot is the lowest free one, so it is reused next.
    let c = reg.insert(Light::new(4 * FX_ONE, Rgba { r: 4, g: 4, b: 4, a: 4 }));
    assert_eq!(c, a);
}
