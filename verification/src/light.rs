//! Data model: one point light, the ambient lighting state, light
//! handles and the single error kind of the management operations.

use vstd::prelude::*;
use crate::fixed::{Fx, FX_ONE};

verus! {

/// Stable integer handle for a live light. The registry may reuse a
/// handle's numeric value after the light is freed; a caller holding
/// a stale handle after reuse operates on the new light.
pub type LightId = u32;

/// An RGBA color with 8-bit channels in `[0, 255]`.
#[derive(Clone, Copy, Debug, PartialEq, Eq, Structural)]
pub struct Rgba {
    pub r: u8,
    pub g: u8,
    pub b: u8,
    pub a: u8,
}

/// Four fixed-point channels; used for the ambient color and for the
/// color multiplier a sample query returns (one is `FX_ONE`).
#[derive(Clone, Copy, Debug, PartialEq, Eq, Structural)]
pub struct Channels {
    pub r: Fx,
    pub g: Fx,
    pub b: Fx,
    pub a: Fx,
}

/// One point light. The position is not stored here: a query binds a
/// position to a light, so placement may live in a separate spatial
/// system.
#[derive(Clone, Copy, Debug, PartialEq, Eq, Structural)]
pub struct Light {
    /// Maximum distance of influence; a light with `radius <= 0`
    /// contributes nothing anywhere.
    pub radius: Fx,
    /// RGBA color; the alpha channel is carried but unused by blending.
    pub color: Rgba,
    /// Multiplicative scale; any value is accepted, including
    /// negative ones (which darken) and values above one.
    pub intensity: Fx,
    /// Fraction of intensity removed at the flicker oscillator's
    /// peak; at or below zero, flicker is disabled.
    pub flicker_amount: Fx,
    /// Oscillation frequency multiplier, handed to the caller's
    /// oscillator; it does not enter the core math directly.
    pub flicker_speed: Fx,
}

impl Light {
    /// A light with the given radius and color and the default
    /// intensity (one), no flicker, and unit flicker speed.
    pub fn new(radius: Fx, color: Rgba) -> (l: Light)
        ensures
            l == (Light {
                radius,
                color,
                intensity: FX_ONE as Fx,
                flicker_amount: 0 as Fx,
                flicker_speed: FX_ONE as Fx,
            }),
    {
        Light {
            radius,
            color,
            intensity: FX_ONE,
            flicker_amount: 0,
            flicker_speed: FX_ONE,
        }
    }
}

/// Process-wide ambient state.
#[derive(Clone, Copy, Debug, PartialEq, Eq, Structural)]
pub struct LightingState {
    /// Ambient color, each channel a fixed-point value meant to lie
    /// in `[0, FX_ONE]` (by convention, not enforced by the type).
    pub ambient: Channels,
}

/// The default ambient is fully opaque white, so that a scene that
/// never configures ambient is fully lit.
pub open spec fn full_white() -> Channels {
    Channels { r: FX_ONE as Fx, g: FX_ONE as Fx, b: FX_ONE as Fx, a: FX_ONE as Fx }
}

impl Default for LightingState {
    fn default() -> (s: LightingState)
        ensures
            s.ambient == full_white(),
    {
        LightingState {
            ambient: Channels { r: FX_ONE, g: FX_ONE, b: FX_ONE, a: FX_ONE },
        }
    }
}

impl LightingState {
    pub fn new() -> (s: LightingState)
        ensures
            s.ambient == full_white(),
    {
        Self::default()
    }
}

/// The one failure of the management operations: the supplied handle
/// does not reference a live light. It carries the offending handle.
#[derive(Clone, Copy, Debug, PartialEq, Eq, Structural)]
pub enum LightError {
    InvalidHandle(LightId),
}

} // verus!
