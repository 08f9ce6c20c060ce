//! The engine context: an explicit object holding the light
//! registry and the ambient state, with the management operations.
//! Each operation is a single atomic update of the targeted record;
//! on failure nothing changes.

use vstd::prelude::*;
use crate::contribution::{channel_norm, normalize_channel};
use crate::fixed::{Fx, FX_ONE};
use crate::light::{full_white, Channels, Light, LightError, LightId, LightingState, Rgba};
use crate::registry::LightRegistry;

verus! {

/// The lighting context: the registry owning every live light, and
/// the process-wide ambient state. All management operations go
/// through one such object; there is no hidden global state.
pub struct LightingEngine {
    pub lights: LightRegistry,
    pub lighting: LightingState,
}

impl LightingEngine {
    /// A fresh context: no lights, fully white ambient.
    pub fn new() -> (e: LightingEngine)
        ensures
            e.lights@ == Map::<LightId, Light>::empty(),
            e.lights.slots@.len() == 0,
            e.lighting.ambient == full_white(),
    {
        LightingEngine { lights: LightRegistry::new(), lighting: LightingState::new() }
    }

    /// Overwrites the ambient color, converting each channel from
    /// `[0, 255]` to `[0, FX_ONE]`. Never fails; the lights are
    /// untouched.
    pub fn set_ambient(&mut self, r: u8, g: u8, b: u8, a: u8)
        ensures
            final(self).lighting.ambient == (Channels {
                r: channel_norm(r) as Fx,
                g: channel_norm(g) as Fx,
                b: channel_norm(b) as Fx,
                a: channel_norm(a) as Fx,
            }),
            final(self).lights == old(self).lights,
    {
        self.lighting.ambient = Channels {
            r: normalize_channel(r),
            g: normalize_channel(g),
            b: normalize_channel(b),
            a: normalize_channel(a),
        };
    }

    /// Creates a light with the given radius and color and the
    /// default intensity (one), no flicker and unit flicker speed,
    /// and returns its freshly allocated handle. Never fails; the
    /// length bound is the registry's capacity limit.
    pub fn light_create(&mut self, radius: Fx, r: u8, g: u8, b: u8, a: u8) -> (id: LightId)
        requires
            old(self).lights.slots@.len() < u32::MAX as int,
        ensures
            !old(self).lights@.contains_key(id),
            id as int == old(self).lights.next_handle(),
            final(self).lights@ == old(self).lights@.insert(id, (Light {
                radius,
                color: Rgba { r, g, b, a },
                intensity: FX_ONE as Fx,
                flicker_amount: 0 as Fx,
                flicker_speed: FX_ONE as Fx,
            })),
            final(self).lighting == old(self).lighting,
    {
        let light = Light::new(radius, Rgba { r, g, b, a });
        self.lights.insert(light)
    }

    /// Overwrites the color of the light behind `id`; with a dead
    /// handle, fails and changes nothing.
    pub fn light_set_color(&mut self, id: LightId, r: u8, g: u8, b: u8, a: u8) -> (res: Result<
        (),
        LightError,
    >)
        ensures
            old(self).lights@.contains_key(id) ==> res == Ok::<(), LightError>(())
                && final(self).lights@ == old(self).lights@.insert(id, (Light {
                color: Rgba { r, g, b, a },
                ..old(self).lights@[id]
            })),
            !old(self).lights@.contains_key(id) ==> res == Err::<(), LightError>(
                LightError::InvalidHandle(id),
            ) && *final(self) == *old(self),
            final(self).lighting == old(self).lighting,
    {
        match self.lights.get(id) {
            Some(l) => {
                let updated = Light { color: Rgba { r, g, b, a }, ..l };
                self.lights.set(id, updated);
                Ok(())
            },
            None => Err(LightError::InvalidHandle(id)),
        }
    }

    /// Overwrites the intensity of the light behind `id`; any value
    /// is accepted, including negative ones. With a dead handle,
    /// fails and changes nothing.
    pub fn light_set_intensity(&mut self, id: LightId, intensity: Fx) -> (res: Result<
        (),
        LightError,
    >)
        ensures
            old(self).lights@.contains_key(id) ==> res == Ok::<(), LightError>(())
                && final(self).lights@ == old(self).lights@.insert(id, (Light {
                intensity,
                ..old(self).lights@[id]
            })),
            !old(self).lights@.contains_key(id) ==> res == Err::<(), LightError>(
                LightError::InvalidHandle(id),
            ) && *final(self) == *old(self),
            final(self).lighting == old(self).lighting,
    {
        match self.lights.get(id) {
            Some(l) => {
                let updated = Light { intensity, ..l };
                self.lights.set(id, updated);
                Ok(())
            },
            None => Err(LightError::InvalidHandle(id)),
        }
    }

    /// Overwrites both flicker fields of the light behind `id` as
    /// one atomic pair; with a dead handle, fails and changes
    /// nothing.
    pub fn light_set_flicker(&mut self, id: LightId, amount: Fx, speed: Fx) -> (res: Result<
        (),
        LightError,
    >)
        ensures
            old(self).lights@.contains_key(id) ==> res == Ok::<(), LightError>(())
                && final(self).lights@ == old(self).lights@.insert(id, (Light {
                flicker_amount: amount,
                flicker_speed: speed,
                ..old(self).lights@[id]
            })),
            !old(self).lights@.contains_key(id) ==> res == Err::<(), LightError>(
                LightError::InvalidHandle(id),
            ) && *final(self) == *old(self),
            final(self).lighting == old(self).lighting,
    {
        match self.lights.get(id) {
            Some(l) => {
                let updated = Light { flicker_amount: amount, flicker_speed: speed, ..l };
                self.lights.set(id, updated);
                Ok(())
            },
            None => Err(LightError::InvalidHandle(id)),
        }
    }

    /// Removes the light behind `id`, invalidating the handle until
    /// the registry reuses its numeric value; with a dead handle,
    /// fails and changes nothing.
    pub fn light_free(&mut self, id: LightId) -> (res: Result<(), LightError>)
        ensures
            old(self).lights@.contains_key(id) ==> res == Ok::<(), LightError>(())
                && final(self).lights@ == old(self).lights@.remove(id),
            !old(self).lights@.contains_key(id) ==> res == Err::<(), LightError>(
                LightError::InvalidHandle(id),
            ) && final(self).lights@ == old(self).lights@,
            final(self).lighting == old(self).lighting,
    {
        match self.lights.remove(id) {
            Some(_) => Ok(()),
            None => {
                proof {
                    assert(self.lights@ =~= old(self).lights@);
                }
                Err(LightError::InvalidHandle(id))
            },
        }
    }
}

} // verus!
