//! Verified core of a 2D dynamic lighting subsystem.
//!
//! The library computes, for any point in a scene, the combined
//! illumination from an ambient base plus a set of point lights,
//! and manages those lights through stable integer handles.
//!
//! Two modeling choices keep the whole core inside the verifier:
//!
//! - Every scalar quantity (coordinates, radii, intensities, color
//!   multipliers) is a fixed-point number with 16 fractional bits,
//!   so the contribution pipeline -- distance attenuation,
//!   quadratic falloff shaping, flicker modulation, ambient
//!   blending and upper clamping -- is exact integer arithmetic
//!   with fully stated results.
//! - The flicker oscillator (a sine of the animation time) is not
//!   evaluated here: each placed light carries its oscillator
//!   sample as an input, and the core is proved to ignore it
//!   whenever flicker is disabled. A thin unverified shell
//!   evaluates the sine and converts floats at the boundary.

pub mod contribution;
pub mod engine;
pub mod fixed;
pub mod light;
pub mod registry;
