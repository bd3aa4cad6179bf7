//! Model constants, all in the fixed-point representation of this crate:
//! an `i64` value `v` stands for the real number `v / 1_000_000`.
use vstd::prelude::*;

verus! {

/// Number of fractional units in one whole unit of the representation.
pub const ONE: i64 = 1_000_000;

/// Initial pressure, 1013.25 hPa.
pub const P0: i64 = 1_013_250_000;
/// Initial temperature, 15.0 degrees Celsius.
pub const T0: i64 = 15_000_000;
/// Altitude step of the Runge-Kutta scheme, 0.1 km.
pub const DH: i64 = 100_000;
/// Altitude sub-step of the Euler scheme, 0.01 km.
pub const DHE: i64 = 10_000;
/// Offset between Celsius and Kelvin, 273.15.
pub const KELVIN: i64 = 273_150_000;
/// Magnus approximation constant, 17.625.
pub const MAGNUS_A: i64 = 17_625_000;
/// Magnus approximation constant, 243.04 degrees Celsius.
pub const MAGNUS_B: i64 = 243_040_000;

/// Leading factor of the saturation vapor pressure formula, 6.1121 hPa.
pub const ES_C0: i64 = 6_112_100;
/// Saturation vapor pressure formula constant, 18.678.
pub const ES_C1: i64 = 18_678_000;
/// Saturation vapor pressure formula constant, 234.5 degrees Celsius.
pub const ES_C2: i64 = 234_500_000;
/// Saturation vapor pressure formula constant, 257.14 degrees Celsius.
pub const ES_C3: i64 = 257_140_000;

/// Leading factor of the pressure gradient, -34.171.
pub const DP_C0: i64 = -34_171_000;
/// Vapor pressure weight in the pressure gradient, 0.37776.
pub const DP_C1: i64 = 377_760;

/// Leading factor of the lapse rate, 9.7734.
pub const L_C0: i64 = 9_773_400;
/// Humidity ratio weight in the lapse rate numerator, 5420.3.
pub const L_C1: i64 = 5_420_300_000;
/// Humidity ratio weight in the lapse rate denominator, 8400955.5.
pub const L_C2: i64 = 8_400_955_500_000;

/// Reciprocal of the boiling temperature at reference pressure,
/// 1 / 373.15 K, scaled by 1e12.
pub const BOIL_INV_T: i64 = 2_679_887_444;
/// Ratio of the gas constant to the latent heat, 8.314 / 45070.0,
/// scaled by 1e12.
pub const BOIL_RL: i64 = 184_468_604;

/// Arguments below this are flushed to zero by the exponential, -20.0.
pub const EXP_MIN_ARG: i64 = -20_000_000;
/// Arguments above this are clamped by the exponential, 22.0.
pub const EXP_MAX_ARG: i64 = 22_000_000;

/// Euler's number e, 2.718281828.
pub const E_FX: i64 = 2_718_282;
/// Natural logarithm of two, 0.693147.
pub const LN2_FX: i64 = 693_147;

/// Number of recorded altitude samples of either integration scheme.
pub const STEPS: usize = 111;

/// Error tolerance used by the curve-compression schemes, 0.02.
pub const SCHEME_EPSILON: i64 = 20_000;

/// Largest coordinate magnitude the simplifier accepts; keeps its exact
/// cross-product arithmetic inside `i128`.
pub const COORD_LIMIT: i64 = 1_073_741_824;
/// Largest tolerance the simplifier accepts, for the same reason.
pub const EPSILON_LIMIT: i64 = 3_500_000_000;

} // verus!
