//! Simulation core of a two-axis pointing mount and of an airborne target:
//! exact fixed-point kinematics, the telemetry dead-reckoning stage and the
//! line-oriented wire formats that bind them together.
//!
//! All quantities are integers in fixed units, so every result is exact and
//! every contract is stated over mathematical integers.

pub mod clock;
pub mod decimal;
pub mod mount_model;
pub mod mount_protocol;
pub mod target_interpolator;
pub mod target_source;
pub mod telemetry;
pub mod units;
pub mod wire;
