//! A toroidal grid of thermal cells that diffuse and decay heat, inhabited by
//! agents that emit heat and climb toward a comfortable temperature band.
//!
//! Temperatures are fixed-point integers: `TEMP_SCALE` units make one degree.
//! Coefficients are fractions over `COEF_DENOM`.

pub mod config;
pub mod grid;
pub mod diffusion;
pub mod agents;
pub mod simulation;
