//! Escape-time fractal renderer over fixed-point plane coordinates.
//!
//! Every plane coordinate is a signed 64-bit fixed-point number with 32
//! fraction bits, so the whole numeric pipeline — complex arithmetic, the
//! escape-time trace, the pixel-to-plane mapping and the row renderer — is
//! plain integer arithmetic with exact contracts.

pub mod complex;
pub mod config;
pub mod fix;
pub mod lut;
pub mod render;
pub mod text;
