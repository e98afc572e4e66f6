//! Procedural map generation: a fixed pipeline of verified stages (noise,
//! elevation, landmass shaping, region partitioning, rivers, natural wonders,
//! resources) over a shared tile grid, plus a small toast-notification state
//! model. All quantities are integer fixed point: fractions are per-mille
//! (a value of 1000 stands for 1.0) and elevations lie in [0, 2000], where
//! 1000 stands for the zero level of the underlying noise field.

pub mod config;
pub mod rng;
pub mod noise;
pub mod grid;
pub mod elevation;
pub mod landmass;
pub mod regions;
pub mod rivers;
pub mod wonders;
pub mod resources;
pub mod generator;
pub mod toast;
