//! Core of a sparse-strip renderer: strip emission, gamma correction of
//! coverage, and the two-texture slot scheduler with its strip encoding.

pub mod coarse;
pub mod filter;
pub mod gamma;
pub mod gamma_luts;
pub mod render;
pub mod scene;
pub mod schedule;
pub mod schedule_clears;
pub mod schedule_laws;
pub mod schedule_model;
pub mod schedule_order;
pub mod strip;
pub mod tile;
