//! A discrete-time predator/prey simulation on a bounded grid: mice forage,
//! flee and breed; owls hunt mice.  The per-tick engine (movement decisions,
//! occupancy conflict resolution, breeding, births and death bookkeeping) is
//! verified; rendering, configuration files and pacing live outside the crate.

pub mod animal;
pub mod board;
pub mod config;
pub mod decision;
pub mod grid;
pub mod ids;
pub mod population;
pub mod rng;
pub mod simulation;
