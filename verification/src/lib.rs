//! Procedural room layout by relaxation: rooms spawn at random positions
//! inside a disk and a discrete-time repulsion simulation pushes overlapping
//! rooms apart until no two overlap, at which point the layout is settled.
//!
//! All kinematic quantities are fixed-point numbers: an `i64` counts raw
//! units of `1/SCALE` of a world unit. This keeps every computation exact
//! and checkable; the presentation layer converts at its edge.

pub mod components;
pub mod config;
pub mod driver;
pub mod fixed;
pub mod integration;
pub mod separation;
pub mod settlement;
pub mod spawn;
