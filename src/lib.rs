//! A spring-graph particle simulation whose kinetic state drives a bank of
//! oscillators, with a non-blocking command path from the control loop to the
//! audio callback.
//!
//! All quantities are integers. Positions and velocities are in the caller's
//! sub-pixel units; fractions in `[0, 1]` are written in parts per thousand;
//! frequencies are in millihertz; amplitudes in parts per million; phases are
//! exact fractions of a cycle.
pub mod geometry;
pub mod point;
pub mod ids;
pub mod graph;
pub mod linking;
pub mod pruning;
pub mod dynamics;
pub mod tick;
pub mod voice;
pub mod commands;
pub mod transport;
pub mod audio;
pub mod sound;
pub mod fm;
pub mod control;
pub mod devices;
