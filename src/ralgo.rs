//! Refinement of a packing by Shor's r-algorithm on an exact penalty function.
//!
//! A configuration of `n` circles is a vector of `2n + 1` integers: the x
//! coordinates, the y coordinates, then the enclosing radius, all in ticks.
pub mod calcfg;
pub mod dichotomy_step_ralgo;
mod linalg;
pub mod ralgo;
pub mod ralgo_params;
pub mod ralgo_result;
pub mod utils;
