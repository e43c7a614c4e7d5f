//! Tuning constants of the r-algorithm.
use vstd::prelude::*;

verus! {

/// Tuning constants of the r-algorithm, in fixed point.
#[derive(Clone, Copy, Debug, PartialEq, Eq, Structural)]
pub struct RalgoParams {
    /// Space dilation factor, in thousandths (3000 stands for 3.0).
    pub alpha: u32,
    /// Factor applied to the step after a line search of one step, in
    /// thousandths (900 stands for 0.9).
    pub q1: u32,
    /// The run stops when a line search travels less than this, in ticks.
    pub epsx: i64,
    /// The run stops when the gradient norm falls below this, in gradient ticks.
    pub epsg: i128,
    /// Largest number of outer iterations.
    pub max_iterations: usize,
}

impl RalgoParams {
    /// Sets the space dilation factor, in thousandths.
    pub fn with_alpha(&self, alpha: u32) -> (r: Self)
        ensures
            r == (RalgoParams { alpha, ..*self }),
    {
        RalgoParams { alpha, ..*self }
    }

    /// Sets the step decay factor, in thousandths.
    pub fn with_q1(&self, q1: u32) -> (r: Self)
        ensures
            r == (RalgoParams { q1, ..*self }),
    {
        RalgoParams { q1, ..*self }
    }

    /// Sets the iteration cap.
    pub fn with_max_iterations(&self, max_iterations: usize) -> (r: Self)
        ensures
            r == (RalgoParams { max_iterations, ..*self }),
    {
        RalgoParams { max_iterations, ..*self }
    }

    /// Sets the travel threshold, in ticks.
    pub fn with_epsx(&self, epsx: i64) -> (r: Self)
        ensures
            r == (RalgoParams { epsx, ..*self }),
    {
        RalgoParams { epsx, ..*self }
    }

    /// Sets the gradient norm threshold, in gradient ticks.
    pub fn with_epsg(&self, epsg: i128) -> (r: Self)
        ensures
            r == (RalgoParams { epsg, ..*self }),
    {
        RalgoParams { epsg, ..*self }
    }
}

impl Default for RalgoParams {
    /// Dilation 3.0, step decay 0.9, travel threshold one tick, gradient
    /// threshold one gradient tick, 3000 iterations.
    fn default() -> (r: Self)
        ensures
            r == (RalgoParams { alpha: 3000, q1: 900, epsx: 1, epsg: 1, max_iterations: 3000 }),
    {
        RalgoParams { alpha: 3000, q1: 900, epsx: 1, epsg: 1, max_iterations: 3000 }
    }
}

} // verus!
