//! The outcome of a refinement run, with its counters.
use vstd::prelude::*;
use crate::circle::Circle;

verus! {

/// Counters of a refinement run and the arrangement it ended with.
#[derive(Debug)]
pub struct RalgoResult {
    /// Number of r-algorithm runs.
    pub ralgo_calls: u32,
    /// Outer iterations over all runs.
    pub iterations: u32,
    /// Objective evaluations over all runs.
    pub calcfg_calls: u32,
    /// The enclosing radius, in ticks.
    pub main_circle_radius: i64,
    /// The circles.
    pub circles: Vec<Circle>,
}

impl RalgoResult {
    /// A result with the given counters and arrangement.
    pub fn new(
        ralgo_calls: u32,
        iterations: u32,
        calcfg_calls: u32,
        main_circle_radius: i64,
        circles: Vec<Circle>,
    ) -> (r: Self)
        ensures
            r.ralgo_calls == ralgo_calls,
            r.iterations == iterations,
            r.calcfg_calls == calcfg_calls,
            r.main_circle_radius == main_circle_radius,
            r.circles@ == circles@,
    {
        RalgoResult { ralgo_calls, iterations, calcfg_calls, main_circle_radius, circles }
    }
}

} // verus!
