use vstd::prelude::*;
use crate::grid::MAX_TEMP;

verus! {

/// Temperature units per degree.
pub const TEMP_SCALE: i64 = 1000;

/// Denominator of the decay and diffusion coefficients.
pub const COEF_DENOM: i64 = 1000;

/// Largest number of agents that a tick accepts.
pub const MAX_AGENTS: usize = 1_048_576;

/// The fixed constants of a run. Temperatures are in units of
/// `1 / TEMP_SCALE` degree; `decay` and `diffusion` are fractions over
/// `COEF_DENOM`.
#[derive(Clone, Copy, Debug, PartialEq, Eq)]
pub struct Config {
    pub decay: i64,
    pub diffusion: i64,
    pub bug_heat: i64,
    pub bug_min: i64,
    pub bug_max: i64,
}

impl Config {
    pub open spec fn wf(&self) -> bool {
        &&& 0 <= self.decay <= COEF_DENOM
        &&& 0 <= self.diffusion <= COEF_DENOM
        &&& -MAX_TEMP <= self.bug_heat <= MAX_TEMP
    }

    /// The reference constants: decay 0.01, diffusion 0.1, heat 2.5 per agent
    /// and tick, comfort band `[10, 15]` degrees.
    pub fn standard() -> (r: Config)
        ensures
            r.wf(),
            r.decay == 10,
            r.diffusion == 100,
            r.bug_heat == 2500,
            r.bug_min == 10000,
            r.bug_max == 15000,
    {
        Config {
            decay: 10,
            diffusion: 100,
            bug_heat: 5 * TEMP_SCALE / 2,
            bug_min: 10 * TEMP_SCALE,
            bug_max: 15 * TEMP_SCALE,
        }
    }
}

} // verus!
