//! Settings of the searches.

use vstd::prelude::*;

verus! {

/// Settings shared by every search.
#[derive(Debug, Clone, Copy)]
pub struct CommonSearchConfig {
    /// Number of players.
    pub players: usize,
    /// Random seed.
    pub seed: u64,
    /// Maximum number of steps (actions, or depth).
    pub steps: usize,
    /// Time limit in seconds.
    pub time_limit: u64,
    /// Whether to report progress.
    pub verbose: bool,
}

/// Settings of the beam search.
#[derive(Debug, Clone, Copy)]
pub struct BeamConfig {
    /// Number of states kept per step.
    pub beam_width: usize,
}

/// Settings of the rolling-horizon evolutionary search.
#[derive(Debug, Clone, Copy)]
pub struct RHEAConfigParams {
    /// Length of the evolved plans.
    pub rhea_horizon: usize,
    /// Generations evolved per step.
    pub rhea_generations: usize,
    /// Plans per generation.
    pub rhea_population: usize,
}

/// A complete beam-search run.
pub struct BeamSearchConfig {
    pub players: usize,
    pub seed: u64,
    pub width: usize,
    pub steps: usize,
    pub time_limit: u64,
    pub verbose: bool,
}

/// A complete rolling-horizon evolutionary run.
pub struct RHEAConfig {
    pub players: usize,
    pub seed: u64,
    pub horizon: usize,
    pub generations: usize,
    pub population_size: usize,
    pub max_steps: usize,
    pub time_limit: u64,
    pub verbose: bool,
}

impl Default for CommonSearchConfig {
    /// Six players, seed 12345, 3000 steps, five minutes, quiet.
    fn default() -> (r: Self)
        ensures
            r.players == 6,
            r.seed == 12345,
            r.steps == 3000,
            r.time_limit == 300,
            !r.verbose,
    {
        CommonSearchConfig { players: 6, seed: 12345, steps: 3000, time_limit: 300, verbose: false }
    }
}

impl Default for BeamConfig {
    /// A beam of 300 states.
    fn default() -> (r: Self)
        ensures
            r.beam_width == 300,
    {
        BeamConfig { beam_width: 300 }
    }
}

impl Default for RHEAConfigParams {
    /// Horizon 30, 10 generations per step, 20 plans.
    fn default() -> (r: Self)
        ensures
            r.rhea_horizon == 30,
            r.rhea_generations == 10,
            r.rhea_population == 20,
    {
        RHEAConfigParams { rhea_horizon: 30, rhea_generations: 10, rhea_population: 20 }
    }
}

} // verus!
