//! The baseline scenario: every member votes and every vote counts.

use crate::driver::{is_run_of, simulate, Simulation};
use crate::error::SimError;
use crate::models::settings::Settings;
use crate::strategy::Strategy;
use vstd::prelude::*;

verus! {

/// The strategy of this scenario for a configuration.
pub open spec fn strategy_of(config: Settings) -> Strategy {
    Strategy::Baseline
}

/// Runs the simulation of `config` in this scenario.
pub fn run(config: &Settings) -> (r: Result<Simulation, SimError>)
    ensures
        is_run_of(*config, strategy_of(*config), r),
{
    simulate(*config, Strategy::Baseline)
}

} // verus!
