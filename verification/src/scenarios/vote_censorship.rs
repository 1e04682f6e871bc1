//! The censorship scenario: malicious proposers keep honest votes out of
//! their blocks.

use crate::driver::{
    is_run_of, nodes_of, simulate, votes_cast_by, waiting_blobs, Simulation,
};
use crate::error::SimError;
use crate::models::settings::Settings;
use crate::strategy::Strategy;
use vstd::prelude::*;

verus! {

/// The strategy of this scenario for a configuration.
pub open spec fn strategy_of(config: Settings) -> Strategy {
    Strategy::VoteCensorship
}

/// What a run of this scenario reports besides its records.
#[derive(Debug, Clone, Copy, PartialEq, Eq, Structural)]
pub struct Totals {
    /// The votes that honest members have cast, let through or not.
    pub honest_votes: u128,
    /// The votes that the other members have cast.
    pub malicious_votes: u128,
    /// The blobs that still have honest votes waiting in the buffer.
    pub waiting_blobs: usize,
}

/// The totals of a finished run.
pub open spec fn totals_of(sim: Simulation) -> Totals {
    Totals {
        honest_votes: votes_cast_by(
            nodes_of(sim.settings()),
            sim@.blocks,
            true,
            sim@.height() as int,
        ) as u128,
        malicious_votes: votes_cast_by(
            nodes_of(sim.settings()),
            sim@.blocks,
            false,
            sim@.height() as int,
        ) as u128,
        waiting_blobs: waiting_blobs(sim@.buffer, sim@.buffer.len() as int) as usize,
    }
}

/// Runs the simulation of `config` in this scenario.
pub fn run(config: &Settings) -> (r: Result<Simulation, SimError>)
    ensures
        is_run_of(*config, strategy_of(*config), r),
{
    simulate(*config, Strategy::VoteCensorship)
}

/// Runs the simulation of `config` in this scenario and counts the votes
/// cast and the blobs that still wait for votes.
pub fn run_with_totals(config: &Settings) -> (r: Result<(Simulation, Totals), SimError>)
    ensures
        match r {
            Ok((sim, totals)) => is_run_of(
                *config,
                strategy_of(*config),
                Ok::<Simulation, SimError>(sim),
            ) && totals == totals_of(sim),
            Err(e) => is_run_of(*config, strategy_of(*config), Err::<Simulation, SimError>(e)),
        },
{
    match run(config) {
        Ok(sim) => {
            let (honest_votes, malicious_votes) = sim.votes_cast_totals();
            let totals = Totals { honest_votes, malicious_votes, waiting_blobs: sim.waiting_blobs() };
            Ok((sim, totals))
        },
        Err(e) => Err(e),
    }
}

} // verus!
