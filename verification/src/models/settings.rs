//! The configuration of a run.

use crate::error::SimError;
use vstd::prelude::*;

verus! {

/// The parameters of a run, as the settings source gives them.
#[derive(Debug, Clone, Copy)]
pub struct Settings {
    pub total_nodes: usize,
    pub malicious_nodes: usize,
    /// The committee size.
    pub nodes_per_block: usize,
    pub confirmation_depth: usize,
    /// Read from the settings source; no scenario of this library uses it.
    pub malicious_power_block: usize,
    pub total_blocks: usize,
    pub reliable_nodes: usize,
    /// The number of final blocks during which data is withheld.
    pub k_f: usize,
    pub smart_withholding_threshold: usize,
    pub random_seed: u64,
}

impl Settings {
    /// The counts fit together: the malicious nodes are among the nodes, the
    /// reliable ones among the honest, a committee has a member, a blob needs
    /// at least one block to confirm, the votes of a whole run can be counted
    /// in a machine word, and the node identities fit 32 bits, which is as
    /// far as the generator draws without reserve. A run may be shorter than the confirmation
    /// depth: it then confirms nothing. A committee larger than the node set
    /// is no fault of the configuration: it makes the sampling fail.
    pub open spec fn consistent(&self) -> bool {
        &&& self.malicious_nodes <= self.total_nodes
        &&& self.reliable_nodes <= self.total_nodes - self.malicious_nodes
        &&& self.nodes_per_block >= 1
        &&& self.confirmation_depth >= 1
        &&& self.nodes_per_block * self.total_blocks <= usize::MAX
        &&& self.total_nodes <= u32::MAX
    }

    /// The first block at which data is withheld: the attack covers the last
    /// `k_f` blocks, and the whole run where `k_f` exceeds its length.
    pub open spec fn activation(&self) -> nat {
        if self.k_f <= self.total_blocks {
            (self.total_blocks - self.k_f) as nat
        } else {
            0
        }
    }

    /// Accepts the configuration where its counts fit together.
    pub fn validate(&self) -> (r: Result<(), SimError>)
        ensures
            r is Ok <==> self.consistent(),
            r is Err ==> r == Err::<(), SimError>(SimError::ConfigError),
    {
        if self.malicious_nodes > self.total_nodes {
            return Err(SimError::ConfigError);
        }
        if self.reliable_nodes > self.total_nodes - self.malicious_nodes {
            return Err(SimError::ConfigError);
        }
        if self.nodes_per_block == 0 || self.confirmation_depth == 0 {
            return Err(SimError::ConfigError);
        }
        if self.total_nodes > 0xFFFF_FFFF {
            return Err(SimError::ConfigError);
        }
        match self.nodes_per_block.checked_mul(self.total_blocks) {
            Some(_) => Ok(()),
            None => Err(SimError::ConfigError),
        }
    }

    /// The first block at which data is withheld.
    pub fn activation_height(&self) -> (h: usize)
        ensures
            h == self.activation(),
    {
        if self.k_f <= self.total_blocks {
            self.total_blocks - self.k_f
        } else {
            0
        }
    }
}

} // verus!
