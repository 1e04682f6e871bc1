//! One unit of proposed data and its tallies.

use crate::nodes::NodeKind;
use vstd::prelude::*;

verus! {

/// A blob: created by one block, voted on while pending, frozen once
/// confirmed.
#[derive(Debug, Clone, Copy, PartialEq, Eq, Structural)]
pub struct Blob {
    /// Dense identifier, assigned in creation order from 0.
    pub id: usize,
    /// The number of blocks that stood before the one that created the blob.
    pub creation_height: usize,
    pub votes_honest: usize,
    pub votes_malicious: usize,
    pub is_confirmed: bool,
    /// The proposer of the block that created the blob.
    pub proposer: usize,
    pub proposer_status: NodeKind,
}

impl Blob {
    /// A fresh blob with empty tallies, credited to an honest proposer 0.
    pub fn new(id: usize) -> (blob: Self)
        ensures
            blob == (Blob {
                id,
                creation_height: id,
                votes_honest: 0,
                votes_malicious: 0,
                is_confirmed: false,
                proposer: 0,
                proposer_status: NodeKind::Honest,
            }),
    {
        Self {
            id,
            creation_height: id,
            votes_honest: 0,
            votes_malicious: 0,
            is_confirmed: false,
            proposer: 0,
            proposer_status: NodeKind::Honest,
        }
    }

    /// A fresh blob with empty tallies, created by a block of `proposer`.
    pub fn proposed_by(id: usize, proposer: usize, status: NodeKind) -> (blob: Self)
        ensures
            blob == (Blob { proposer, proposer_status: status, ..Blob::new_spec(id) }),
    {
        Self {
            id,
            creation_height: id,
            votes_honest: 0,
            votes_malicious: 0,
            is_confirmed: false,
            proposer,
            proposer_status: status,
        }
    }

    /// What `new` builds.
    pub open spec fn new_spec(id: usize) -> Blob {
        Blob {
            id,
            creation_height: id,
            votes_honest: 0,
            votes_malicious: 0,
            is_confirmed: false,
            proposer: 0,
            proposer_status: NodeKind::Honest,
        }
    }

    /// All votes counted for the blob.
    pub open spec fn total_votes(&self) -> nat {
        (self.votes_honest + self.votes_malicious) as nat
    }
}

} // verus!
