//! The static partition of the node identities into honest and malicious.

use crate::error::SimError;
use vstd::prelude::*;

verus! {

/// How a node behaves for the whole run.
#[derive(Debug, Clone, Copy, PartialEq, Eq, Structural)]
pub enum NodeKind {
    Honest,
    Malicious,
}

/// The identities `0..total`, of which the last `malicious` are malicious
/// and the others honest.
#[derive(Debug, Clone, Copy)]
pub struct NodeSet {
    total: usize,
    malicious: usize,
}

impl NodeSet {
    /// The number of identities.
    pub closed spec fn total_nodes(&self) -> nat {
        self.total as nat
    }

    /// The number of malicious identities.
    pub closed spec fn malicious_nodes(&self) -> nat {
        self.malicious as nat
    }

    /// The partition of `total` identities of which the last `malicious`
    /// are malicious.
    pub closed spec fn of(total: usize, malicious: usize) -> NodeSet {
        NodeSet { total, malicious }
    }

    /// `id` lies in the honest range `[0, total - malicious)`.
    pub open spec fn honest(&self, id: int) -> bool {
        0 <= id < self.total_nodes() - self.malicious_nodes()
    }

    /// `id` lies in the malicious range `[total - malicious, total)`.
    pub open spec fn malicious(&self, id: int) -> bool {
        0 <= id && self.total_nodes() - self.malicious_nodes() <= id < self.total_nodes()
    }

    /// The classification that the voting strategies go by: whoever is not
    /// honest is treated as malicious.
    pub open spec fn kind_of(&self, id: int) -> NodeKind {
        if self.honest(id) {
            NodeKind::Honest
        } else {
            NodeKind::Malicious
        }
    }

    /// The partition of `total` identities with `malicious` malicious ones.
    pub fn new(total: usize, malicious: usize) -> (r: Result<NodeSet, SimError>)
        ensures
            malicious > total ==> r == Err::<NodeSet, SimError>(SimError::ConfigError),
            malicious <= total ==> r == Ok::<NodeSet, SimError>(NodeSet::of(total, malicious)),
            r matches Ok(nodes) ==> nodes.total_nodes() == total && nodes.malicious_nodes()
                == malicious,
    {
        if malicious > total {
            Err(SimError::ConfigError)
        } else {
            Ok(NodeSet { total, malicious })
        }
    }

    /// The number of identities.
    pub fn total(&self) -> (n: usize)
        ensures
            n == self.total_nodes(),
    {
        self.total
    }

    /// The number of malicious identities.
    pub fn malicious_count(&self) -> (n: usize)
        ensures
            n == self.malicious_nodes(),
    {
        self.malicious
    }

    /// Whether `id` lies in the honest range.
    pub fn is_honest(&self, id: usize) -> (b: bool)
        ensures
            b == self.honest(id as int),
    {
        id < self.total && self.total - id > self.malicious
    }

    /// Whether `id` lies in the malicious range.
    pub fn is_malicious(&self, id: usize) -> (b: bool)
        ensures
            b == self.malicious(id as int),
    {
        id < self.total && self.total - id <= self.malicious
    }

    /// The kind that the voting strategies treat `id` as.
    pub fn kind(&self, id: usize) -> (k: NodeKind)
        ensures
            k == self.kind_of(id as int),
    {
        if self.is_honest(id) {
            NodeKind::Honest
        } else {
            NodeKind::Malicious
        }
    }
}

/// The partition made of two counts has these counts.
pub proof fn law_counts(total: usize, malicious: usize)
    ensures
        NodeSet::of(total, malicious).total_nodes() == total,
        NodeSet::of(total, malicious).malicious_nodes() == malicious,
{
}

/// Every identity below the total is honest or malicious, and none is both.
pub proof fn law_partition(nodes: NodeSet, id: int)
    requires
        nodes.malicious_nodes() <= nodes.total_nodes(),
    ensures
        !(nodes.honest(id) && nodes.malicious(id)),
        0 <= id < nodes.total_nodes() <==> nodes.honest(id) || nodes.malicious(id),
{
}

} // verus!
