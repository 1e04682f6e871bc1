//! The record of one simulation step.

use vstd::prelude::*;

verus! {

/// What a block holds about one blob that was pending when it was produced.
#[derive(Debug, Clone, PartialEq, Eq)]
pub struct BlobVotes {
    pub blob_id: usize,
    /// One outcome per committee member, in committee order: `Some(true)`
    /// yes, `Some(false)` no, `None` not visible in the block.
    pub votes: Vec<Option<bool>>,
    /// The honest votes for the blob that wait for an honest proposer once
    /// the block has been produced.
    pub buffered_votes: usize,
}

/// A `BlobVotes` as a mathematical value.
pub struct BlobVotesView {
    pub blob_id: usize,
    pub votes: Seq<Option<bool>>,
    pub buffered_votes: usize,
}

impl View for BlobVotes {
    type V = BlobVotesView;

    open spec fn view(&self) -> BlobVotesView {
        BlobVotesView {
            blob_id: self.blob_id,
            votes: self.votes@,
            buffered_votes: self.buffered_votes,
        }
    }
}

/// One simulation step: who proposed, who was asked to vote, and how the
/// votes on each pending blob came out, in ascending order of the blobs.
#[derive(Debug, Clone, PartialEq, Eq)]
pub struct Block {
    /// The height of the block, counted from 1.
    pub number: usize,
    pub proposer: usize,
    pub selected_nodes: Vec<usize>,
    pub votes: Vec<BlobVotes>,
}

/// A `Block` as a mathematical value.
pub struct BlockView {
    pub number: usize,
    pub proposer: usize,
    pub selected_nodes: Seq<usize>,
    pub votes: Seq<BlobVotesView>,
}

impl View for Block {
    type V = BlockView;

    open spec fn view(&self) -> BlockView {
        BlockView {
            number: self.number,
            proposer: self.proposer,
            selected_nodes: self.selected_nodes@,
            votes: vote_views(self.votes@),
        }
    }
}

/// The entries of a block as mathematical values.
pub open spec fn vote_views(entries: Seq<BlobVotes>) -> Seq<BlobVotesView> {
    Seq::new(entries.len(), |i: int| entries[i]@)
}

/// The blocks of a run as mathematical values.
pub open spec fn block_views(blocks: Seq<Block>) -> Seq<BlockView> {
    Seq::new(blocks.len(), |i: int| blocks[i]@)
}

impl BlockView {
    /// No entry has fewer outcomes than the committee has members.
    pub open spec fn covers_committee(self) -> bool {
        forall|k: int|
            0 <= k < self.votes.len() ==> (#[trigger] self.votes[k]).votes.len()
                >= self.selected_nodes.len()
    }

    /// No entry has more outcomes than the committee has members.
    pub open spec fn within_committee(self) -> bool {
        forall|k: int|
            0 <= k < self.votes.len() ==> (#[trigger] self.votes[k]).votes.len()
                <= self.selected_nodes.len()
    }

    /// The entries stand in ascending order of their blobs, so that no blob
    /// has two entries.
    pub open spec fn ascending_blobs(self) -> bool {
        forall|a: int, b: int|
            0 <= a < b < self.votes.len() ==> self.votes[a].blob_id < self.votes[b].blob_id
    }

    /// The block holds one entry per blob that it voted on, and in each
    /// entry one outcome per committee member.
    pub open spec fn wf(self) -> bool {
        &&& self.covers_committee()
        &&& self.within_committee()
        &&& self.ascending_blobs()
    }
}

/// Every block has, in every entry, an outcome for each committee member.
pub open spec fn cover_committees(blocks: Seq<BlockView>) -> bool {
    forall|i: int| 0 <= i < blocks.len() ==> (#[trigger] blocks[i]).covers_committee()
}

/// No block has, in any entry, more outcomes than committee members.
pub open spec fn within_committees(blocks: Seq<BlockView>) -> bool {
    forall|i: int| 0 <= i < blocks.len() ==> (#[trigger] blocks[i]).within_committee()
}

impl Block {
    /// Whether no entry has fewer outcomes than the committee has members.
    pub fn covers_committee(&self) -> (b: bool)
        ensures
            b == self@.covers_committee(),
    {
        let mut k: usize = 0;
        while k < self.votes.len()
            invariant
                k <= self.votes.len(),
                forall|j: int|
                    0 <= j < k ==> (#[trigger] self@.votes[j]).votes.len()
                        >= self.selected_nodes.len(),
            decreases self.votes.len() - k,
        {
            if self.votes[k].votes.len() < self.selected_nodes.len() {
                assert(self@.votes[k as int].votes.len() < self.selected_nodes.len());
                return false;
            }
            k += 1;
        }
        true
    }

    /// Whether no entry has more outcomes than the committee has members.
    pub fn within_committee(&self) -> (b: bool)
        ensures
            b == self@.within_committee(),
    {
        let mut k: usize = 0;
        while k < self.votes.len()
            invariant
                k <= self.votes.len(),
                forall|j: int|
                    0 <= j < k ==> (#[trigger] self@.votes[j]).votes.len()
                        <= self.selected_nodes.len(),
            decreases self.votes.len() - k,
        {
            if self.votes[k].votes.len() > self.selected_nodes.len() {
                assert(self@.votes[k as int].votes.len() > self.selected_nodes.len());
                return false;
            }
            k += 1;
        }
        true
    }
}

/// Whether every block has, in every entry, an outcome for each committee
/// member.
pub fn blocks_cover_committees(blocks: &Vec<Block>) -> (b: bool)
    ensures
        b == cover_committees(block_views(blocks@)),
{
    let mut i: usize = 0;
    while i < blocks.len()
        invariant
            i <= blocks.len(),
            forall|j: int| 0 <= j < i ==> (#[trigger] block_views(blocks@)[j]).covers_committee(),
        decreases blocks.len() - i,
    {
        if !blocks[i].covers_committee() {
            assert(!block_views(blocks@)[i as int].covers_committee());
            return false;
        }
        i += 1;
    }
    true
}

/// Whether no block has, in any entry, more outcomes than committee
/// members.
pub fn blocks_within_committees(blocks: &Vec<Block>) -> (b: bool)
    ensures
        b == within_committees(block_views(blocks@)),
{
    let mut i: usize = 0;
    while i < blocks.len()
        invariant
            i <= blocks.len(),
            forall|j: int| 0 <= j < i ==> (#[trigger] block_views(blocks@)[j]).within_committee(),
        decreases blocks.len() - i,
    {
        if !blocks[i].within_committee() {
            assert(!block_views(blocks@)[i as int].within_committee());
            return false;
        }
        i += 1;
    }
    true
}

} // verus!
