//! The run as delimited text: one row per block and blob.

use crate::models::block::{block_views, BlobVotes, BlobVotesView, Block, BlockView};
use crate::nodes::NodeSet;
use crate::utils::rows::{
    lemma_joined_push, node_string, node_text, visible_votes, vote_label, vote_labels, votes_text,
};
use crate::utils::text::{decimal, decimal_string, joined};
use vstd::prelude::*;

verus! {

/// The first line of the text: the names of the columns.
pub open spec fn csv_header() -> Seq<char> {
    "Block,Proposer(Status),Blob ID,Votes(Status),Honest Votes,Malicious Votes\n"@
}

/// The labels of votes that wait in the buffer: they are honest votes.
pub open spec fn buffered_labels(count: nat) -> Seq<Seq<char>> {
    Seq::new(count, |i: int| vote_label(true))
}

/// What a row shows as votes: the visible votes of the committee and then
/// the buffered ones, separated by semicolons.
pub open spec fn csv_votes(nodes: NodeSet, block: BlockView, entry: BlobVotesView) -> Seq<char> {
    joined(
        vote_labels(nodes, block.selected_nodes, entry.votes, block.selected_nodes.len() as int)
            + buffered_labels(entry.buffered_votes as nat),
        ";"@,
    )
}

/// The row of one block and one blob: the block's height, its proposer with
/// kind, the blob, the votes in quotes, the number of honest votes shown
/// (visible or buffered) and the number of the other visible votes.
pub open spec fn csv_row(nodes: NodeSet, block: BlockView, entry: BlobVotesView) -> Seq<char> {
    let committee = block.selected_nodes;
    decimal(block.number as nat) + ","@ + node_text(nodes, block.proposer) + ","@ + decimal(
        entry.blob_id as nat,
    ) + ",\""@ + csv_votes(nodes, block, entry) + "\","@ + decimal(
        visible_votes(nodes, committee, entry.votes, true, committee.len() as int)
            + entry.buffered_votes as nat,
    ) + ","@ + decimal(visible_votes(nodes, committee, entry.votes, false, committee.len() as int))
        + "\n"@
}

/// The rows of the first `upto` blobs of a block.
pub open spec fn csv_block(nodes: NodeSet, block: BlockView, upto: int) -> Seq<char>
    decreases upto,
{
    if upto <= 0 {
        Seq::empty()
    } else {
        csv_block(nodes, block, upto - 1) + csv_row(nodes, block, block.votes[upto - 1])
    }
}

/// The rows of the first `upto` blocks.
pub open spec fn csv_blocks(nodes: NodeSet, blocks: Seq<BlockView>, upto: int) -> Seq<char>
    decreases upto,
{
    if upto <= 0 {
        Seq::empty()
    } else {
        csv_blocks(nodes, blocks, upto - 1) + csv_block(
            nodes,
            blocks[upto - 1],
            blocks[upto - 1].votes.len() as int,
        )
    }
}

/// The whole text: the header and the rows of all blocks, in order.
pub open spec fn csv_text(nodes: NodeSet, blocks: Seq<BlockView>) -> Seq<char> {
    csv_header() + csv_blocks(nodes, blocks, blocks.len() as int)
}

fn csv_row_string(nodes: &NodeSet, block: &Block, entry: &BlobVotes) -> (row: String)
    ensures
        row@ == csv_row(*nodes, block@, entry@),
{
    let ghost labels = vote_labels(
        *nodes,
        block.selected_nodes@,
        entry.votes@,
        block.selected_nodes.len() as int,
    );
    let (mut votes, honest_count, malicious_count) = votes_text(
        nodes,
        &block.selected_nodes,
        &entry.votes,
        ";",
    );
    let mut b: usize = 0;
    proof {
        assert(labels + buffered_labels(0) =~= labels);
    }
    while b < entry.buffered_votes
        invariant
            b <= entry.buffered_votes,
            votes@ == joined(labels + buffered_labels(b as nat), ";"@),
            labels.len() == honest_count + malicious_count,
            honest_count + malicious_count <= usize::MAX,
        decreases entry.buffered_votes - b,
    {
        proof {
            lemma_joined_push(labels + buffered_labels(b as nat), ";"@, vote_label(true));
            assert((labels + buffered_labels(b as nat)).push(vote_label(true)) =~= labels
                + buffered_labels((b + 1) as nat));
            reveal_strlit("1(honest)");
        }
        if honest_count + malicious_count > 0 || b > 0 {
            votes.append(";");
        }
        votes.append("1(honest)");
        b += 1;
    }
    let mut row = decimal_string(block.number as u128);
    row.append(",");
    row.append(node_string(nodes, block.proposer).as_str());
    row.append(",");
    row.append(decimal_string(entry.blob_id as u128).as_str());
    row.append(",\"");
    row.append(votes.as_str());
    row.append("\",");
    row.append(decimal_string(honest_count + entry.buffered_votes as u128).as_str());
    row.append(",");
    row.append(decimal_string(malicious_count).as_str());
    row.append("\n");
    row
}

fn csv_block_string(nodes: &NodeSet, block: &Block) -> (rows: String)
    ensures
        rows@ == csv_block(*nodes, block@, block@.votes.len() as int),
{
    let mut rows = String::new();
    let mut j: usize = 0;
    while j < block.votes.len()
        invariant
            j <= block.votes.len(),
            rows@ == csv_block(*nodes, block@, j as int),
        decreases block.votes.len() - j,
    {
        let row = csv_row_string(nodes, block, &block.votes[j]);
        rows.append(row.as_str());
        j += 1;
    }
    rows
}

/// Appends the run as delimited text to `writer`: a header, then one row
/// for each block and each blob that the block voted on.
pub fn create_results_csv(blocks: &Vec<Block>, honest_nodes: &NodeSet, writer: &mut String)
    ensures
        final(writer)@ == old(writer)@ + csv_text(*honest_nodes, block_views(blocks@)),
{
    let ghost views = block_views(blocks@);
    let mut text = String::from_str(
        "Block,Proposer(Status),Blob ID,Votes(Status),Honest Votes,Malicious Votes\n",
    );
    let mut i: usize = 0;
    proof {
        assert(text@ =~= csv_header() + csv_blocks(*honest_nodes, views, 0));
    }
    while i < blocks.len()
        invariant
            i <= blocks.len(),
            views == block_views(blocks@),
            text@ == csv_header() + csv_blocks(*honest_nodes, views, i as int),
        decreases blocks.len() - i,
    {
        let rows = csv_block_string(honest_nodes, &blocks[i]);
        text.append(rows.as_str());
        proof {
            assert(views[i as int] == blocks@[i as int]@);
            assert(text@ =~= csv_header() + csv_blocks(*honest_nodes, views, i + 1));
        }
        i += 1;
    }
    writer.append(text.as_str());
}

} // verus!
