//! Reports on a finished run: tables of the votes per block and blob, per
//! block, and per blob.

pub mod csv_writer;
pub mod rows;
pub mod text;

use crate::models::blob::Blob;
use crate::models::block::{
    block_views, cover_committees, within_committees, BlobVotesView, Block, BlockView,
};
use crate::nodes::NodeSet;
use crate::utils::rows::{
    lemma_vote_labels, node_string, node_text, outcome, visible_votes, vote_labels, votes_text,
};
use crate::utils::text::{
    decimal, decimal_string, flag_str, flag_text, joined, kind_str, kind_text, kind_title,
    kind_title_str,
    lemma_decimal_printable, lemma_joined_printable, printable,
};
use prettytable::format::consts::FORMAT_BOX_CHARS;
use prettytable::{Cell, Row, Table};
use vstd::prelude::*;

verus! {

/// `Table` of `prettytable`: rows of cells of text, and a format to print
/// them with.
#[verifier::external_type_specification]
#[verifier::external_body]
pub struct ExTable(Table);

/// The rows of a table, each as the texts of its cells.
pub uninterp spec fn table_rows(table: Table) -> Seq<Seq<Seq<char>>>;

/// Whether a table has the format `FORMAT_BOX_CHARS` of `prettytable`:
/// borders and separators made of box characters.
pub uninterp spec fn table_boxed(table: Table) -> bool;

/// Whether a table has no titles and every cell of it is equal to what
/// `Cell::new` of `prettytable` makes of the cell's own text: aligned to the
/// left, without style, one column wide.
pub uninterp spec fn table_simple(table: Table) -> bool;

/// The text that a table is printed as.
pub uninterp spec fn table_text(table: Table) -> Seq<char>;

/// The text that a table with the format `FORMAT_BOX_CHARS`, without
/// titles and with cells as `Cell::new` makes them is printed as, given the
/// texts of its rows.
pub uninterp spec fn boxed_text(rows: Seq<Seq<Seq<char>>>) -> Seq<char>;

/// The texts of a row of cells.
pub open spec fn cell_texts(cells: Seq<String>) -> Seq<Seq<char>> {
    Seq::new(cells.len(), |j: int| cells[j]@)
}

/// Calls `Table::new` of `prettytable`. Trusted: the new table has no row
/// and no titles.
#[verifier::external_body]
fn new_table() -> (table: Table)
    ensures
        table_rows(table) == Seq::<Seq<Seq<char>>>::empty(),
        table_simple(table),
{
    Table::new()
}

/// Calls `Table::set_format` of `prettytable` with its format
/// `FORMAT_BOX_CHARS`. Trusted: the table then has this format, and its rows
/// and titles stay as they are.
#[verifier::external_body]
fn set_box_format(table: &mut Table)
    ensures
        table_boxed(*final(table)),
        table_rows(*final(table)) == table_rows(*old(table)),
        table_simple(*final(table)) == table_simple(*old(table)),
{
    table.set_format(*FORMAT_BOX_CHARS);
}

/// Calls `Table::add_row` of `prettytable` with a `Row` of one `Cell` per
/// text. Trusted: the table has this row after its former rows, a cell made
/// of a text of printable ASCII characters holds that text, and the format
/// stays as it is. Other texts are left out: a line break is not kept, and
/// on an unfinished escape sequence the width computation of `Cell::new` can
/// fail.
#[verifier::external_body]
fn add_row(table: &mut Table, cells: &Vec<String>)
    requires
        forall|j: int| 0 <= j < cells.len() ==> printable(#[trigger] cells@[j]@),
    ensures
        table_rows(*final(table)) == table_rows(*old(table)).push(cell_texts(cells@)),
        table_boxed(*final(table)) == table_boxed(*old(table)),
        table_simple(*final(table)) == table_simple(*old(table)),
{
    table.add_row(Row::new(cells.iter().map(|text| Cell::new(text)).collect()));
}

/// Calls `to_string` of `prettytable`'s `Table`. Trusted: the text depends
/// on the table alone; for a table with the box format, without titles and
/// with cells as `Cell::new` makes them, it depends on the texts of the rows
/// alone.
#[verifier::external_body]
fn table_string(table: &Table) -> (text: String)
    ensures
        text@ == table_text(*table),
        table_boxed(*table) && table_simple(*table) ==> text@ == boxed_text(table_rows(*table)),
{
    table.to_string()
}

/// Appends to `writer` the text that `table` is printed as. For the tables
/// that this library makes, the text is that of their rows in the box
/// format.
pub fn write_table_buffered(table: &Table, writer: &mut String)
    ensures
        final(writer)@ == old(writer)@ + table_text(*table),
        table_boxed(*table) && table_simple(*table) ==> final(writer)@ == old(writer)@
            + boxed_text(table_rows(*table)),
{
    let text = table_string(table);
    writer.append(text.as_str());
}

/// The titles of the table of votes per block and blob.
pub open spec fn results_header() -> Seq<Seq<char>> {
    seq![
        "Block"@,
        "Proposer(Status)"@,
        "Blob ID"@,
        "Votes(Status)"@,
        "Honest Votes"@,
        "Malicious Votes"@,
    ]
}

/// The row of one block and one blob: the block's height, its proposer with
/// kind, the blob, the visible votes of the committee, and how many of them
/// come from honest members and how many from the others.
pub open spec fn results_row(nodes: NodeSet, block: BlockView, entry: BlobVotesView)
    -> Seq<Seq<char>> {
    let committee = block.selected_nodes;
    seq![
        decimal(block.number as nat),
        node_text(nodes, block.proposer),
        decimal(entry.blob_id as nat),
        joined(vote_labels(nodes, committee, entry.votes, committee.len() as int), ", "@),
        decimal(visible_votes(nodes, committee, entry.votes, true, committee.len() as int)),
        decimal(visible_votes(nodes, committee, entry.votes, false, committee.len() as int)),
    ]
}

/// The rows of the first `upto` blobs of a block.
pub open spec fn results_block_rows(nodes: NodeSet, block: BlockView, upto: int)
    -> Seq<Seq<Seq<char>>>
    decreases upto,
{
    if upto <= 0 {
        Seq::empty()
    } else {
        results_block_rows(nodes, block, upto - 1).push(
            results_row(nodes, block, block.votes[upto - 1]),
        )
    }
}

/// The rows of the first `upto` blocks.
pub open spec fn results_rows(nodes: NodeSet, blocks: Seq<BlockView>, upto: int)
    -> Seq<Seq<Seq<char>>>
    decreases upto,
{
    if upto <= 0 {
        Seq::empty()
    } else {
        results_rows(nodes, blocks, upto - 1) + results_block_rows(
            nodes,
            blocks[upto - 1],
            blocks[upto - 1].votes.len() as int,
        )
    }
}

fn add_results_rows(table: &mut Table, nodes: &NodeSet, block: &Block)
    ensures
        table_boxed(*final(table)) == table_boxed(*old(table)),
        table_simple(*final(table)) == table_simple(*old(table)),
        table_rows(*final(table)) == table_rows(*old(table)) + results_block_rows(
            *nodes,
            block@,
            block@.votes.len() as int,
        ),
{
    let mut j: usize = 0;
    proof {
        assert(table_rows(*table) =~= table_rows(*old(table)) + results_block_rows(
            *nodes,
            block@,
            0,
        ));
    }
    while j < block.votes.len()
        invariant
            j <= block.votes.len(),
            table_boxed(*table) == table_boxed(*old(table)),
            table_simple(*table) == table_simple(*old(table)),
            table_rows(*table) == table_rows(*old(table)) + results_block_rows(
                *nodes,
                block@,
                j as int,
            ),
        decreases block.votes.len() - j,
    {
        let entry = &block.votes[j];
        let (votes, honest_count, malicious_count) = votes_text(
            nodes,
            &block.selected_nodes,
            &entry.votes,
            ", ",
        );
        let mut cells: Vec<String> = Vec::new();
        cells.push(decimal_string(block.number as u128));
        cells.push(node_string(nodes, block.proposer));
        cells.push(decimal_string(entry.blob_id as u128));
        cells.push(votes);
        cells.push(decimal_string(honest_count));
        cells.push(decimal_string(malicious_count));
        proof {
            reveal_strlit(", ");
            lemma_decimal_printable(block.number as nat);
            lemma_decimal_printable(entry.blob_id as nat);
            lemma_decimal_printable(honest_count as nat);
            lemma_decimal_printable(malicious_count as nat);
            lemma_vote_labels(
                *nodes,
                block.selected_nodes@,
                entry.votes@,
                block.selected_nodes.len() as int,
            );
            lemma_joined_printable(
                vote_labels(
                    *nodes,
                    block.selected_nodes@,
                    entry.votes@,
                    block.selected_nodes.len() as int,
                ),
                ", "@,
            );
            assert(cell_texts(cells@) =~= results_row(*nodes, block@, entry@));
            assert(block@.votes[j as int] == entry@);
        }
        add_row(table, &cells);
        proof {
            assert(table_rows(*table) =~= table_rows(*old(table)) + results_block_rows(
                *nodes,
                block@,
                j + 1,
            ));
        }
        j += 1;
    }
}

/// The table of votes per block and blob: the titles, then one row for each
/// block and each blob that the block voted on. Every entry must hold an
/// outcome for each member of its block's committee.
pub fn create_results_table(blocks: &Vec<Block>, honest_nodes: &NodeSet) -> (table: Table)
    requires
        cover_committees(block_views(blocks@)),
    ensures
        table_boxed(table),
        table_simple(table),
        table_rows(table) == seq![results_header()] + results_rows(
            *honest_nodes,
            block_views(blocks@),
            blocks.len() as int,
        ),
{
    let ghost views = block_views(blocks@);
    let mut table = new_table();
    set_box_format(&mut table);
    let mut titles: Vec<String> = Vec::new();
    titles.push(String::from_str("Block"));
    titles.push(String::from_str("Proposer(Status)"));
    titles.push(String::from_str("Blob ID"));
    titles.push(String::from_str("Votes(Status)"));
    titles.push(String::from_str("Honest Votes"));
    titles.push(String::from_str("Malicious Votes"));
    proof {
        reveal_strlit("Block");
        reveal_strlit("Proposer(Status)");
        reveal_strlit("Blob ID");
        reveal_strlit("Votes(Status)");
        reveal_strlit("Honest Votes");
        reveal_strlit("Malicious Votes");
        assert(cell_texts(titles@) =~= results_header());
    }
    add_row(&mut table, &titles);
    let mut i: usize = 0;
    proof {
        assert(table_rows(table) =~= seq![results_header()] + results_rows(
            *honest_nodes,
            views,
            0,
        ));
    }
    while i < blocks.len()
        invariant
            i <= blocks.len(),
            views == block_views(blocks@),
            table_boxed(table),
            table_simple(table),
            table_rows(table) == seq![results_header()] + results_rows(
                *honest_nodes,
                views,
                i as int,
            ),
        decreases blocks.len() - i,
    {
        add_results_rows(&mut table, honest_nodes, &blocks[i]);
        proof {
            assert(views[i as int] == blocks@[i as int]@);
            assert(table_rows(table) =~= seq![results_header()] + results_rows(
                *honest_nodes,
                views,
                i + 1,
            ));
        }
        i += 1;
    }
    table
}

/// The number of votes among the first `upto` outcomes that are visible.
pub open spec fn present(votes: Seq<Option<bool>>, upto: int) -> nat
    decreases upto,
{
    if upto <= 0 {
        0
    } else {
        present(votes, upto - 1) + if outcome(votes, upto - 1) is Some {
            1nat
        } else {
            0nat
        }
    }
}

/// All visible votes that a block holds on its first `upto` blobs.
pub open spec fn block_total(block: BlockView, upto: int) -> nat
    decreases upto,
{
    if upto <= 0 {
        0
    } else {
        block_total(block, upto - 1) + present(
            block.votes[upto - 1].votes,
            block.votes[upto - 1].votes.len() as int,
        )
    }
}

/// The visible votes that the honest members of the committee (`honest`) or
/// the others (`!honest`) have in a block on its first `upto` blobs.
pub open spec fn block_visible(nodes: NodeSet, block: BlockView, honest: bool, upto: int) -> nat
    decreases upto,
{
    if upto <= 0 {
        0
    } else {
        block_visible(nodes, block, honest, upto - 1) + visible_votes(
            nodes,
            block.selected_nodes,
            block.votes[upto - 1].votes,
            honest,
            block.selected_nodes.len() as int,
        )
    }
}

/// The titles of the summary per block.
pub open spec fn block_summary_header() -> Seq<Seq<char>> {
    seq![
        "Blob"@,
        "Block Proposer Status"@,
        "Total Votes"@,
        "Honest Votes"@,
        "Malicious Votes"@,
    ]
}

/// The summary of one block: its height, the kind of its proposer, and its
/// visible votes: all, those of honest members, those of the others.
pub open spec fn block_summary_row(nodes: NodeSet, block: BlockView) -> Seq<Seq<char>> {
    seq![
        decimal(block.number as nat),
        kind_title(nodes.kind_of(block.proposer as int)),
        decimal(block_total(block, block.votes.len() as int)),
        decimal(block_visible(nodes, block, true, block.votes.len() as int)),
        decimal(block_visible(nodes, block, false, block.votes.len() as int)),
    ]
}

/// The summaries of all blocks, in order.
pub open spec fn block_summary_rows(nodes: NodeSet, blocks: Seq<BlockView>) -> Seq<Seq<Seq<char>>> {
    Seq::new(blocks.len(), |i: int| block_summary_row(nodes, blocks[i]))
}

/// A sum of `count + 1` numbers that each fit a machine word fits 128 bits.
proof fn lemma_sum_fits(count: int, sum: int, more: int)
    requires
        0 <= count < usize::MAX,
        0 <= sum <= count * usize::MAX,
        0 <= more <= usize::MAX,
    ensures
        sum + more <= (count + 1) * usize::MAX,
        (count + 1) * usize::MAX <= u128::MAX,
{
    let word = usize::MAX as int;
    assert((count + 1) * word == count * word + word) by (nonlinear_arith);
    assert((count + 1) * word <= 0xFFFF_FFFF_FFFF_FFFF * 0xFFFF_FFFF_FFFF_FFFF) by (nonlinear_arith)
        requires
            0 <= count + 1 <= word,
            word <= 0xFFFF_FFFF_FFFF_FFFF,
    ;
}

fn count_present(votes: &Vec<Option<bool>>) -> (count: u128)
    ensures
        count == present(votes@, votes.len() as int),
        count <= votes.len(),
{
    let mut count: u128 = 0;
    let mut i: usize = 0;
    while i < votes.len()
        invariant
            i <= votes.len(),
            count == present(votes@, i as int),
            count <= i,
        decreases votes.len() - i,
    {
        if votes[i].is_some() {
            count += 1;
        }
        i += 1;
    }
    count
}

fn count_visible(nodes: &NodeSet, committee: &Vec<usize>, votes: &Vec<Option<bool>>)
    -> (r: (u128, u128))
    ensures
        r.0 == visible_votes(*nodes, committee@, votes@, true, committee.len() as int),
        r.1 == visible_votes(*nodes, committee@, votes@, false, committee.len() as int),
        r.0 + r.1 <= committee.len(),
{
    let mut honest_count: u128 = 0;
    let mut malicious_count: u128 = 0;
    let mut i: usize = 0;
    while i < committee.len()
        invariant
            i <= committee.len(),
            honest_count == visible_votes(*nodes, committee@, votes@, true, i as int),
            malicious_count == visible_votes(*nodes, committee@, votes@, false, i as int),
            honest_count + malicious_count <= i,
        decreases committee.len() - i,
    {
        if i < votes.len() && votes[i].is_some() {
            if nodes.is_honest(committee[i]) {
                honest_count += 1;
            } else {
                malicious_count += 1;
            }
        }
        i += 1;
    }
    (honest_count, malicious_count)
}

fn block_counts(nodes: &NodeSet, block: &Block) -> (r: (u128, u128, u128))
    ensures
        r.0 == block_total(block@, block@.votes.len() as int),
        r.1 == block_visible(*nodes, block@, true, block@.votes.len() as int),
        r.2 == block_visible(*nodes, block@, false, block@.votes.len() as int),
{
    let mut total: u128 = 0;
    let mut honest_count: u128 = 0;
    let mut malicious_count: u128 = 0;
    let mut j: usize = 0;
    while j < block.votes.len()
        invariant
            j <= block.votes.len(),
            total == block_total(block@, j as int),
            honest_count == block_visible(*nodes, block@, true, j as int),
            malicious_count == block_visible(*nodes, block@, false, j as int),
            total <= j * usize::MAX,
            honest_count + malicious_count <= j * usize::MAX,
        decreases block.votes.len() - j,
    {
        let entry = &block.votes[j];
        let seen = count_present(&entry.votes);
        let (honest_seen, malicious_seen) = count_visible(nodes, &block.selected_nodes, &entry.votes);
        proof {
            assert(block@.votes[j as int] == entry@);
            lemma_sum_fits(j as int, total as int, seen as int);
            lemma_sum_fits(
                j as int,
                honest_count + malicious_count,
                honest_seen + malicious_seen,
            );
        }
        total += seen;
        honest_count += honest_seen;
        malicious_count += malicious_seen;
        j += 1;
    }
    (total, honest_count, malicious_count)
}

/// The summary per block: the titles, then one row for each block. No
/// entry may hold more outcomes than its block's committee has members.
pub fn create_voting_summary_per_block(blocks: &Vec<Block>, honest_nodes: &NodeSet)
    -> (table: Table)
    requires
        within_committees(block_views(blocks@)),
    ensures
        table_boxed(table),
        table_simple(table),
        table_rows(table) == seq![block_summary_header()] + block_summary_rows(
            *honest_nodes,
            block_views(blocks@),
        ),
{
    let ghost views = block_views(blocks@);
    let mut table = new_table();
    set_box_format(&mut table);
    let mut titles: Vec<String> = Vec::new();
    titles.push(String::from_str("Blob"));
    titles.push(String::from_str("Block Proposer Status"));
    titles.push(String::from_str("Total Votes"));
    titles.push(String::from_str("Honest Votes"));
    titles.push(String::from_str("Malicious Votes"));
    proof {
        reveal_strlit("Blob");
        reveal_strlit("Block Proposer Status");
        reveal_strlit("Total Votes");
        reveal_strlit("Honest Votes");
        reveal_strlit("Malicious Votes");
        assert(cell_texts(titles@) =~= block_summary_header());
    }
    add_row(&mut table, &titles);
    let mut i: usize = 0;
    proof {
        assert(table_rows(table) =~= seq![block_summary_header()] + block_summary_rows(
            *honest_nodes,
            views,
        ).take(0));
    }
    while i < blocks.len()
        invariant
            i <= blocks.len(),
            views == block_views(blocks@),
            table_boxed(table),
            table_simple(table),
            table_rows(table) == seq![block_summary_header()] + block_summary_rows(
                *honest_nodes,
                views,
            ).take(i as int),
        decreases blocks.len() - i,
    {
        let block = &blocks[i];
        let (total, honest_count, malicious_count) = block_counts(honest_nodes, block);
        let mut cells: Vec<String> = Vec::new();
        cells.push(decimal_string(block.number as u128));
        cells.push(String::from_str(kind_title_str(honest_nodes.kind(block.proposer))));
        cells.push(decimal_string(total));
        cells.push(decimal_string(honest_count));
        cells.push(decimal_string(malicious_count));
        proof {
            lemma_decimal_printable(block.number as nat);
            lemma_decimal_printable(total as nat);
            lemma_decimal_printable(honest_count as nat);
            lemma_decimal_printable(malicious_count as nat);
            assert(views[i as int] == block@);
            assert(cell_texts(cells@) =~= block_summary_row(*honest_nodes, block@));
        }
        add_row(&mut table, &cells);
        proof {
            assert(table_rows(table) =~= seq![block_summary_header()] + block_summary_rows(
                *honest_nodes,
                views,
            ).take(i + 1));
        }
        i += 1;
    }
    proof {
        assert(block_summary_rows(*honest_nodes, views).take(i as int) =~= block_summary_rows(
            *honest_nodes,
            views,
        ));
    }
    table
}

/// The blobs of `sorted`, which stand in ascending order of identifiers,
/// with `blob` behind the last of them whose identifier is not greater.
pub open spec fn inserted(sorted: Seq<Blob>, blob: Blob) -> Seq<Blob>
    decreases sorted.len(),
{
    if sorted.len() == 0 || sorted.last().id <= blob.id {
        sorted.push(blob)
    } else {
        inserted(sorted.drop_last(), blob).push(sorted.last())
    }
}

/// The blobs in ascending order of their identifiers; blobs with the same
/// identifier keep their order.
pub open spec fn sorted_by_id(blobs: Seq<Blob>) -> Seq<Blob>
    decreases blobs.len(),
{
    if blobs.len() == 0 {
        Seq::empty()
    } else {
        inserted(sorted_by_id(blobs.drop_last()), blobs.last())
    }
}

/// The identifiers never go down.
pub open spec fn ordered(blobs: Seq<Blob>) -> bool {
    forall|a: int, b: int| 0 <= a <= b < blobs.len() ==> blobs[a].id <= blobs[b].id
}

/// The titles of the summary per blob.
pub open spec fn blob_summary_header() -> Seq<Seq<char>> {
    seq![
        "Blob"@,
        "Blob Proposer Status"@,
        "Total Votes"@,
        "Honest Votes"@,
        "Malicious Votes"@,
        "Confirmed"@,
    ]
}

/// The summary of one blob: its identifier, the kind of its proposer, its
/// votes (all, the honest ones, the malicious ones) and whether it is
/// confirmed.
pub open spec fn blob_summary_row(blob: Blob) -> Seq<Seq<char>> {
    seq![
        decimal(blob.id as nat),
        kind_text(blob.proposer_status),
        decimal((blob.votes_honest + blob.votes_malicious) as nat),
        decimal(blob.votes_honest as nat),
        decimal(blob.votes_malicious as nat),
        flag_text(blob.is_confirmed),
    ]
}

/// The summaries of the blobs, in the order given.
pub open spec fn blob_summary_rows(blobs: Seq<Blob>) -> Seq<Seq<Seq<char>>> {
    Seq::new(blobs.len(), |i: int| blob_summary_row(blobs[i]))
}

/// Where `blob` goes into blobs in ascending order: behind everything that
/// is not greater, before everything that is.
proof fn lemma_inserted_at(sorted: Seq<Blob>, blob: Blob, at: int)
    requires
        0 <= at <= sorted.len(),
        forall|k: int| at <= k < sorted.len() ==> sorted[k].id > blob.id,
        at > 0 ==> sorted[at - 1].id <= blob.id,
    ensures
        inserted(sorted, blob) == sorted.insert(at, blob),
    decreases sorted.len() - at,
{
    if at == sorted.len() {
        assert(sorted.insert(at, blob) =~= sorted.push(blob));
    } else {
        lemma_inserted_at(sorted.drop_last(), blob, at);
        assert(sorted.drop_last().insert(at, blob).push(sorted.last()) =~= sorted.insert(
            at,
            blob,
        ));
    }
}

/// Sorting gives the same blobs, each as often as before, in ascending
/// order of identifiers.
pub proof fn law_sorted_by_id(blobs: Seq<Blob>)
    ensures
        ordered(sorted_by_id(blobs)),
        sorted_by_id(blobs).len() == blobs.len(),
        sorted_by_id(blobs).to_multiset() == blobs.to_multiset(),
    decreases blobs.len(),
{
    broadcast use vstd::seq_lib::group_to_multiset_ensures;

    if blobs.len() > 0 {
        let front = sorted_by_id(blobs.drop_last());
        law_sorted_by_id(blobs.drop_last());
        lemma_inserted(front, blobs.last());
        assert(blobs.drop_last().push(blobs.last()) =~= blobs);
    }
}

/// Inserting a blob into ascending blobs gives ascending blobs with one
/// blob more.
proof fn lemma_inserted(sorted: Seq<Blob>, blob: Blob)
    requires
        ordered(sorted),
    ensures
        ordered(inserted(sorted, blob)),
        inserted(sorted, blob).len() == sorted.len() + 1,
        inserted(sorted, blob).to_multiset() == sorted.to_multiset().insert(blob),
        forall|k: int|
            0 <= k < inserted(sorted, blob).len() ==> (#[trigger] inserted(sorted, blob)[k]).id
                <= blob.id || (sorted.len() > 0 && inserted(sorted, blob)[k].id
                <= sorted.last().id),
    decreases sorted.len(),
{
    broadcast use vstd::seq_lib::group_to_multiset_ensures;

    if sorted.len() == 0 || sorted.last().id <= blob.id {
    } else {
        let front = sorted.drop_last();
        lemma_inserted(front, blob);
        assert(front.push(sorted.last()) =~= sorted);
        let merged = inserted(front, blob);
        assert forall|k: int| 0 <= k < merged.len() implies (#[trigger] merged[k]).id
            <= sorted.last().id by {
            if front.len() > 0 {
                assert(front.last().id <= sorted.last().id);
            }
        }
    }
}

fn sort_by_id(blobs: &Vec<Blob>) -> (sorted: Vec<Blob>)
    ensures
        sorted@ == sorted_by_id(blobs@),
{
    let mut sorted: Vec<Blob> = Vec::new();
    let mut i: usize = 0;
    while i < blobs.len()
        invariant
            i <= blobs.len(),
            sorted@ == sorted_by_id(blobs@.take(i as int)),
            sorted.len() == i,
        decreases blobs.len() - i,
    {
        let blob = blobs[i];
        let mut at: usize = sorted.len();
        while at > 0 && sorted[at - 1].id > blob.id
            invariant
                at <= sorted.len(),
                forall|k: int| at <= k < sorted.len() ==> sorted@[k].id > blob.id,
            decreases at,
        {
            at -= 1;
        }
        proof {
            lemma_inserted_at(sorted@, blob, at as int);
            assert(blobs@.take(i + 1).drop_last() =~= blobs@.take(i as int));
            assert(blobs@.take(i + 1).last() == blob);
        }
        sorted.insert(at, blob);
        i += 1;
    }
    proof {
        assert(blobs@.take(i as int) =~= blobs@);
    }
    sorted
}

/// The summary per blob: the titles, then one row for each blob, in
/// ascending order of the identifiers.
pub fn create_voting_summary_per_blob(blobs: &Vec<Blob>) -> (table: Table)
    ensures
        table_boxed(table),
        table_simple(table),
        table_rows(table) == seq![blob_summary_header()] + blob_summary_rows(
            sorted_by_id(blobs@),
        ),
{
    let sorted = sort_by_id(blobs);
    let ghost rows = blob_summary_rows(sorted@);
    let mut table = new_table();
    set_box_format(&mut table);
    let mut titles: Vec<String> = Vec::new();
    titles.push(String::from_str("Blob"));
    titles.push(String::from_str("Blob Proposer Status"));
    titles.push(String::from_str("Total Votes"));
    titles.push(String::from_str("Honest Votes"));
    titles.push(String::from_str("Malicious Votes"));
    titles.push(String::from_str("Confirmed"));
    proof {
        reveal_strlit("Blob");
        reveal_strlit("Blob Proposer Status");
        reveal_strlit("Total Votes");
        reveal_strlit("Honest Votes");
        reveal_strlit("Malicious Votes");
        reveal_strlit("Confirmed");
        assert(cell_texts(titles@) =~= blob_summary_header());
    }
    add_row(&mut table, &titles);
    let mut i: usize = 0;
    proof {
        assert(table_rows(table) =~= seq![blob_summary_header()] + rows.take(0));
    }
    while i < sorted.len()
        invariant
            i <= sorted.len(),
            rows == blob_summary_rows(sorted@),
            table_boxed(table),
            table_simple(table),
            table_rows(table) == seq![blob_summary_header()] + rows.take(i as int),
        decreases sorted.len() - i,
    {
        let blob = sorted[i];
        let mut cells: Vec<String> = Vec::new();
        cells.push(decimal_string(blob.id as u128));
        cells.push(String::from_str(kind_str(blob.proposer_status)));
        cells.push(decimal_string(blob.votes_honest as u128 + blob.votes_malicious as u128));
        cells.push(decimal_string(blob.votes_honest as u128));
        cells.push(decimal_string(blob.votes_malicious as u128));
        cells.push(String::from_str(flag_str(blob.is_confirmed)));
        proof {
            lemma_decimal_printable(blob.id as nat);
            lemma_decimal_printable((blob.votes_honest + blob.votes_malicious) as nat);
            lemma_decimal_printable(blob.votes_honest as nat);
            lemma_decimal_printable(blob.votes_malicious as nat);
            assert(cell_texts(cells@) =~= blob_summary_row(blob));
        }
        add_row(&mut table, &cells);
        proof {
            assert(table_rows(table) =~= seq![blob_summary_header()] + rows.take(i + 1));
        }
        i += 1;
    }
    proof {
        assert(rows.take(i as int) =~= rows);
    }
    table
}

} // verus!
