use prettytable::Table;
use sim::models::block::BlobVotes;
use sim::models::{Blob, Block};
use sim::nodes::{NodeKind, NodeSet};
use sim::scenarios;
use sim::utils::csv_writer::create_results_csv;
use sim::utils::rows::{node_string, vote_label_str, votes_text};
use sim::models::block::{blocks_cover_committees, blocks_within_committees};
use sim::utils::text::{decimal_string, flag_str, kind_str, kind_title_str};
use sim::utils::{
    create_results_table, create_voting_summary_per_blob, create_voting_summary_per_block,
    write_table_buffered,
};

const HEADER: &str = "Block,Proposer(Status),Blob ID,Votes(Status),Honest Votes,Malicious Votes\n";

fn cells(table: &Table) -> Vec<Vec<String>> {
    table.row_iter().map(|row| row.iter().map(|cell| cell.get_content()).collect()).collect()
}

fn texts(row: &[&str]) -> Vec<String> {
    row.iter().map(|cell| cell.to_string()).collect()
}

fn entry(blob_id: usize, votes: Vec<Option<bool>>, buffered_votes: usize) -> BlobVotes {
    BlobVotes { blob_id, votes, buffered_votes }
}

fn sample_blocks() -> Vec<Block> {
    vec![
        Block {
            number: 1,
            proposer: 3,
            selected_nodes: vec![0, 2, 1],
            votes: vec![entry(0, vec![Some(true), Some(false), None], 2)],
        },
        Block {
            number: 2,
            proposer: 0,
            selected_nodes: vec![3, 1, 2],
            votes: vec![
                entry(0, vec![Some(false), Some(true), Some(false)], 0),
                entry(1, vec![None, None, None], 0),
            ],
        },
    ]
}

fn blob(id: usize, votes_honest: usize, votes_malicious: usize, status: NodeKind) -> Blob {
    Blob {
        id,
        creation_height: id,
        votes_honest,
        votes_malicious,
        is_confirmed: true,
        proposer: 0,
        proposer_status: status,
    }
}

#[test]
fn decimal_string_writes_numbers() {
    assert_eq!(decimal_string(0), "0");
    assert_eq!(decimal_string(7), "7");
    assert_eq!(decimal_string(9), "9");
    assert_eq!(decimal_string(10), "10");
    assert_eq!(decimal_string(1234567890), "1234567890");
    assert_eq!(decimal_string(u64::MAX as u128), "18446744073709551615");
    assert_eq!(decimal_string(u128::MAX), "340282366920938463463374607431768211455");
}

#[test]
fn kinds_have_their_names() {
    assert_eq!(kind_str(NodeKind::Honest), "honest");
    assert_eq!(kind_str(NodeKind::Malicious), "malicious");
    assert_eq!(kind_title_str(NodeKind::Honest), "Honest");
    assert_eq!(kind_title_str(NodeKind::Malicious), "Malicious");
    assert_eq!(flag_str(true), "yes");
    assert_eq!(flag_str(false), "no");
    assert_eq!(vote_label_str(true), "1(honest)");
    assert_eq!(vote_label_str(false), "1(malicious)");
}

#[test]
fn node_string_names_the_kind() {
    let nodes = NodeSet::new(4, 2).unwrap();
    assert_eq!(node_string(&nodes, 0), "0(honest)");
    assert_eq!(node_string(&nodes, 1), "1(honest)");
    assert_eq!(node_string(&nodes, 2), "2(malicious)");
    assert_eq!(node_string(&nodes, 17), "17(malicious)");
}

#[test]
fn votes_text_shows_the_visible_votes() {
    let nodes = NodeSet::new(4, 2).unwrap();
    let committee = vec![0, 2, 1, 3];
    let votes = vec![Some(true), Some(false), None, Some(true)];
    assert_eq!(
        votes_text(&nodes, &committee, &votes, ";"),
        ("1(honest);1(malicious);1(malicious)".to_string(), 1, 2)
    );
    assert_eq!(
        votes_text(&nodes, &committee, &vec![None, None, Some(true)], ", "),
        ("1(honest)".to_string(), 1, 0)
    );
    assert_eq!(votes_text(&nodes, &committee, &vec![], ";"), (String::new(), 0, 0));
    assert_eq!(
        votes_text(&nodes, &vec![1], &vec![Some(false), Some(true), Some(true)], ";"),
        ("1(honest)".to_string(), 1, 0)
    );
}

#[test]
fn csv_of_no_blocks_is_the_header() {
    let nodes = NodeSet::new(4, 2).unwrap();
    let mut text = String::new();
    create_results_csv(&vec![], &nodes, &mut text);
    assert_eq!(text, HEADER);
}

#[test]
fn csv_has_a_row_per_block_and_blob() {
    let nodes = NodeSet::new(4, 2).unwrap();
    let mut text = String::new();
    create_results_csv(&sample_blocks(), &nodes, &mut text);
    let expected = format!(
        "{}{}{}{}",
        HEADER,
        "1,3(malicious),0,\"1(honest);1(malicious);1(honest);1(honest)\",3,1\n",
        "2,0(honest),0,\"1(malicious);1(honest);1(malicious)\",1,2\n",
        "2,0(honest),1,\"\",0,0\n",
    );
    assert_eq!(text, expected);
}

#[test]
fn csv_shows_buffered_votes_alone() {
    let nodes = NodeSet::new(4, 2).unwrap();
    let blocks = vec![Block {
        number: 12,
        proposer: 2,
        selected_nodes: vec![1],
        votes: vec![entry(11, vec![None], 3), entry(10, vec![], 1)],
    }];
    let mut text = String::new();
    create_results_csv(&blocks, &nodes, &mut text);
    let expected = format!(
        "{}{}{}",
        HEADER,
        "12,2(malicious),11,\"1(honest);1(honest);1(honest)\",3,0\n",
        "12,2(malicious),10,\"1(honest)\",1,0\n",
    );
    assert_eq!(text, expected);
}

#[test]
fn csv_is_appended_to_the_writer() {
    let nodes = NodeSet::new(4, 2).unwrap();
    let mut text = String::from("# run 1\n");
    create_results_csv(&vec![], &nodes, &mut text);
    assert_eq!(text, format!("# run 1\n{}", HEADER));
}

#[test]
fn csv_of_a_run_has_a_row_for_every_vote_entry() {
    let config = sim::models::Settings {
        total_nodes: 10,
        malicious_nodes: 3,
        nodes_per_block: 4,
        confirmation_depth: 3,
        malicious_power_block: 0,
        total_blocks: 6,
        reliable_nodes: 0,
        k_f: 0,
        smart_withholding_threshold: 2,
        random_seed: 1,
    };
    let sim = scenarios::basic::run(&config).unwrap();
    let nodes = NodeSet::new(10, 3).unwrap();
    let mut text = String::new();
    create_results_csv(sim.blocks(), &nodes, &mut text);
    let lines: Vec<&str> = text.lines().collect();
    assert_eq!(lines.len(), 1 + 1 + 2 + 3 + 3 + 3 + 3);
    for line in &lines[1..] {
        let shown = line.split('"').nth(1).unwrap();
        let honest: usize = shown.matches("1(honest)").count();
        let malicious: usize = shown.matches("1(malicious)").count();
        assert_eq!(honest + malicious, 4);
        assert!(line.ends_with(&format!(",{},{}", honest, malicious)));
    }
}

#[test]
fn results_table_has_a_row_per_block_and_blob() {
    let nodes = NodeSet::new(4, 2).unwrap();
    let table = create_results_table(&sample_blocks(), &nodes);
    assert_eq!(
        cells(&table),
        vec![
            texts(&[
                "Block",
                "Proposer(Status)",
                "Blob ID",
                "Votes(Status)",
                "Honest Votes",
                "Malicious Votes"
            ]),
            texts(&["1", "3(malicious)", "0", "1(honest), 1(malicious)", "1", "1"]),
            texts(&["2", "0(honest)", "0", "1(malicious), 1(honest), 1(malicious)", "1", "2"]),
            texts(&["2", "0(honest)", "1", "", "0", "0"]),
        ]
    );
}

#[test]
fn results_table_of_no_blocks_has_its_titles() {
    let nodes = NodeSet::new(4, 2).unwrap();
    let table = create_results_table(&vec![], &nodes);
    assert_eq!(cells(&table).len(), 1);
    assert_eq!(cells(&table)[0].len(), 6);
}

#[test]
fn block_summary_counts_the_visible_votes() {
    let nodes = NodeSet::new(4, 2).unwrap();
    let table = create_voting_summary_per_block(&sample_blocks(), &nodes);
    assert_eq!(
        cells(&table),
        vec![
            texts(&[
                "Blob",
                "Block Proposer Status",
                "Total Votes",
                "Honest Votes",
                "Malicious Votes"
            ]),
            texts(&["1", "Malicious", "2", "1", "1"]),
            texts(&["2", "Honest", "3", "1", "2"]),
        ]
    );
}

#[test]
fn blob_summary_is_sorted_by_identifier() {
    let blobs = vec![
        blob(2, 5, 1, NodeKind::Malicious),
        blob(0, 3, 4, NodeKind::Honest),
        blob(1, 0, 0, NodeKind::Honest),
    ];
    let table = create_voting_summary_per_blob(&blobs);
    assert_eq!(
        cells(&table),
        vec![
            texts(&[
                "Blob",
                "Blob Proposer Status",
                "Total Votes",
                "Honest Votes",
                "Malicious Votes",
                "Confirmed"
            ]),
            texts(&["0", "honest", "7", "3", "4", "yes"]),
            texts(&["1", "honest", "0", "0", "0", "yes"]),
            texts(&["2", "malicious", "6", "5", "1", "yes"]),
        ]
    );
}

#[test]
fn blob_summary_shows_the_confirmed_flag() {
    let mut pending = blob(1, 2, 3, NodeKind::Honest);
    pending.is_confirmed = false;
    let table = create_voting_summary_per_blob(&vec![blob(0, 2, 3, NodeKind::Honest), pending]);
    let rows = cells(&table);
    assert_eq!(rows[0][5], "Confirmed");
    assert_eq!(rows[1], texts(&["0", "honest", "5", "2", "3", "yes"]));
    assert_eq!(rows[2], texts(&["1", "honest", "5", "2", "3", "no"]));
}

#[test]
fn blocks_are_checked_for_a_vote_per_member() {
    let blocks = sample_blocks();
    assert!(blocks_cover_committees(&blocks));
    assert!(blocks_within_committees(&blocks));
    assert!(blocks[0].covers_committee());
    assert!(blocks[0].within_committee());
    let short = vec![Block {
        number: 1,
        proposer: 0,
        selected_nodes: vec![0, 1],
        votes: vec![entry(0, vec![Some(true), None], 0), entry(1, vec![Some(true)], 0)],
    }];
    assert!(!blocks_cover_committees(&short));
    assert!(blocks_within_committees(&short));
    let long = vec![Block {
        number: 1,
        proposer: 0,
        selected_nodes: vec![0],
        votes: vec![entry(0, vec![Some(true), None], 0)],
    }];
    assert!(blocks_cover_committees(&long));
    assert!(!blocks_within_committees(&long));
    let none: Vec<Block> = Vec::new();
    assert!(blocks_cover_committees(&none));
    assert!(blocks_within_committees(&none));
}

#[test]
fn blob_summary_keeps_the_order_of_equal_identifiers() {
    let blobs = vec![
        blob(1, 9, 0, NodeKind::Honest),
        blob(0, 1, 1, NodeKind::Honest),
        blob(1, 0, 9, NodeKind::Malicious),
        blob(0, 2, 2, NodeKind::Malicious),
    ];
    let table = create_voting_summary_per_blob(&blobs);
    let rows = cells(&table);
    assert_eq!(rows[1], texts(&["0", "honest", "2", "1", "1", "yes"]));
    assert_eq!(rows[2], texts(&["0", "malicious", "4", "2", "2", "yes"]));
    assert_eq!(rows[3], texts(&["1", "honest", "9", "9", "0", "yes"]));
    assert_eq!(rows[4], texts(&["1", "malicious", "9", "0", "9", "yes"]));
}

#[test]
fn blob_summary_adds_tallies_without_overflow() {
    let blobs = vec![blob(0, usize::MAX, usize::MAX, NodeKind::Honest)];
    let table = create_voting_summary_per_blob(&blobs);
    let total = (usize::MAX as u128) * 2;
    assert_eq!(cells(&table)[1][2], total.to_string());
}

#[test]
fn tables_are_printed_with_box_characters() {
    let blobs = vec![blob(0, 3, 4, NodeKind::Honest)];
    let table = create_voting_summary_per_blob(&blobs);
    let mut text = String::from(">");
    write_table_buffered(&table, &mut text);
    assert_eq!(text, format!(">{}", table.to_string()));
    let lines: Vec<&str> = text.lines().collect();
    assert_eq!(lines.len(), 5);
    assert!(lines[0].starts_with(">┌"));
    assert!(lines[1].starts_with("│ Blob │ Blob Proposer Status │"));
    assert!(lines[2].starts_with("├"));
    assert!(lines[3].starts_with("│ 0    │ honest"));
    assert!(lines[4].starts_with("└"));
}
