use sim::driver::{simulate, Phase, Simulation};
use sim::error::SimError;
use sim::models::{Blob, Settings};
use sim::nodes::{NodeKind, NodeSet};
use sim::scenarios;
use sim::strategy::{Credit, Decision, Strategy, Tally, VoteContext};
use sim::tracker::ConfirmationTracker;

fn settings(
    total_nodes: usize,
    malicious_nodes: usize,
    nodes_per_block: usize,
    confirmation_depth: usize,
    total_blocks: usize,
) -> Settings {
    Settings {
        total_nodes,
        malicious_nodes,
        nodes_per_block,
        confirmation_depth,
        malicious_power_block: 0,
        total_blocks,
        reliable_nodes: 0,
        k_f: 0,
        smart_withholding_threshold: 2,
        random_seed: 42,
    }
}

fn tallies(sim: &Simulation) -> Vec<(usize, usize)> {
    sim.blobs().iter().map(|blob| (blob.votes_honest, blob.votes_malicious)).collect()
}

#[test]
fn new_blob_is_empty_and_pending() {
    let blob = Blob::new(7);
    assert_eq!(blob.id, 7);
    assert_eq!(blob.creation_height, 7);
    assert_eq!(blob.votes_honest, 0);
    assert_eq!(blob.votes_malicious, 0);
    assert!(!blob.is_confirmed);
    assert_eq!(blob.proposer, 0);
    assert_eq!(blob.proposer_status, NodeKind::Honest);
}

#[test]
fn blob_proposed_by_keeps_its_proposer() {
    let blob = Blob::proposed_by(3, 9, NodeKind::Malicious);
    assert_eq!(
        blob,
        Blob {
            id: 3,
            creation_height: 3,
            votes_honest: 0,
            votes_malicious: 0,
            is_confirmed: false,
            proposer: 9,
            proposer_status: NodeKind::Malicious,
        }
    );
}

#[test]
fn node_set_splits_the_range() {
    let nodes = NodeSet::new(10, 3).unwrap();
    assert_eq!(nodes.total(), 10);
    assert_eq!(nodes.malicious_count(), 3);
    assert!(nodes.is_honest(0));
    assert!(nodes.is_honest(6));
    assert!(!nodes.is_honest(7));
    assert!(!nodes.is_malicious(6));
    assert!(nodes.is_malicious(7));
    assert!(nodes.is_malicious(9));
    assert!(!nodes.is_malicious(10));
    assert!(!nodes.is_honest(10));
    assert_eq!(nodes.kind(6), NodeKind::Honest);
    assert_eq!(nodes.kind(7), NodeKind::Malicious);
    assert_eq!(nodes.kind(10), NodeKind::Malicious);
}

#[test]
fn node_set_with_all_or_no_malicious_nodes() {
    let all = NodeSet::new(4, 4).unwrap();
    assert!(!all.is_honest(0));
    assert!(all.is_malicious(0));
    assert!(all.is_malicious(3));
    let none = NodeSet::new(4, 0).unwrap();
    assert!(none.is_honest(3));
    assert!(!none.is_malicious(3));
    let empty = NodeSet::new(0, 0).unwrap();
    assert!(!empty.is_honest(0));
    assert!(!empty.is_malicious(0));
}

#[test]
fn node_set_refuses_more_malicious_than_nodes() {
    assert_eq!(NodeSet::new(3, 4).err(), Some(SimError::ConfigError));
}

#[test]
fn settings_that_fit_are_accepted() {
    assert_eq!(settings(10, 3, 4, 3, 6).validate(), Ok(()));
    assert_eq!(settings(10, 10, 4, 3, 6).validate(), Ok(()));
    assert_eq!(settings(10, 3, 4, 3, 2).validate(), Ok(()));
    assert_eq!(settings(2, 0, 4, 3, 6).validate(), Ok(()));
    let mut reliable = settings(10, 3, 4, 3, 6);
    reliable.reliable_nodes = 7;
    assert_eq!(reliable.validate(), Ok(()));
}

#[test]
fn settings_that_do_not_fit_are_refused() {
    assert_eq!(settings(3, 4, 1, 1, 1).validate(), Err(SimError::ConfigError));
    assert_eq!(settings(10, 3, 0, 3, 6).validate(), Err(SimError::ConfigError));
    assert_eq!(settings(10, 3, 4, 0, 6).validate(), Err(SimError::ConfigError));
    assert_eq!(settings(10, 3, usize::MAX, 3, 2).validate(), Err(SimError::ConfigError));
    let mut reliable = settings(10, 3, 4, 3, 6);
    reliable.reliable_nodes = 8;
    assert_eq!(reliable.validate(), Err(SimError::ConfigError));
}

#[test]
fn settings_with_more_nodes_than_32_bits_hold_are_refused() {
    let expected = if usize::MAX > u32::MAX as usize {
        Err(SimError::ConfigError)
    } else {
        Ok(())
    };
    assert_eq!(settings(usize::MAX, 3, 4, 3, 6).validate(), expected);
    assert_eq!(settings(u32::MAX as usize, 3, 4, 3, 6).validate(), Ok(()));
}

#[test]
fn censorship_run_counts_the_votes_cast() {
    let mut sim = Simulation::new(settings(4, 2, 2, 2, 3), Strategy::VoteCensorship).unwrap();
    assert_eq!(sim.votes_cast_totals(), (0, 0));
    assert_eq!(sim.waiting_blobs(), 0);
    sim.apply_block(3, vec![0, 2]);
    assert_eq!(sim.votes_cast_totals(), (1, 1));
    assert_eq!(sim.buffered(), &vec![1]);
    assert_eq!(sim.waiting_blobs(), 1);
    sim.apply_block(2, vec![0, 1]);
    assert_eq!(sim.votes_cast_totals(), (5, 1));
    assert_eq!(sim.buffered(), &vec![0, 2]);
    assert_eq!(sim.waiting_blobs(), 1);
    sim.apply_block(0, vec![3, 2]);
    assert_eq!(sim.votes_cast_totals(), (5, 5));
    assert_eq!(sim.buffered(), &vec![0, 0, 0]);
    assert_eq!(sim.waiting_blobs(), 0);
    assert_eq!(tallies(&sim), vec![(0, 1), (2, 2), (0, 2)]);
}

#[test]
fn censorship_scenario_reports_its_totals() {
    let config = settings(10, 3, 4, 3, 6);
    let (sim, totals) = scenarios::vote_censorship::run_with_totals(&config).unwrap();
    let plain = scenarios::vote_censorship::run(&config).unwrap();
    assert_eq!(sim.blocks(), plain.blocks());
    assert_eq!(sim.blobs(), plain.blobs());
    assert_eq!(totals.honest_votes + totals.malicious_votes, 4 * (1 + 2 + 3 + 3 + 3 + 3));
    assert_eq!((totals.honest_votes, totals.malicious_votes), sim.votes_cast_totals());
    assert_eq!(totals.waiting_blobs, sim.buffered().iter().filter(|count| **count > 0).count());
    assert_eq!(
        scenarios::vote_censorship::run_with_totals(&settings(3, 4, 1, 1, 1)).err(),
        Some(SimError::ConfigError)
    );
}

#[test]
fn activation_height_covers_the_last_blocks() {
    let mut config = settings(10, 3, 4, 3, 100);
    config.k_f = 30;
    assert_eq!(config.activation_height(), 70);
    config.k_f = 100;
    assert_eq!(config.activation_height(), 0);
    config.k_f = 101;
    assert_eq!(config.activation_height(), 0);
    config.k_f = 0;
    assert_eq!(config.activation_height(), 100);
}

#[test]
fn baseline_decisions() {
    let ctx = VoteContext { block_number: 1, proposer_honest: false };
    assert_eq!(
        Strategy::Baseline.decide(&ctx, true, 0),
        Decision { vote: Some(true), credit: Credit::Honest }
    );
    assert_eq!(
        Strategy::Baseline.decide(&ctx, false, 0),
        Decision { vote: Some(false), credit: Credit::Malicious }
    );
}

#[test]
fn censorship_decisions() {
    let censored = VoteContext { block_number: 1, proposer_honest: false };
    let free = VoteContext { block_number: 1, proposer_honest: true };
    let strategy = Strategy::VoteCensorship;
    assert_eq!(strategy.decide(&censored, true, 0), Decision { vote: None, credit: Credit::Buffered });
    assert_eq!(
        strategy.decide(&free, true, 0),
        Decision { vote: Some(true), credit: Credit::Honest }
    );
    assert_eq!(
        strategy.decide(&censored, false, 0),
        Decision { vote: Some(false), credit: Credit::Malicious }
    );
    assert_eq!(
        strategy.decide(&free, false, 0),
        Decision { vote: Some(false), credit: Credit::Malicious }
    );
}

#[test]
fn withholding_decisions_turn_at_the_activation_height() {
    let strategy = Strategy::DataWithholding { activation_height: 5 };
    let before = VoteContext { block_number: 4, proposer_honest: true };
    let at = VoteContext { block_number: 5, proposer_honest: true };
    let after = VoteContext { block_number: 6, proposer_honest: true };
    assert_eq!(
        strategy.decide(&before, true, 0),
        Decision { vote: Some(true), credit: Credit::Honest }
    );
    assert_eq!(
        strategy.decide(&before, false, 0),
        Decision { vote: Some(false), credit: Credit::Malicious }
    );
    for ctx in [at, after] {
        assert_eq!(
            strategy.decide(&ctx, true, 0),
            Decision { vote: Some(false), credit: Credit::Uncounted }
        );
        assert_eq!(
            strategy.decide(&ctx, false, 0),
            Decision { vote: Some(true), credit: Credit::Uncounted }
        );
    }
}

#[test]
fn smart_decisions_turn_at_the_threshold() {
    let strategy = Strategy::SmartDataWithholding { threshold: 3 };
    let ctx = VoteContext { block_number: 1, proposer_honest: true };
    assert_eq!(
        strategy.decide(&ctx, false, 2),
        Decision { vote: Some(true), credit: Credit::Uncounted }
    );
    assert_eq!(
        strategy.decide(&ctx, false, 3),
        Decision { vote: Some(false), credit: Credit::Malicious }
    );
    assert_eq!(
        strategy.decide(&ctx, false, 4),
        Decision { vote: Some(false), credit: Credit::Malicious }
    );
    assert_eq!(
        strategy.decide(&ctx, true, 0),
        Decision { vote: Some(true), credit: Credit::Honest }
    );
    assert_eq!(
        strategy.decide(&ctx, true, 9),
        Decision { vote: Some(true), credit: Credit::Honest }
    );
}

#[test]
fn opening_releases_the_buffer_for_an_honest_proposer_only() {
    let tally = Tally { honest: 4, malicious: 1, buffered: 3 };
    let free = VoteContext { block_number: 1, proposer_honest: true };
    let censored = VoteContext { block_number: 1, proposer_honest: false };
    assert_eq!(
        Strategy::VoteCensorship.open(&free, tally),
        Tally { honest: 7, malicious: 1, buffered: 0 }
    );
    assert_eq!(Strategy::VoteCensorship.open(&censored, tally), tally);
    assert_eq!(Strategy::Baseline.open(&free, tally), tally);
    assert_eq!(Strategy::SmartDataWithholding { threshold: 0 }.open(&free, tally), tally);
}

#[test]
fn cast_votes_goes_through_the_committee_in_order() {
    let nodes = NodeSet::new(4, 2).unwrap();
    let ctx = VoteContext { block_number: 1, proposer_honest: true };
    let start = Tally { honest: 0, malicious: 0, buffered: 0 };
    let strategy = Strategy::SmartDataWithholding { threshold: 2 };
    let (votes, tally) = strategy.cast_votes(&ctx, &nodes, &vec![2, 0, 1, 3], start);
    assert_eq!(votes, vec![Some(true), Some(true), Some(true), Some(false)]);
    assert_eq!(tally, Tally { honest: 2, malicious: 1, buffered: 0 });
    let (votes, tally) = strategy.cast_votes(&ctx, &nodes, &vec![0, 1, 2], start);
    assert_eq!(votes, vec![Some(true), Some(true), Some(false)]);
    assert_eq!(tally, Tally { honest: 2, malicious: 1, buffered: 0 });
    let (votes, tally) = Strategy::Baseline.cast_votes(&ctx, &nodes, &vec![], start);
    assert_eq!(votes, Vec::<Option<bool>>::new());
    assert_eq!(tally, start);
}

#[test]
fn baseline_block_counts_every_member_once() {
    let nodes = NodeSet::new(5, 2).unwrap();
    let ctx = VoteContext { block_number: 3, proposer_honest: false };
    let start = Tally { honest: 10, malicious: 20, buffered: 0 };
    let (votes, tally) = Strategy::Baseline.cast_votes(&ctx, &nodes, &vec![4, 0, 3, 2, 1], start);
    assert_eq!(votes, vec![Some(false), Some(true), Some(false), Some(true), Some(true)]);
    assert_eq!(tally, Tally { honest: 13, malicious: 22, buffered: 0 });
    assert_eq!(tally.honest + tally.malicious, 10 + 20 + 5);
}

#[test]
fn tracker_creates_dense_identifiers() {
    let mut tracker = ConfirmationTracker::new(3);
    assert_eq!(tracker.depth(), 3);
    assert_eq!(tracker.create(4, NodeKind::Honest), 0);
    assert_eq!(tracker.create(9, NodeKind::Malicious), 1);
    assert_eq!(tracker.create(1, NodeKind::Honest), 2);
    assert_eq!(tracker.pending(), &vec![0, 1, 2]);
    assert_eq!(tracker.blobs().len(), 3);
    assert_eq!(tracker.blobs()[1], Blob::proposed_by(1, 9, NodeKind::Malicious));
}

#[test]
fn tracker_confirms_the_blob_at_depth() {
    let mut tracker = ConfirmationTracker::new(3);
    for _ in 0..4 {
        tracker.create(0, NodeKind::Honest);
    }
    assert_eq!(tracker.advance(2), None);
    assert_eq!(tracker.pending(), &vec![0, 1, 2, 3]);
    assert_eq!(tracker.advance(4), Some(1));
    assert_eq!(tracker.pending(), &vec![0, 2, 3]);
    assert!(tracker.blobs()[1].is_confirmed);
    assert!(!tracker.blobs()[0].is_confirmed);
    assert_eq!(tracker.advance(4), Some(1));
    assert_eq!(tracker.pending(), &vec![0, 2, 3]);
    assert_eq!(tracker.advance(3), Some(0));
    assert_eq!(tracker.pending(), &vec![2, 3]);
}

#[test]
fn tracker_ignores_a_blob_that_does_not_exist() {
    let mut tracker = ConfirmationTracker::new(3);
    tracker.create(0, NodeKind::Honest);
    assert_eq!(tracker.advance(7), None);
    let mut shallow = ConfirmationTracker::new(0);
    shallow.create(0, NodeKind::Honest);
    assert_eq!(shallow.advance(1), None);
    assert_eq!(shallow.pending(), &vec![0]);
    assert_eq!(tracker.pending(), &vec![0]);
    assert!(!tracker.blobs()[0].is_confirmed);
}

#[test]
fn tracker_freezes_confirmed_blobs() {
    let mut tracker = ConfirmationTracker::new(1);
    tracker.create(0, NodeKind::Honest);
    tracker.create(0, NodeKind::Honest);
    assert!(tracker.record_votes(0, 3, 4));
    assert_eq!(tracker.blobs()[0].votes_honest, 3);
    assert_eq!(tracker.blobs()[0].votes_malicious, 4);
    assert_eq!(tracker.advance(1), Some(0));
    assert!(!tracker.record_votes(0, 9, 9));
    assert_eq!(tracker.blobs()[0].votes_honest, 3);
    assert_eq!(tracker.blobs()[0].votes_malicious, 4);
    assert!(tracker.blobs()[0].is_confirmed);
    assert!(!tracker.record_votes(5, 1, 1));
    assert!(tracker.record_votes(1, 1, 2));
    assert_eq!(tracker.blobs()[1].votes_malicious, 2);
}

#[test]
fn simulation_starts_empty() {
    let sim = Simulation::new(settings(10, 3, 4, 3, 6), Strategy::Baseline).unwrap();
    assert_eq!(sim.height(), 0);
    assert_eq!(sim.phase(), Phase::Running);
    assert!(sim.blocks().is_empty());
    assert!(sim.blobs().is_empty());
    assert!(sim.pending().is_empty());
    assert_eq!(sim.strategy(), Strategy::Baseline);
    assert_eq!(sim.config().total_nodes, 10);
}

#[test]
fn simulation_refuses_a_configuration_that_does_not_fit() {
    assert_eq!(
        Simulation::new(settings(3, 4, 1, 1, 1), Strategy::Baseline).err(),
        Some(SimError::ConfigError)
    );
    assert_eq!(simulate(settings(10, 3, 4, 0, 6), Strategy::Baseline).err(), Some(SimError::ConfigError));
    assert_eq!(scenarios::basic::run(&settings(10, 3, 0, 3, 6)).err(), Some(SimError::ConfigError));
}

#[test]
fn committee_larger_than_the_node_set_fails_the_sampling() {
    let config = settings(3, 1, 4, 2, 5);
    assert_eq!(simulate(config, Strategy::Baseline).err(), Some(SimError::SamplingError));
    let mut sim = Simulation::new(config, Strategy::Baseline).unwrap();
    assert_eq!(sim.step(), Err(SimError::SamplingError));
    assert_eq!(sim.height(), 0);
    assert!(sim.blobs().is_empty());
    assert!(sim.pending().is_empty());
    assert_eq!(simulate(settings(0, 0, 1, 1, 1), Strategy::Baseline).err(), Some(SimError::SamplingError));
}

#[test]
fn run_without_blocks_samples_nothing() {
    let sim = simulate(settings(3, 1, 4, 2, 0), Strategy::Baseline).unwrap();
    assert_eq!(sim.height(), 0);
    assert_eq!(sim.phase(), Phase::Finished);
}

#[test]
fn censored_votes_wait_for_an_honest_proposer() {
    let mut sim = Simulation::new(settings(4, 2, 1, 5, 3), Strategy::VoteCensorship).unwrap();
    sim.apply_block(2, vec![0]);
    assert_eq!(tallies(&sim), vec![(0, 0)]);
    assert_eq!(sim.blocks()[0].votes[0].votes, vec![None]);
    assert_eq!(sim.blocks()[0].votes[0].buffered_votes, 1);
    sim.apply_block(3, vec![1]);
    assert_eq!(tallies(&sim), vec![(0, 0), (0, 0)]);
    assert_eq!(sim.blocks()[1].votes[0].buffered_votes, 2);
    assert_eq!(sim.blocks()[1].votes[1].buffered_votes, 1);
    sim.apply_block(0, vec![0]);
    assert_eq!(tallies(&sim), vec![(3, 0), (2, 0), (1, 0)]);
    assert_eq!(sim.blocks()[2].votes[0].votes, vec![Some(true)]);
    assert_eq!(sim.blocks()[2].votes[0].buffered_votes, 0);
    assert_eq!(sim.phase(), Phase::Finished);
}

#[test]
fn censorship_counts_malicious_votes_at_once() {
    let mut sim = Simulation::new(settings(4, 2, 2, 5, 2), Strategy::VoteCensorship).unwrap();
    sim.apply_block(3, vec![2, 0]);
    assert_eq!(tallies(&sim), vec![(0, 1)]);
    assert_eq!(sim.blocks()[0].votes[0].votes, vec![Some(false), None]);
    sim.apply_block(1, vec![3, 2]);
    assert_eq!(tallies(&sim), vec![(1, 3), (0, 2)]);
}

#[test]
fn buffered_votes_of_a_confirmed_blob_are_dropped() {
    let mut sim = Simulation::new(settings(4, 2, 1, 1, 3), Strategy::VoteCensorship).unwrap();
    sim.apply_block(2, vec![0]);
    assert!(sim.blobs()[0].is_confirmed);
    assert_eq!(sim.blocks()[0].votes[0].buffered_votes, 1);
    sim.apply_block(0, vec![0]);
    assert_eq!(tallies(&sim), vec![(0, 0), (1, 0)]);
}

#[test]
fn withholding_turns_at_the_activation_height() {
    let strategy = Strategy::DataWithholding { activation_height: 2 };
    let mut sim = Simulation::new(settings(4, 2, 2, 5, 3), strategy).unwrap();
    sim.apply_block(0, vec![0, 2]);
    assert_eq!(tallies(&sim), vec![(1, 1)]);
    assert_eq!(sim.blocks()[0].votes[0].votes, vec![Some(true), Some(false)]);
    sim.apply_block(0, vec![0, 2]);
    assert_eq!(tallies(&sim), vec![(1, 1), (0, 0)]);
    assert_eq!(sim.blocks()[1].votes[0].votes, vec![Some(false), Some(true)]);
    assert_eq!(sim.blocks()[1].votes[1].votes, vec![Some(false), Some(true)]);
    sim.apply_block(0, vec![1, 3]);
    assert_eq!(tallies(&sim), vec![(1, 1), (0, 0), (0, 0)]);
}

#[test]
fn smart_withholding_turns_at_the_threshold() {
    let strategy = Strategy::SmartDataWithholding { threshold: 2 };
    let mut sim = Simulation::new(settings(4, 2, 3, 5, 3), strategy).unwrap();
    sim.apply_block(0, vec![2, 0, 1]);
    assert_eq!(tallies(&sim), vec![(2, 0)]);
    assert_eq!(sim.blocks()[0].votes[0].votes, vec![Some(true), Some(true), Some(true)]);
    sim.apply_block(0, vec![0, 2, 3]);
    assert_eq!(tallies(&sim), vec![(3, 2), (1, 0)]);
    assert_eq!(sim.blocks()[1].votes[0].votes, vec![Some(true), Some(false), Some(false)]);
    assert_eq!(sim.blocks()[1].votes[1].votes, vec![Some(true), Some(true), Some(true)]);
    sim.apply_block(0, vec![3, 2, 1]);
    assert_eq!(tallies(&sim), vec![(4, 4), (2, 0), (1, 0)]);
    assert_eq!(sim.blocks()[2].votes[0].votes, vec![Some(false), Some(false), Some(true)]);
}

#[test]
fn block_records_what_was_applied() {
    let mut sim = Simulation::new(settings(4, 2, 2, 2, 3), Strategy::Baseline).unwrap();
    sim.apply_block(3, vec![1, 2]);
    sim.apply_block(1, vec![3, 0]);
    let block = &sim.blocks()[1];
    assert_eq!(block.number, 2);
    assert_eq!(block.proposer, 1);
    assert_eq!(block.selected_nodes, vec![3, 0]);
    assert_eq!(block.votes.len(), 2);
    assert_eq!(block.votes[0].blob_id, 0);
    assert_eq!(block.votes[1].blob_id, 1);
    assert_eq!(block.votes[1].votes, vec![Some(false), Some(true)]);
    assert_eq!(sim.blobs()[0].proposer, 3);
    assert_eq!(sim.blobs()[0].proposer_status, NodeKind::Malicious);
    assert_eq!(sim.blobs()[1].proposer, 1);
    assert_eq!(sim.blobs()[1].proposer_status, NodeKind::Honest);
    assert_eq!(sim.pending(), &vec![1]);
    sim.apply_block(0, vec![0, 1]);
    assert_eq!(sim.blocks()[2].votes.len(), 2);
    assert_eq!(sim.blocks()[2].votes[0].blob_id, 1);
    assert_eq!(tallies(&sim), vec![(2, 2), (3, 1), (2, 0)]);
}

#[test]
fn every_blob_is_confirmed_once_at_its_depth() {
    let config = settings(20, 5, 4, 3, 8);
    let mut sim = Simulation::new(config, Strategy::Baseline).unwrap();
    for height in 1..=8 {
        let phase = sim.step().unwrap();
        assert_eq!(phase == Phase::Finished, height == 8);
        assert_eq!(sim.height(), height);
        assert_eq!(sim.blobs().len(), height);
        for blob in sim.blobs() {
            assert_eq!(blob.id, blob.creation_height);
            assert_eq!(blob.is_confirmed, height >= blob.creation_height + 3);
        }
    }
    assert_eq!(sim.step(), Ok(Phase::Finished));
    assert_eq!(sim.height(), 8);
}

#[test]
fn confirmed_blobs_keep_their_tallies() {
    let mut sim = Simulation::new(settings(20, 5, 4, 2, 6), Strategy::VoteCensorship).unwrap();
    let mut seen: Vec<Blob> = Vec::new();
    for _ in 0..6 {
        sim.step().unwrap();
        for old in &seen {
            if old.is_confirmed {
                assert_eq!(&sim.blobs()[old.id], old);
            }
        }
        seen = sim.blobs().clone();
    }
}

#[test]
fn pending_set_holds_the_unconfirmed_blobs() {
    let mut sim = Simulation::new(settings(20, 5, 4, 3, 8), Strategy::SmartDataWithholding { threshold: 2 }).unwrap();
    for _ in 0..8 {
        sim.step().unwrap();
        let unconfirmed: Vec<usize> =
            sim.blobs().iter().filter(|blob| !blob.is_confirmed).map(|blob| blob.id).collect();
        assert_eq!(sim.pending(), &unconfirmed);
    }
    assert_eq!(sim.pending(), &vec![6, 7]);
}

#[test]
fn run_shorter_than_the_depth_confirms_nothing() {
    let sim = scenarios::basic::run(&settings(20, 5, 4, 4, 3)).unwrap();
    assert_eq!(sim.height(), 3);
    assert!(sim.blobs().iter().all(|blob| !blob.is_confirmed));
    assert_eq!(sim.pending(), &vec![0, 1, 2]);
}

#[test]
fn run_as_long_as_the_depth_confirms_the_first_blob() {
    let sim = scenarios::basic::run(&settings(20, 5, 4, 4, 4)).unwrap();
    let confirmed: Vec<usize> =
        sim.blobs().iter().filter(|blob| blob.is_confirmed).map(|blob| blob.id).collect();
    assert_eq!(confirmed, vec![0]);
    assert_eq!(sim.pending(), &vec![1, 2, 3]);
}

#[test]
fn depth_one_confirms_each_blob_in_its_own_block() {
    let sim = scenarios::basic::run(&settings(20, 5, 4, 1, 3)).unwrap();
    assert!(sim.blobs().iter().all(|blob| blob.is_confirmed));
    assert!(sim.pending().is_empty());
    for blob in sim.blobs() {
        assert_eq!(blob.votes_honest + blob.votes_malicious, 4);
    }
}

#[test]
fn baseline_run_conserves_votes() {
    let sim = scenarios::basic::run(&settings(10, 3, 4, 3, 6)).unwrap();
    let totals: Vec<usize> =
        sim.blobs().iter().map(|blob| blob.votes_honest + blob.votes_malicious).collect();
    assert_eq!(totals, vec![12, 12, 12, 12, 8, 4]);
    for block in sim.blocks() {
        for entry in &block.votes {
            assert_eq!(entry.votes.len(), 4);
            assert!(entry.votes.iter().all(|vote| vote.is_some()));
        }
    }
}

#[test]
fn committees_of_a_run_are_well_formed() {
    let sim = scenarios::vote_censorship::run(&settings(12, 4, 5, 3, 30)).unwrap();
    assert_eq!(sim.blocks().len(), 30);
    for (index, block) in sim.blocks().iter().enumerate() {
        assert_eq!(block.number, index + 1);
        assert!(block.proposer < 12);
        assert_eq!(block.selected_nodes.len(), 5);
        for (at, id) in block.selected_nodes.iter().enumerate() {
            assert!(*id < 12);
            assert!(!block.selected_nodes[..at].contains(id));
        }
    }
}

#[test]
fn same_seed_gives_the_same_run() {
    let config = settings(1000, 300, 10, 5, 20);
    for strategy in [
        Strategy::Baseline,
        Strategy::VoteCensorship,
        Strategy::DataWithholding { activation_height: 10 },
        Strategy::SmartDataWithholding { threshold: 20 },
    ] {
        let first = simulate(config, strategy).unwrap();
        let second = simulate(config, strategy).unwrap();
        assert_eq!(first.blocks(), second.blocks());
        assert_eq!(first.blobs(), second.blobs());
        assert_eq!(first.pending(), second.pending());
    }
}

#[test]
fn another_seed_gives_another_run() {
    let config = settings(1000, 300, 10, 5, 20);
    let mut other = config;
    other.random_seed = 43;
    let first = simulate(config, Strategy::Baseline).unwrap();
    let second = simulate(other, Strategy::Baseline).unwrap();
    assert_ne!(first.blocks(), second.blocks());
}

#[test]
fn scenarios_take_their_parameters_from_the_settings() {
    let mut config = settings(10, 3, 4, 3, 10);
    config.k_f = 4;
    config.smart_withholding_threshold = 7;
    assert_eq!(scenarios::basic::run(&config).unwrap().strategy(), Strategy::Baseline);
    assert_eq!(
        scenarios::vote_censorship::run(&config).unwrap().strategy(),
        Strategy::VoteCensorship
    );
    assert_eq!(
        scenarios::data_withholding::run(&config).unwrap().strategy(),
        Strategy::DataWithholding { activation_height: 6 }
    );
    assert_eq!(
        scenarios::smart_data_withholding::run(&config).unwrap().strategy(),
        Strategy::SmartDataWithholding { threshold: 7 }
    );
}

#[test]
fn withholding_run_stops_counting_at_the_activation_height() {
    let mut config = settings(10, 3, 4, 20, 10);
    config.k_f = 4;
    let sim = scenarios::data_withholding::run(&config).unwrap();
    for blob in sim.blobs() {
        let blocks_before = 6usize.saturating_sub(blob.id + 1);
        assert_eq!(blob.votes_honest + blob.votes_malicious, 4 * blocks_before);
    }
    for block in sim.blocks() {
        let nodes = NodeSet::new(10, 3).unwrap();
        for entry in &block.votes {
            for (at, vote) in entry.votes.iter().enumerate() {
                let honest = nodes.is_honest(block.selected_nodes[at]);
                assert_eq!(*vote, Some(honest == (block.number < 6)));
            }
        }
    }
}
