//! The simulation driver: one block after the other, each of them creating a
//! blob, letting a committee vote on the pending blobs and applying the
//! depth rule.

use crate::error::SimError;
use crate::models::blob::Blob;
use crate::models::block::{block_views, vote_views, BlobVotes, BlobVotesView, Block, BlockView};
use crate::models::settings::Settings;
use crate::nodes::{NodeKind, NodeSet};
use crate::sampler::{next_stream, seeded_choice, seeded_pick, CommitteeSampler};
use crate::strategy::{
    honest_members, honesty, law_baseline_conserves_votes, law_smart_threshold,
    law_smart_threshold_is_final, law_votes_bounded, law_withholding_boundary, malicious_members,
    members_of_kind, tally_after, votes_cast, Count, Credit, Strategy, Tally, VoteContext,
};
use crate::tracker::{
    ascending, confirmed, dense, due, pending_matches, with_votes, ConfirmationTracker,
};
use vstd::prelude::*;

verus! {

/// The state of a run as a mathematical value.
#[verifier::ext_equal]
pub struct SimState {
    /// All blobs created so far, the blob with identifier `i` at `i`.
    pub blobs: Seq<Blob>,
    /// The identifiers of the unconfirmed blobs, ascending.
    pub pending: Seq<usize>,
    /// For each blob the honest votes that wait for an honest proposer.
    pub buffer: Seq<usize>,
    /// The blocks produced so far.
    pub blocks: Seq<BlockView>,
    /// The stream on which the next random draw will run.
    pub stream: u64,
}

impl SimState {
    /// The number of blocks produced so far.
    pub open spec fn height(self) -> nat {
        self.blocks.len()
    }

    /// The counts of blob `id`.
    pub open spec fn count(self, id: int) -> Count {
        Count {
            honest: self.blobs[id].votes_honest as nat,
            malicious: self.blobs[id].votes_malicious as nat,
            buffered: self.buffer[id] as nat,
        }
    }
}

/// The state before the first block.
pub open spec fn initial_state() -> SimState {
    SimState {
        blobs: Seq::empty(),
        pending: Seq::empty(),
        buffer: Seq::empty(),
        blocks: Seq::empty(),
        stream: 0,
    }
}

/// The pool that proposers and committees are drawn from: all identities.
pub open spec fn identity_pool(total: nat) -> Seq<usize> {
    Seq::new(total, |i: int| i as usize)
}

/// The state once the blob of the next block is registered.
pub open spec fn created(s: SimState, proposer: usize, status: NodeKind) -> SimState {
    let id = s.blobs.len() as usize;
    SimState {
        blobs: s.blobs.push(Blob { proposer, proposer_status: status, ..Blob::new_spec(id) }),
        pending: s.pending.push(id),
        buffer: s.buffer.push(0),
        ..s
    }
}

/// The counts of blob `id` once the committee of a block has voted on it.
pub open spec fn end_count(
    strategy: Strategy,
    ctx: VoteContext,
    members: Seq<bool>,
    s: SimState,
    id: int,
) -> Count {
    tally_after(strategy, ctx, members, strategy.opening(ctx, s.count(id)))
}

/// The state once the committee has voted: every pending blob has the
/// counts that the strategy gives it, and no other blob is touched.
pub open spec fn voted(strategy: Strategy, ctx: VoteContext, members: Seq<bool>, s: SimState)
    -> SimState {
    SimState {
        blobs: Seq::new(
            s.blobs.len(),
            |i: int|
                if s.pending.contains(i as usize) {
                    with_votes(
                        s.blobs[i],
                        end_count(strategy, ctx, members, s, i).honest as usize,
                        end_count(strategy, ctx, members, s, i).malicious as usize,
                    )
                } else {
                    s.blobs[i]
                },
        ),
        buffer: Seq::new(
            s.buffer.len(),
            |i: int|
                if s.pending.contains(i as usize) {
                    end_count(strategy, ctx, members, s, i).buffered as usize
                } else {
                    s.buffer[i]
                },
        ),
        ..s
    }
}

/// What the block records of the vote: one entry per pending blob, in the
/// order of the pending set.
pub open spec fn recorded_votes(
    strategy: Strategy,
    ctx: VoteContext,
    members: Seq<bool>,
    s: SimState,
) -> Seq<BlobVotesView> {
    Seq::new(
        s.pending.len(),
        |k: int|
            BlobVotesView {
                blob_id: s.pending[k],
                votes: votes_cast(
                    strategy,
                    ctx,
                    members,
                    strategy.opening(ctx, s.count(s.pending[k] as int)),
                ),
                buffered_votes: end_count(
                    strategy,
                    ctx,
                    members,
                    s,
                    s.pending[k] as int,
                ).buffered as usize,
            },
    )
}

/// The state once the depth rule has been applied at block `number`: the
/// blob that it names is confirmed, leaves the pending set, and what waited
/// for it in the buffer is dropped.
pub open spec fn settled(s: SimState, number: usize, depth: usize) -> SimState {
    if due(s.blobs.len(), number, depth) {
        let id = number - depth;
        SimState {
            blobs: s.blobs.update(id, confirmed(s.blobs[id])),
            pending: s.pending.remove_value(id as usize),
            buffer: s.buffer.update(id, 0),
            ..s
        }
    } else {
        s
    }
}

/// The block that `proposer` produces in state `s` with `committee`.
pub open spec fn block_context(nodes: NodeSet, s: SimState, proposer: usize) -> VoteContext {
    VoteContext {
        block_number: (s.blocks.len() + 1) as usize,
        proposer_honest: nodes.honest(proposer as int),
    }
}

/// One step of the engine: the state after the block that `proposer`
/// produces in state `s` with `committee`.
pub open spec fn step_of(
    nodes: NodeSet,
    strategy: Strategy,
    depth: usize,
    s: SimState,
    proposer: usize,
    committee: Seq<usize>,
) -> SimState {
    let ctx = block_context(nodes, s, proposer);
    let members = honesty(nodes, committee);
    let opened = created(s, proposer, nodes.kind_of(proposer as int));
    let closed = settled(voted(strategy, ctx, members, opened), ctx.block_number, depth);
    SimState {
        blocks: s.blocks.push(
            BlockView {
                number: ctx.block_number,
                proposer,
                selected_nodes: committee,
                votes: recorded_votes(strategy, ctx, members, opened),
            },
        ),
        ..closed
    }
}

/// The node partition that a configuration describes.
pub open spec fn nodes_of(config: Settings) -> NodeSet {
    NodeSet::of(config.total_nodes, config.malicious_nodes)
}

/// The number of blocks that have voted on blob `id` when `height` blocks
/// are produced: the blob is voted on from the block that creates it until
/// it is `depth` blocks deep.
pub open spec fn blocks_voted(id: int, height: int, depth: int) -> int {
    if height - id < depth {
        height - id
    } else {
        depth
    }
}

/// Whether the block at position `at` of a run, which has the number
/// `at + 1`, votes on blob `id`: from the block that creates the blob until
/// the blob is `depth` blocks deep.
pub open spec fn votes_on(at: int, id: int, depth: int) -> bool {
    id <= at < id + depth
}

/// Among the first `upto` blocks, the number of committee members, honest
/// (`honest`) or not (`!honest`), of the blocks that vote on blob `id`.
pub open spec fn members_seen(
    nodes: NodeSet,
    blocks: Seq<BlockView>,
    id: int,
    depth: int,
    honest: bool,
    upto: int,
) -> nat
    decreases upto,
{
    if upto <= 0 {
        0
    } else {
        members_seen(nodes, blocks, id, depth, honest, upto - 1) + if votes_on(
            upto - 1,
            id,
            depth,
        ) {
            members_of_kind(honesty(nodes, blocks[upto - 1].selected_nodes), honest)
        } else {
            0
        }
    }
}

/// The registry is dense and the pending set holds exactly the unconfirmed
/// blobs, in ascending order.
pub open spec fn registry_wf(s: SimState) -> bool {
    &&& dense(s.blobs)
    &&& ascending(s.pending)
    &&& pending_matches(s.blobs, s.pending)
}

/// What holds of the state of every run.
pub open spec fn state_wf(config: Settings, strategy: Strategy, s: SimState) -> bool {
    let height = s.blocks.len() as int;
    let size = config.nodes_per_block as int;
    let depth = config.confirmation_depth as int;
    &&& s.blobs.len() == height
    &&& s.buffer.len() == height
    &&& height <= config.total_blocks
    &&& forall|i: int|
        0 <= i < height ==> ((#[trigger] s.blobs[i]).is_confirmed <==> i + depth <= height)
    &&& forall|i: int| 0 <= i < height ==> (#[trigger] s.count(i)).total() <= size * height
    &&& strategy == Strategy::Baseline ==> forall|i: int|
        0 <= i < height ==> (#[trigger] s.blobs[i]).total_votes() == size * blocks_voted(
            i,
            height,
            depth,
        ) && s.blobs[i].votes_honest == members_seen(
            nodes_of(config),
            s.blocks,
            i,
            depth,
            true,
            height,
        ) && s.blobs[i].votes_malicious == members_seen(
            nodes_of(config),
            s.blocks,
            i,
            depth,
            false,
            height,
        )
    &&& forall|j: int|
        0 <= j < height ==> (#[trigger] s.blocks[j]).number == j + 1
            && s.blocks[j].selected_nodes.len() == size && s.blocks[j].wf()
            && s.blocks[j].votes.len() <= j + 1
}

/// The votes that the honest members (`honest`) or the others (`!honest`)
/// have cast in the first `upto` blocks, counted or not: each member of a
/// committee casts one vote on each blob that its block votes on.
pub open spec fn votes_cast_by(nodes: NodeSet, blocks: Seq<BlockView>, honest: bool, upto: int)
    -> nat
    decreases upto,
{
    if upto <= 0 {
        0
    } else {
        votes_cast_by(nodes, blocks, honest, upto - 1) + blocks[upto - 1].votes.len()
            * members_of_kind(honesty(nodes, blocks[upto - 1].selected_nodes), honest)
    }
}

/// Among the first `upto` blobs, the number of those that have honest votes
/// waiting in the buffer.
pub open spec fn waiting_blobs(buffer: Seq<usize>, upto: int) -> nat
    decreases upto,
{
    if upto <= 0 {
        0
    } else {
        waiting_blobs(buffer, upto - 1) + if buffer[upto - 1] > 0 {
            1nat
        } else {
            0nat
        }
    }
}

/// A committee of a run: `size` pairwise different identities below `total`.
pub open spec fn committee_wf(committee: Seq<usize>, total: nat, size: nat) -> bool {
    &&& committee.len() == size
    &&& committee.no_duplicates()
    &&& forall|k: int| 0 <= k < committee.len() ==> #[trigger] committee[k] < total
}

/// One step of a run: the proposer is drawn from all identities on the next
/// stream of the run's generator, the committee on the stream after it.
pub open spec fn drawn_step(config: Settings, strategy: Strategy, s: SimState) -> SimState {
    let pool = identity_pool(config.total_nodes as nat);
    let proposer = match seeded_pick(config.random_seed, s.stream, pool) {
        Some(id) => id,
        None => 0,
    };
    let committee = seeded_choice(
        config.random_seed,
        next_stream(s.stream),
        pool,
        config.nodes_per_block,
    );
    step_of(
        nodes_of(config),
        strategy,
        config.confirmation_depth,
        SimState { stream: next_stream(next_stream(s.stream)), ..s },
        proposer,
        committee,
    )
}

/// The state of the run of `config` under `strategy` after `height` blocks.
pub open spec fn state_at(config: Settings, strategy: Strategy, height: nat) -> SimState
    decreases height,
{
    if height == 0 {
        initial_state()
    } else {
        drawn_step(config, strategy, state_at(config, strategy, (height - 1) as nat))
    }
}

/// Whether the run of `config` can draw its committees: it asks for no more
/// members than there are nodes.
pub open spec fn can_sample(config: Settings) -> bool {
    config.nodes_per_block <= config.total_nodes
}

/// Whether a run goes on or has produced all its blocks.
#[derive(Debug, Clone, Copy, PartialEq, Eq, Structural)]
pub enum Phase {
    Running,
    Finished,
}

/// A run: its configuration, its generator and all that it has recorded.
#[derive(Debug)]
pub struct Simulation {
    config: Settings,
    strategy: Strategy,
    nodes: NodeSet,
    pool: Vec<usize>,
    sampler: CommitteeSampler,
    tracker: ConfirmationTracker,
    buffer: Vec<usize>,
    blocks: Vec<Block>,
}

impl View for Simulation {
    type V = SimState;

    closed spec fn view(&self) -> SimState {
        SimState {
            blobs: self.tracker.registry(),
            pending: self.tracker.pending_ids(),
            buffer: self.buffer@,
            blocks: block_views(self.blocks@),
            stream: self.sampler.stream_of(),
        }
    }
}

impl Simulation {
    /// The configuration of the run.
    pub closed spec fn settings(&self) -> Settings {
        self.config
    }

    /// The strategy of the run.
    pub closed spec fn rule(&self) -> Strategy {
        self.strategy
    }

    /// The run has produced all its blocks.
    pub open spec fn finished(&self) -> bool {
        self@.height() >= self.settings().total_blocks
    }

    /// The invariant of a run.
    pub closed spec fn wf(&self) -> bool {
        &&& self.tracker.wf()
        &&& self.tracker.depth_of() == self.config.confirmation_depth
        &&& self.config.consistent()
        &&& self.nodes == nodes_of(self.config)
        &&& self.pool@ == identity_pool(self.config.total_nodes as nat)
        &&& self.sampler.seed_of() == self.config.random_seed
        &&& state_wf(self.config, self.strategy, self@)
    }

    /// A run of `config` under `strategy` that has produced no block yet.
    pub fn new(config: Settings, strategy: Strategy) -> (r: Result<Simulation, SimError>)
        ensures
            !config.consistent() ==> r is Err && r->Err_0 == SimError::ConfigError,
            config.consistent() ==> r is Ok,
            r matches Ok(sim) ==> sim.wf() && sim@ == initial_state() && sim.settings() == config
                && sim.rule() == strategy,
    {
        match config.validate() {
            Err(e) => {
                return Err(e);
            },
            Ok(()) => {},
        }
        let nodes = match NodeSet::new(config.total_nodes, config.malicious_nodes) {
            Err(e) => {
                return Err(e);
            },
            Ok(nodes) => nodes,
        };
        let mut pool: Vec<usize> = Vec::new();
        let mut i: usize = 0;
        while i < config.total_nodes
            invariant
                i <= config.total_nodes,
                pool@ == identity_pool(i as nat),
            decreases config.total_nodes - i,
        {
            pool.push(i);
            i += 1;
        }
        let sim = Simulation {
            config,
            strategy,
            nodes,
            pool,
            sampler: CommitteeSampler::new(config.random_seed),
            tracker: ConfirmationTracker::new(config.confirmation_depth),
            buffer: Vec::new(),
            blocks: Vec::new(),
        };
        proof {
            assert(sim@ == initial_state());
        }
        Ok(sim)
    }

    /// The configuration of the run.
    pub fn config(&self) -> (config: &Settings)
        ensures
            *config == self.settings(),
    {
        &self.config
    }

    /// The strategy of the run.
    pub fn strategy(&self) -> (strategy: Strategy)
        ensures
            strategy == self.rule(),
    {
        self.strategy
    }

    /// The blocks produced so far.
    pub fn blocks(&self) -> (blocks: &Vec<Block>)
        ensures
            block_views(blocks@) == self@.blocks,
    {
        &self.blocks
    }

    /// All blobs created so far, the blob with identifier `i` at `i`.
    pub fn blobs(&self) -> (blobs: &Vec<Blob>)
        ensures
            blobs@ == self@.blobs,
    {
        self.tracker.blobs()
    }

    /// The identifiers of the unconfirmed blobs, ascending.
    pub fn pending(&self) -> (pending: &Vec<usize>)
        ensures
            pending@ == self@.pending,
    {
        self.tracker.pending()
    }

    /// For each blob the honest votes that wait for an honest proposer.
    pub fn buffered(&self) -> (buffer: &Vec<usize>)
        ensures
            buffer@ == self@.buffer,
    {
        &self.buffer
    }

    /// The votes that the honest members and the other members of all
    /// committees have cast so far, counted in a tally or not.
    pub fn votes_cast_totals(&self) -> (r: (u128, u128))
        requires
            self.wf(),
        ensures
            r.0 == votes_cast_by(nodes_of(self.settings()), self@.blocks, true, self@.height() as int),
            r.1 == votes_cast_by(
                nodes_of(self.settings()),
                self@.blocks,
                false,
                self@.height() as int,
            ),
    {
        let ghost views = self@.blocks;
        let ghost size = self.config.nodes_per_block as int;
        let mut honest_total: u128 = 0;
        let mut malicious_total: u128 = 0;
        let mut j: usize = 0;
        proof {
            let height = views.len() as int;
            assert(size * height <= size * self.config.total_blocks) by (nonlinear_arith)
                requires
                    0 <= size,
                    0 <= height <= self.config.total_blocks,
            ;
        }
        while j < self.blocks.len()
            invariant
                j <= self.blocks.len(),
                self.wf(),
                views == self@.blocks,
                views.len() == self.blocks.len(),
                size == self.config.nodes_per_block,
                size * views.len() <= usize::MAX,
                honest_total == votes_cast_by(self.nodes, views, true, j as int),
                malicious_total == votes_cast_by(self.nodes, views, false, j as int),
                honest_total + malicious_total <= j * usize::MAX,
            decreases self.blocks.len() - j,
        {
            let block = &self.blocks[j];
            let ghost members = honesty(self.nodes, block.selected_nodes@);
            let mut honest_count: usize = 0;
            let mut i: usize = 0;
            while i < block.selected_nodes.len()
                invariant
                    i <= block.selected_nodes.len(),
                    members == honesty(self.nodes, block.selected_nodes@),
                    honest_count == honest_members(members.take(i as int)),
                    honest_count <= i,
                decreases block.selected_nodes.len() - i,
            {
                proof {
                    assert(members.take(i + 1).drop_last() =~= members.take(i as int));
                }
                if self.nodes.is_honest(block.selected_nodes[i]) {
                    honest_count += 1;
                }
                i += 1;
            }
            let entries = block.votes.len() as u128;
            proof {
                assert(members.take(i as int) =~= members);
                assert(views[j as int] == block@);
                let count = honest_count as int;
                let rest = block.selected_nodes.len() - honest_count;
                let e = block.votes.len() as int;
                assert(e * count + e * rest == e * size) by (nonlinear_arith)
                    requires
                        count + rest == size,
                ;
                assert(e * size <= size * views.len()) by (nonlinear_arith)
                    requires
                        0 <= e <= views.len(),
                        0 <= size,
                ;
                assert(0 <= e * count && 0 <= e * rest) by (nonlinear_arith)
                    requires
                        0 <= e,
                        0 <= count,
                        0 <= rest,
                ;
                lemma_word_sum(j as int, honest_total + malicious_total, e * size);
            }
            honest_total += entries * (honest_count as u128);
            malicious_total += entries * ((block.selected_nodes.len() - honest_count) as u128);
            j += 1;
        }
        (honest_total, malicious_total)
    }

    /// The number of blobs that have honest votes waiting in the buffer.
    pub fn waiting_blobs(&self) -> (count: usize)
        ensures
            count == waiting_blobs(self@.buffer, self@.buffer.len() as int),
    {
        let mut count: usize = 0;
        let mut i: usize = 0;
        while i < self.buffer.len()
            invariant
                i <= self.buffer.len(),
                count == waiting_blobs(self.buffer@, i as int),
                count <= i,
            decreases self.buffer.len() - i,
        {
            if self.buffer[i] > 0 {
                count += 1;
            }
            i += 1;
        }
        count
    }

    /// The number of blocks produced so far.
    pub fn height(&self) -> (height: usize)
        ensures
            height == self@.height(),
    {
        self.blocks.len()
    }

    /// `Finished` once the run has produced all its blocks.
    pub fn phase(&self) -> (phase: Phase)
        ensures
            phase == Phase::Finished <==> self.finished(),
    {
        if self.blocks.len() >= self.config.total_blocks {
            Phase::Finished
        } else {
            Phase::Running
        }
    }

    /// Produces the next block of the run: draws its proposer and its
    /// committee and applies them. A finished run stays as it is. A run that
    /// asks for a larger committee than there are nodes fails, and stays as
    /// it is.
    pub fn step(&mut self) -> (r: Result<Phase, SimError>)
        requires
            old(self).wf(),
        ensures
            final(self).wf(),
            final(self).settings() == old(self).settings(),
            final(self).rule() == old(self).rule(),
            old(self).finished() ==> r == Ok::<Phase, SimError>(Phase::Finished),
            !old(self).finished() && !can_sample(old(self).settings()) ==> r == Err::<
                Phase,
                SimError,
            >(SimError::SamplingError),
            !old(self).finished() && can_sample(old(self).settings()) ==> r is Ok,
            r is Ok && !old(self).finished() ==> {
                &&& r->Ok_0 == Phase::Finished <==> final(self).finished()
                &&& final(self)@ == drawn_step(old(self).settings(), old(self).rule(), old(self)@)
                &&& committee_wf(
                    final(self)@.blocks.last().selected_nodes,
                    old(self).settings().total_nodes as nat,
                    old(self).settings().nodes_per_block as nat,
                )
            },
            r is Err || old(self).finished() ==> final(self)@ == old(self)@,
    {
        if self.blocks.len() >= self.config.total_blocks {
            return Ok(Phase::Finished);
        }
        if self.config.nodes_per_block > self.pool.len() {
            return Err(SimError::SamplingError);
        }
        let ghost s0 = self@;
        let proposer = match self.sampler.pick(&self.pool) {
            Ok(id) => id,
            Err(e) => {
                return Err(e);
            },
        };
        let committee = match self.sampler.sample(&self.pool, self.config.nodes_per_block) {
            Ok(picked) => picked,
            Err(e) => {
                return Err(e);
            },
        };
        proof {
            let pool = self.pool@;
            assert(pool.no_duplicates());
            assert forall|k: int| 0 <= k < committee@.len() implies #[trigger] committee@[k]
                < self.config.total_nodes by {
                assert(pool.contains(committee@[k]));
            }
            assert(self@ == SimState { stream: next_stream(next_stream(s0.stream)), ..s0 });
            assert forall|i: int| 0 <= i < self@.blocks.len() implies (#[trigger] self@.count(
                i,
            )).total() <= self.config.nodes_per_block * self@.blocks.len() by {
                assert(self@.count(i) == s0.count(i));
            }
        }
        self.apply_block(proposer, committee);
        Ok(self.phase())
    }

    /// Produces the next block with the given proposer and committee: the
    /// block's blob is created, the committee votes on every pending blob as
    /// the strategy says, the depth rule is applied, and the block is
    /// recorded.
    pub fn apply_block(&mut self, proposer: usize, committee: Vec<usize>)
        requires
            old(self).wf(),
            !old(self).finished(),
            committee.len() == old(self).settings().nodes_per_block,
        ensures
            final(self).wf(),
            final(self).settings() == old(self).settings(),
            final(self).rule() == old(self).rule(),
            final(self)@ == step_of(
                nodes_of(old(self).settings()),
                old(self).rule(),
                old(self).settings().confirmation_depth,
                old(self)@,
                proposer,
                committee@,
            ),
    {
        let ghost s0 = self@;
        let ghost size = self.config.nodes_per_block as int;
        let ghost members = honesty(self.nodes, committee@);
        let number = self.blocks.len() + 1;
        let ctx = VoteContext { block_number: number, proposer_honest: self.nodes.is_honest(proposer) };
        let status = self.nodes.kind(proposer);
        let ghost s1 = created(s0, proposer, status);
        let ghost s2 = voted(self.strategy, ctx, members, s1);
        proof {
            lemma_capacity(size, s0.blocks.len() as int, self.config.total_blocks as int);
            assert forall|i: int| 0 <= i < s1.blobs.len() implies (#[trigger] s1.count(i)).total()
                + size <= usize::MAX by {
                if i < s0.blobs.len() {
                    assert(s0.count(i).total() <= size * s0.blocks.len());
                }
            }
        }
        self.tracker.create(proposer, status);
        self.buffer.push(0);
        assert(self@ == s1);
        let mut entries: Vec<BlobVotes> = Vec::new();
        let n = self.tracker.pending().len();
        let mut k: usize = 0;
        while k < n
            invariant
                self.config == old(self).config,
                self.strategy == old(self).strategy,
                self.nodes == old(self).nodes,
                self.pool@ == old(self).pool@,
                self.sampler == old(self).sampler,
                self.blocks@ == old(self).blocks@,
                self.tracker.wf(),
                self.tracker.depth_of() == self.config.confirmation_depth,
                registry_wf(s1),
                self.tracker.pending_ids() == s1.pending,
                self.tracker.registry().len() == s1.blobs.len(),
                self.buffer@.len() == s1.blobs.len(),
                s1.buffer.len() == s1.blobs.len(),
                k <= n == s1.pending.len(),
                committee.len() == size,
                members == honesty(self.nodes, committee@),
                s2 == voted(self.strategy, ctx, members, s1),
                forall|i: int|
                    0 <= i < s1.blobs.len() ==> (#[trigger] s1.count(i)).total() + size
                        <= usize::MAX,
                forall|i: int|
                    0 <= i < s1.blobs.len() ==> #[trigger] self.tracker.registry()[i] == if had_turn(
                        s1,
                        k as int,
                        i,
                    ) {
                        s2.blobs[i]
                    } else {
                        s1.blobs[i]
                    },
                forall|i: int|
                    0 <= i < s1.blobs.len() ==> #[trigger] self.buffer@[i] == if had_turn(
                        s1,
                        k as int,
                        i,
                    ) {
                        s2.buffer[i]
                    } else {
                        s1.buffer[i]
                    },
                entries@.len() == k,
                forall|j: int|
                    0 <= j < k ==> (#[trigger] entries@[j])@ == recorded_votes(
                        self.strategy,
                        ctx,
                        members,
                        s1,
                    )[j],
            decreases n - k,
        {
            let id = self.tracker.pending()[k];
            proof {
                assert(s1.pending.contains(id));
                lemma_turns(s1, k as int, id as int);
                assert(s1.count(id as int).total() + size <= usize::MAX);
            }
            let blob = self.tracker.blobs()[id];
            let start = Tally {
                honest: blob.votes_honest,
                malicious: blob.votes_malicious,
                buffered: self.buffer[id],
            };
            assert(start@ == s1.count(id as int));
            let opened = self.strategy.open(&ctx, start);
            let (votes, after) = self.strategy.cast_votes(&ctx, &self.nodes, &committee, opened);
            let ghost before_registry = self.tracker.registry();
            let ghost before_buffer = self.buffer@;
            self.tracker.record_votes(id, after.honest, after.malicious);
            self.buffer[id] = after.buffered;
            entries.push(BlobVotes { blob_id: id, votes, buffered_votes: after.buffered });
            proof {
                assert(after@ == end_count(self.strategy, ctx, members, s1, id as int));
                assert forall|i: int| 0 <= i < s1.blobs.len() implies #[trigger] self.tracker.registry()[i]
                    == if had_turn(s1, k + 1, i) {
                    s2.blobs[i]
                } else {
                    s1.blobs[i]
                } by {
                    lemma_turns(s1, k as int, i);
                    assert(before_registry[i] == if had_turn(s1, k as int, i) {
                        s2.blobs[i]
                    } else {
                        s1.blobs[i]
                    });
                }
                assert forall|i: int| 0 <= i < s1.blobs.len() implies #[trigger] self.buffer@[i]
                    == if had_turn(s1, k + 1, i) {
                    s2.buffer[i]
                } else {
                    s1.buffer[i]
                } by {
                    lemma_turns(s1, k as int, i);
                    assert(before_buffer[i] == if had_turn(s1, k as int, i) {
                        s2.buffer[i]
                    } else {
                        s1.buffer[i]
                    });
                }
            }
            k += 1;
        }
        proof {
            assert(self@.blobs =~= s2.blobs);
            assert(self@.buffer =~= s2.buffer);
            assert(self@ == s2);
        }
        let confirmed_id = self.tracker.advance(number);
        if let Some(id) = confirmed_id {
            self.buffer[id] = 0;
        }
        assert(self@ == settled(s2, number, self.config.confirmation_depth));
        let block = Block { number, proposer, selected_nodes: committee, votes: entries };
        proof {
            assert(vote_views(block.votes@) =~= recorded_votes(self.strategy, ctx, members, s1));
        }
        self.blocks.push(block);
        proof {
            let target = step_of(
                self.nodes,
                self.strategy,
                self.config.confirmation_depth,
                s0,
                proposer,
                committee@,
            );
            assert(self@.blocks =~= target.blocks);
            assert(self@ == target);
            lemma_step_keeps_state(self.config, self.strategy, s0, proposer, committee@);
        }
    }
}

/// While a block votes blob after blob in the order of the pending set:
/// whether blob `i` has had its turn when the first `k` entries are done.
spec fn had_turn(s: SimState, k: int, i: int) -> bool {
    s.pending.contains(i as usize) && (k < s.pending.len() ==> i < s.pending[k])
}

/// The blob at entry `k` of an ascending pending set has its turn exactly
/// when entry `k` is done, and no other blob has it then.
proof fn lemma_turns(s: SimState, k: int, i: int)
    requires
        ascending(s.pending),
        0 <= k < s.pending.len(),
    ensures
        !had_turn(s, k, s.pending[k] as int),
        had_turn(s, k + 1, s.pending[k] as int),
        i != s.pending[k] && 0 <= i <= usize::MAX ==> had_turn(s, k + 1, i) == had_turn(s, k, i),
{
    assert(s.pending.contains(s.pending[k]));
    if i != s.pending[k] && 0 <= i <= usize::MAX && s.pending.contains(i as usize) {
        let j = choose|j: int| 0 <= j < s.pending.len() && s.pending[j] == i as usize;
        if j < k {
            assert(s.pending[j] < s.pending[k]);
        } else {
            assert(j > k);
            if k + 1 < s.pending.len() && j > k + 1 {
                assert(s.pending[k + 1] < s.pending[j]);
            }
        }
    }
}

/// An identifier is in a pending set with one more entry exactly if it was
/// in the set before or is the new entry.
proof fn lemma_push_contains(pending: Seq<usize>, id: usize, x: usize)
    ensures
        pending.push(id).contains(x) <==> pending.contains(x) || x == id,
{
    let pushed = pending.push(id);
    if pending.contains(x) {
        let k = choose|k: int| 0 <= k < pending.len() && pending[k] == x;
        assert(pushed[k] == x);
    }
    if x == id {
        assert(pushed[pending.len() as int] == x);
    }
    if pushed.contains(x) {
        let k = choose|k: int| 0 <= k < pushed.len() && pushed[k] == x;
        if k < pending.len() {
            assert(pending[k] == x);
        }
    }
}

/// A sum of `count + 1` numbers that each fit a machine word fits 128 bits.
proof fn lemma_word_sum(count: int, sum: int, more: int)
    requires
        0 <= count < usize::MAX,
        0 <= sum <= count * usize::MAX,
        0 <= more <= usize::MAX,
    ensures
        sum + more <= (count + 1) * usize::MAX,
        (count + 1) * usize::MAX <= u128::MAX,
{
    let word = usize::MAX as int;
    assert((count + 1) * word == count * word + word) by (nonlinear_arith);
    assert((count + 1) * word <= 0xFFFF_FFFF_FFFF_FFFF * 0xFFFF_FFFF_FFFF_FFFF) by (nonlinear_arith)
        requires
            0 <= count + 1 <= word,
            word <= 0xFFFF_FFFF_FFFF_FFFF,
    ;
}

/// A committee of `size` members per block never casts more than
/// `size * total` votes in `total` blocks.
proof fn lemma_capacity(size: int, height: int, total: int)
    requires
        0 <= size,
        0 <= height < total,
    ensures
        size * (height + 1) == size * height + size,
        size * (height + 1) <= size * total,
        size * 1 == size,
{
    assert(size * (height + 1) == size * height + size) by (nonlinear_arith);
    assert(size * (height + 1) <= size * total) by (nonlinear_arith)
        requires
            0 <= size,
            height + 1 <= total,
    ;
}

/// Ascending identifiers below a bound are no more than the bound.
proof fn lemma_ascending_length(ids: Seq<usize>, bound: int)
    requires
        0 <= bound,
        ascending(ids),
        forall|k: int| 0 <= k < ids.len() ==> #[trigger] ids[k] < bound,
    ensures
        ids.len() <= bound,
        forall|k: int| 0 <= k < ids.len() ==> #[trigger] ids[k] >= k,
    decreases ids.len(),
{
    if ids.len() > 0 {
        let front = ids.drop_last();
        lemma_ascending_length(front, bound);
        if front.len() > 0 {
            assert(front[front.len() - 1] >= front.len() - 1);
            assert(ids[ids.len() - 2] < ids[ids.len() - 1]);
        }
        assert forall|k: int| 0 <= k < ids.len() implies #[trigger] ids[k] >= k by {
            if k < front.len() {
                assert(front[k] >= k);
            }
        }
        assert(ids[ids.len() - 1] >= ids.len() - 1);
    }
}

/// No block votes on a blob before the block that creates it.
proof fn lemma_members_seen_none(
    nodes: NodeSet,
    blocks: Seq<BlockView>,
    id: int,
    depth: int,
    honest: bool,
    upto: int,
)
    requires
        upto <= id,
    ensures
        members_seen(nodes, blocks, id, depth, honest, upto) == 0,
    decreases upto,
{
    if upto > 0 {
        lemma_members_seen_none(nodes, blocks, id, depth, honest, upto - 1);
    }
}

/// What the first blocks of a run have seen does not change when the run
/// goes on.
proof fn lemma_members_seen_frame(
    nodes: NodeSet,
    blocks: Seq<BlockView>,
    block: BlockView,
    id: int,
    depth: int,
    honest: bool,
    upto: int,
)
    requires
        upto <= blocks.len(),
    ensures
        members_seen(nodes, blocks.push(block), id, depth, honest, upto) == members_seen(
            nodes,
            blocks,
            id,
            depth,
            honest,
            upto,
        ),
    decreases upto,
{
    if upto > 0 {
        lemma_members_seen_frame(nodes, blocks, block, id, depth, honest, upto - 1);
    }
}

/// One step keeps what holds of the state of every run.
pub proof fn lemma_step_keeps_state(
    config: Settings,
    strategy: Strategy,
    s: SimState,
    proposer: usize,
    committee: Seq<usize>,
)
    requires
        config.consistent(),
        state_wf(config, strategy, s),
        registry_wf(s),
        s.blocks.len() < config.total_blocks,
        committee.len() == config.nodes_per_block,
    ensures
        state_wf(
            config,
            strategy,
            step_of(nodes_of(config), strategy, config.confirmation_depth, s, proposer, committee),
        ),
{
    let nodes = nodes_of(config);
    let depth = config.confirmation_depth;
    let size = config.nodes_per_block as int;
    let height = s.blocks.len() as int;
    let ctx = block_context(nodes, s, proposer);
    let number = ctx.block_number;
    let members = honesty(nodes, committee);
    let s1 = created(s, proposer, nodes.kind_of(proposer as int));
    let s2 = voted(strategy, ctx, members, s1);
    let after = step_of(nodes, strategy, depth, s, proposer, committee);
    lemma_capacity(size, height, config.total_blocks as int);
    assert(number == height + 1);
    assert(due(s2.blobs.len(), number, depth) <==> number >= depth);

    assert forall|i: int| 0 <= i < height + 1 implies ({
        &&& s1.pending.contains(i as usize) <==> (i == height || !s.blobs[i].is_confirmed)
        &&& s2.blobs[i].is_confirmed == (i < height && s.blobs[i].is_confirmed)
        &&& (#[trigger] s2.count(i)).total() <= size * (height + 1)
        &&& s1.pending.contains(i as usize) ==> s2.count(i) == end_count(
            strategy,
            ctx,
            members,
            s1,
            i,
        )
        &&& !s1.pending.contains(i as usize) ==> s2.count(i) == s.count(i)
        &&& s1.count(i) == if i < height {
            s.count(i)
        } else {
            Count { honest: 0, malicious: 0, buffered: 0 }
        }
    }) by {
        lemma_push_contains(s.pending, height as usize, i as usize);
        if i < height {
            assert(s.count(i).total() <= size * height);
            assert(s.pending.contains(i as usize) <==> !s.blobs[i].is_confirmed);
        } else {
            assert(!s.pending.contains(i as usize));
        }
        let start = strategy.opening(ctx, s1.count(i));
        assert(start.total() == s1.count(i).total());
        law_votes_bounded(strategy, ctx, members, start);
    }

    assert forall|i: int| 0 <= i < height + 1 implies ((#[trigger] after.blobs[i]).is_confirmed
        <==> i + depth <= height + 1) by {
        assert(s2.count(i).total() <= size * (height + 1));
        if i < height {
            assert(s.blobs[i].is_confirmed <==> i + depth <= height);
        }
    }
    assert forall|i: int| 0 <= i < height + 1 implies (#[trigger] after.count(i)).total() <= size
        * (height + 1) by {
        assert(s2.count(i).total() <= size * (height + 1));
    }
    if strategy == Strategy::Baseline {
        assert forall|i: int| 0 <= i < height + 1 implies (#[trigger] after.blobs[i]).total_votes()
            == size * blocks_voted(i, height + 1, depth as int) && after.blobs[i].votes_honest
            == members_seen(nodes, after.blocks, i, depth as int, true, height + 1)
            && after.blobs[i].votes_malicious == members_seen(
            nodes,
            after.blocks,
            i,
            depth as int,
            false,
            height + 1,
        ) by {
            assert(s2.count(i).total() <= size * (height + 1));
            law_baseline_conserves_votes(ctx, members, s1.count(i));
            lemma_members_seen_frame(nodes, s.blocks, after.blocks[height], i, depth as int, true, height);
            lemma_members_seen_frame(nodes, s.blocks, after.blocks[height], i, depth as int, false, height);
            assert(after.blocks =~= s.blocks.push(after.blocks[height]));
            assert(after.blocks[height].selected_nodes == committee);
            if i < height {
                assert(s.blobs[i].is_confirmed <==> i + depth <= height);
                assert(s.blobs[i].total_votes() == size * blocks_voted(i, height, depth as int));
                if !s.blobs[i].is_confirmed {
                    lemma_capacity(size, height - i, height - i + 1);
                }
            } else {
                lemma_members_seen_none(nodes, s.blocks, i, depth as int, true, height);
                lemma_members_seen_none(nodes, s.blocks, i, depth as int, false, height);
            }
        }
    }
    assert forall|a: int, b: int| 0 <= a < b < s1.pending.len() implies s1.pending[a]
        < s1.pending[b] by {
        assert(s.pending.contains(s.pending[a]));
    }
    assert forall|k: int| 0 <= k < s1.pending.len() implies #[trigger] s1.pending[k] < height
        + 1 by {
        if k < s.pending.len() {
            assert(s.pending.contains(s.pending[k]));
        }
    }
    lemma_ascending_length(s1.pending, height + 1);
    assert forall|j: int| 0 <= j < height + 1 implies (#[trigger] after.blocks[j]).number == j + 1
        && after.blocks[j].selected_nodes.len() == size && after.blocks[j].wf()
        && after.blocks[j].votes.len() <= j + 1 by {
        if j < height {
            assert(after.blocks[j] == s.blocks[j]);
        }
    }
}

/// What a run of `config` under `strategy` gives: a configuration that does
/// not fit together is refused; a run that has a block to produce and asks
/// for a larger committee than there are nodes fails at its first block;
/// every other run produces all its blocks, each with a committee of
/// pairwise different nodes, and ends in the state that the configuration
/// and the strategy determine.
pub open spec fn is_run_of(config: Settings, strategy: Strategy, r: Result<Simulation, SimError>)
    -> bool {
    &&& !config.consistent() ==> r is Err && r->Err_0 == SimError::ConfigError
    &&& config.consistent() && config.total_blocks > 0 && !can_sample(config) ==> r is Err
        && r->Err_0 == SimError::SamplingError
    &&& config.consistent() && (config.total_blocks == 0 || can_sample(config)) ==> r is Ok
    &&& r matches Ok(sim) ==> {
        &&& sim.wf()
        &&& sim.settings() == config
        &&& sim.rule() == strategy
        &&& sim@ == state_at(config, strategy, config.total_blocks as nat)
        &&& sim@.height() == config.total_blocks
        &&& forall|j: int|
            0 <= j < sim@.blocks.len() ==> committee_wf(
                (#[trigger] sim@.blocks[j]).selected_nodes,
                config.total_nodes as nat,
                config.nodes_per_block as nat,
            )
    }
}

/// Runs the whole simulation of `config` under `strategy`.
///
/// The run is a function of the configuration and the strategy alone: the
/// same seed gives the same blocks and the same blobs.
pub fn simulate(config: Settings, strategy: Strategy) -> (r: Result<Simulation, SimError>)
    ensures
        is_run_of(config, strategy, r),
{
    let mut sim = match Simulation::new(config, strategy) {
        Ok(sim) => sim,
        Err(e) => {
            return Err(e);
        },
    };
    while sim.height() < config.total_blocks
        invariant
            sim.wf(),
            sim.settings() == config,
            sim.rule() == strategy,
            config.consistent(),
            sim@.height() <= config.total_blocks,
            sim@.height() == 0 || can_sample(config),
            sim@ == state_at(config, strategy, sim@.height()),
            forall|j: int|
                0 <= j < sim@.blocks.len() ==> committee_wf(
                    (#[trigger] sim@.blocks[j]).selected_nodes,
                    config.total_nodes as nat,
                    config.nodes_per_block as nat,
                ),
        decreases config.total_blocks - sim@.height(),
    {
        let ghost before = sim@;
        match sim.step() {
            Ok(_) => {},
            Err(e) => {
                return Err(e);
            },
        }
        proof {
            assert(sim@.blocks.len() == before.blocks.len() + 1);
            assert forall|j: int| 0 <= j < sim@.blocks.len() implies committee_wf(
                (#[trigger] sim@.blocks[j]).selected_nodes,
                config.total_nodes as nat,
                config.nodes_per_block as nat,
            ) by {
                if j < before.blocks.len() {
                    assert(sim@.blocks[j] == before.blocks[j]);
                }
            }
        }
    }
    Ok(sim)
}

/// Every blob is confirmed at exactly one height: it is unconfirmed as long
/// as fewer than `confirmation_depth` blocks stand on its creation height,
/// and confirmed at every height from then on.
pub proof fn law_confirmed_at_depth(sim: Simulation, id: int)
    requires
        sim.wf(),
        0 <= id < sim@.blobs.len(),
    ensures
        sim@.blobs.len() == sim@.height(),
        sim@.blobs[id].id == id,
        sim@.blobs[id].creation_height == id,
        sim@.blobs[id].is_confirmed <==> sim@.height() >= sim@.blobs[id].creation_height
            + sim.settings().confirmation_depth,
{
}

/// The counts with which blob `id` enters the next block: its counts so
/// far, or none if the next block creates it.
pub open spec fn start_count(s: SimState, id: int) -> Count {
    if id < s.blobs.len() {
        s.count(id)
    } else {
        Count { honest: 0, malicious: 0, buffered: 0 }
    }
}

/// The state after the next block of a run, produced by `proposer` with
/// `committee`.
pub open spec fn next_state(sim: Simulation, proposer: usize, committee: Seq<usize>) -> SimState {
    step_of(
        nodes_of(sim.settings()),
        sim.rule(),
        sim.settings().confirmation_depth,
        sim@,
        proposer,
        committee,
    )
}

/// Whether the next block of a run votes on blob `id`: the blob is pending,
/// or the block creates it.
pub open spec fn votes_next(sim: Simulation, id: int) -> bool {
    0 <= id <= sim@.height() && (id < sim@.height() ==> !sim@.blobs[id].is_confirmed)
}

/// Whether the run can produce a block with `committee`: it is not finished
/// and the committee has the configured size.
pub open spec fn can_apply(sim: Simulation, committee: Seq<usize>) -> bool {
    sim.wf() && !sim.finished() && committee.len() == sim.settings().nodes_per_block
}

/// What holds of the state of every run: the configuration is consistent,
/// the registry is dense, the pending set matches it, every recorded block
/// is well formed, and all counts of a blob together are at most the votes
/// that the committees so far could cast, which fit a machine word.
pub proof fn law_run_invariant(sim: Simulation)
    requires
        sim.wf(),
    ensures
        sim.settings().consistent(),
        state_wf(sim.settings(), sim.rule(), sim@),
        registry_wf(sim@),
        forall|j: int| 0 <= j < sim@.blocks.len() ==> (#[trigger] sim@.blocks[j]).wf(),
        forall|i: int|
            0 <= i < sim@.blobs.len() ==> (#[trigger] sim@.count(i)).total()
                <= sim.settings().nodes_per_block * sim@.height() <= usize::MAX,
{
    let size = sim.settings().nodes_per_block as int;
    let height = sim@.height() as int;
    let total = sim.settings().total_blocks as int;
    assert(size * height <= size * total) by (nonlinear_arith)
        requires
            0 <= size,
            0 <= height <= total,
    ;
}

/// A step changes nothing about a blob that is confirmed.
pub proof fn law_confirmed_is_frozen(
    sim: Simulation,
    proposer: usize,
    committee: Seq<usize>,
    id: int,
)
    requires
        sim.wf(),
        0 <= id < sim@.blobs.len(),
        sim@.blobs[id].is_confirmed,
    ensures
        next_state(sim, proposer, committee).blobs[id] == sim@.blobs[id],
{
    lemma_push_contains(sim@.pending, sim@.blobs.len() as usize, id as usize);
    assert(!sim@.pending.contains(id as usize));
}

/// The next block of a run gives every blob that it votes on the tallies
/// that the strategy computes from the blob's counts, and records for it
/// the outcomes that the strategy gives, in one entry.
pub proof fn law_step_votes(sim: Simulation, proposer: usize, committee: Seq<usize>, id: int)
    requires
        can_apply(sim, committee),
        votes_next(sim, id),
    ensures
        ({
            let nodes = nodes_of(sim.settings());
            let ctx = block_context(nodes, sim@, proposer);
            let members = honesty(nodes, committee);
            let start = sim.rule().opening(ctx, start_count(sim@, id));
            let after = next_state(sim, proposer, committee);
            let block = after.blocks.last();
            &&& after.blobs[id].votes_honest == tally_after(sim.rule(), ctx, members, start).honest
            &&& after.blobs[id].votes_malicious == tally_after(
                sim.rule(),
                ctx,
                members,
                start,
            ).malicious
            &&& exists|k: int|
                0 <= k < block.votes.len() && (#[trigger] block.votes[k]).blob_id == id
            &&& forall|k: int|
                0 <= k < block.votes.len() && (#[trigger] block.votes[k]).blob_id == id
                    ==> block.votes[k].votes == votes_cast(sim.rule(), ctx, members, start)
        }),
{
    let nodes = nodes_of(sim.settings());
    let strategy = sim.rule();
    let s = sim@;
    let height = s.blocks.len() as int;
    let size = sim.settings().nodes_per_block as int;
    let ctx = block_context(nodes, s, proposer);
    let members = honesty(nodes, committee);
    let s1 = created(s, proposer, nodes.kind_of(proposer as int));
    let start = strategy.opening(ctx, start_count(s, id));
    let after = next_state(sim, proposer, committee);
    let block = after.blocks.last();
    law_run_invariant(sim);
    lemma_capacity(size, height, sim.settings().total_blocks as int);
    lemma_push_contains(s.pending, height as usize, id as usize);
    if id < height {
        assert(s.pending.contains(id as usize));
        assert(s.count(id).total() <= size * height);
    }
    assert(s1.pending.contains(id as usize));
    assert(s1.count(id) == start_count(s, id));
    law_votes_bounded(strategy, ctx, members, start);
    let k0 = choose|k: int| 0 <= k < s1.pending.len() && s1.pending[k] == id as usize;
    assert(block.votes[k0].blob_id == id);
}

/// Data withholding in a run: a block with a number below the activation
/// height lets honest members vote yes on every blob that it votes on and
/// raises the blob's honest tally by their number, while the others vote no
/// into the malicious tally; a block from the activation height on lets
/// honest members vote no, the others yes, and leaves both tallies as they
/// are.
pub proof fn law_withholding_in_run(
    sim: Simulation,
    activation_height: usize,
    proposer: usize,
    committee: Seq<usize>,
    id: int,
)
    requires
        can_apply(sim, committee),
        votes_next(sim, id),
        sim.rule() == (Strategy::DataWithholding { activation_height }),
    ensures
        ({
            let members = honesty(nodes_of(sim.settings()), committee);
            let before = start_count(sim@, id);
            let after = next_state(sim, proposer, committee);
            let block = after.blocks.last();
            let early = block.number < activation_height;
            &&& block.number == sim@.height() + 1
            &&& early ==> after.blobs[id].votes_honest == before.honest + honest_members(members)
                && after.blobs[id].votes_malicious == before.malicious + malicious_members(
                members,
            )
            &&& !early ==> after.blobs[id].votes_honest == before.honest
                && after.blobs[id].votes_malicious == before.malicious
            &&& forall|k: int, i: int|
                0 <= k < block.votes.len() && (#[trigger] block.votes[k]).blob_id == id && 0 <= i
                    < committee.len() ==> #[trigger] block.votes[k].votes[i] == Some(
                    members[i] == early,
                )
        }),
{
    let nodes = nodes_of(sim.settings());
    let ctx = block_context(nodes, sim@, proposer);
    let members = honesty(nodes, committee);
    law_run_invariant(sim);
    law_step_votes(sim, proposer, committee, id);
    law_withholding_boundary(activation_height, ctx, members, start_count(sim@, id));
}

/// Smart withholding in a run, member by member: when a member of the next
/// block's committee decides about a blob that the block votes on, the
/// blob's honest tally counts the honest members before it in the committee.
/// An honest member votes yes. Another member votes yes, uncounted, while
/// that tally is below the threshold, and no, counted, once it is not.
pub proof fn law_smart_in_run(
    sim: Simulation,
    threshold: usize,
    proposer: usize,
    committee: Seq<usize>,
    id: int,
    i: int,
)
    requires
        can_apply(sim, committee),
        votes_next(sim, id),
        sim.rule() == (Strategy::SmartDataWithholding { threshold }),
        0 <= i < committee.len(),
    ensures
        ({
            let nodes = nodes_of(sim.settings());
            let ctx = block_context(nodes, sim@, proposer);
            let members = honesty(nodes, committee);
            let start = start_count(sim@, id);
            let seen = tally_after(sim.rule(), ctx, members.take(i), start);
            let then = tally_after(sim.rule(), ctx, members.take(i + 1), start);
            let block = next_state(sim, proposer, committee).blocks.last();
            &&& seen.honest == start.honest + honest_members(members.take(i))
            &&& members[i] ==> then == seen.credited(Credit::Honest)
            &&& !members[i] && seen.honest < threshold ==> then == seen
            &&& !members[i] && seen.honest >= threshold ==> then == seen.credited(
                Credit::Malicious,
            )
            &&& forall|k: int|
                0 <= k < block.votes.len() && (#[trigger] block.votes[k]).blob_id == id
                    ==> block.votes[k].votes[i] == Some(members[i] || seen.honest < threshold)
        }),
{
    let nodes = nodes_of(sim.settings());
    let ctx = block_context(nodes, sim@, proposer);
    let members = honesty(nodes, committee);
    let start = start_count(sim@, id);
    law_step_votes(sim, proposer, committee, id);
    law_smart_threshold(threshold, ctx, members, start, i);
    lemma_smart_honest_tally(threshold, ctx, members.take(i), start);
}

/// Smart withholding in a run, block by block: once a blob's honest tally
/// has reached the threshold, every block that votes on the blob lets all
/// members that are not honest vote no into the malicious tally, and leaves
/// the honest tally at or above the threshold, until the blob is confirmed.
pub proof fn law_smart_stays_in_run(
    sim: Simulation,
    threshold: usize,
    proposer: usize,
    committee: Seq<usize>,
    id: int,
)
    requires
        can_apply(sim, committee),
        votes_next(sim, id),
        sim.rule() == (Strategy::SmartDataWithholding { threshold }),
        start_count(sim@, id).honest >= threshold,
    ensures
        ({
            let members = honesty(nodes_of(sim.settings()), committee);
            let before = start_count(sim@, id);
            let after = next_state(sim, proposer, committee);
            let block = after.blocks.last();
            &&& after.blobs[id].votes_honest == before.honest + honest_members(members)
            &&& after.blobs[id].votes_honest >= threshold
            &&& after.blobs[id].votes_malicious == before.malicious + malicious_members(members)
            &&& forall|k: int, i: int|
                0 <= k < block.votes.len() && (#[trigger] block.votes[k]).blob_id == id && 0 <= i
                    < committee.len() ==> #[trigger] block.votes[k].votes[i] == Some(members[i])
        }),
{
    let nodes = nodes_of(sim.settings());
    let ctx = block_context(nodes, sim@, proposer);
    let members = honesty(nodes, committee);
    law_step_votes(sim, proposer, committee, id);
    law_smart_threshold_is_final(threshold, ctx, members, start_count(sim@, id));
}

/// Under smart withholding the honest tally counts the honest members.
proof fn lemma_smart_honest_tally(
    threshold: usize,
    ctx: VoteContext,
    members: Seq<bool>,
    start: Count,
)
    ensures
        tally_after(Strategy::SmartDataWithholding { threshold }, ctx, members, start).honest
            == start.honest + honest_members(members),
    decreases members.len(),
{
    if members.len() > 0 {
        lemma_smart_honest_tally(threshold, ctx, members.drop_last(), start);
    }
}

/// At every height the pending set holds exactly the blobs that are not
/// confirmed, each of them once: those that fewer than `confirmation_depth`
/// blocks stand on.
pub proof fn law_pending_is_unconfirmed(sim: Simulation)
    requires
        sim.wf(),
    ensures
        sim@.pending.no_duplicates(),
        sim@.pending.to_set() == Set::new(
            |id: usize| id < sim@.blobs.len() && !sim@.blobs[id as int].is_confirmed,
        ),
        forall|id: usize| #[trigger]
            sim@.pending.contains(id) <==> id < sim@.height() && id
                + sim.settings().confirmation_depth > sim@.height(),
{
    crate::tracker::law_pending_is_unconfirmed(sim.tracker);
    assert forall|id: usize| #[trigger]
        sim@.pending.contains(id) <==> id < sim@.height() && id
            + sim.settings().confirmation_depth > sim@.height() by {
        if id < sim@.blobs.len() {
            assert(sim@.blobs[id as int].is_confirmed <==> id + sim.settings().confirmation_depth
                <= sim@.height());
        }
    }
}

/// Before the run is `confirmation_depth` blocks long no blob is confirmed;
/// when it is exactly that long, the first blob is confirmed and no other.
pub proof fn law_first_confirmation(sim: Simulation)
    requires
        sim.wf(),
    ensures
        sim@.height() < sim.settings().confirmation_depth ==> forall|id: int|
            0 <= id < sim@.blobs.len() ==> !(#[trigger] sim@.blobs[id]).is_confirmed,
        sim@.height() == sim.settings().confirmation_depth ==> forall|id: int|
            0 <= id < sim@.blobs.len() ==> ((#[trigger] sim@.blobs[id]).is_confirmed <==> id == 0),
        sim@.height() == sim.settings().confirmation_depth ==> sim@.blobs.len() > 0,
{
}

/// Under the baseline strategy no vote is lost and none is counted twice:
/// the honest tally of a blob is the number of honest committee members of
/// all blocks that voted on it, the malicious tally the number of the other
/// members, and both together the number of all members of these blocks.
pub proof fn law_baseline_conservation(sim: Simulation, id: int)
    requires
        sim.wf(),
        sim.rule() == Strategy::Baseline,
        0 <= id < sim@.blobs.len(),
    ensures
        ({
            let nodes = nodes_of(sim.settings());
            let depth = sim.settings().confirmation_depth as int;
            let height = sim@.height() as int;
            let blob = sim@.blobs[id];
            &&& blob.votes_honest == members_seen(nodes, sim@.blocks, id, depth, true, height)
            &&& blob.votes_malicious == members_seen(nodes, sim@.blocks, id, depth, false, height)
            &&& blob.votes_honest + blob.votes_malicious == sim.settings().nodes_per_block
                * blocks_voted(id, height, depth)
            &&& forall|j: int|
                0 <= j < height ==> (#[trigger] sim@.blocks[j]).selected_nodes.len()
                    == sim.settings().nodes_per_block
        }),
{
}

/// Two runs of the same configuration under the same strategy end in the
/// same state: the same blocks, blobs and pending set.
pub proof fn law_runs_agree(
    first: Simulation,
    second: Simulation,
    config: Settings,
    strategy: Strategy,
)
    requires
        first@ == state_at(config, strategy, config.total_blocks as nat),
        second@ == state_at(config, strategy, config.total_blocks as nat),
    ensures
        first@.blocks == second@.blocks,
        first@.blobs == second@.blobs,
        first@.pending == second@.pending,
{
}

} // verus!
