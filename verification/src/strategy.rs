//! The voting strategies: how each committee member votes on a pending blob,
//! and which tally the vote is credited to.

use crate::nodes::NodeSet;
use vstd::prelude::*;

verus! {

/// The adversarial scenario in effect.
#[derive(Debug, Clone, Copy, PartialEq, Eq, Structural)]
pub enum Strategy {
    /// Everybody votes and every vote counts.
    Baseline,
    /// A malicious proposer keeps honest votes out of its block; they wait in
    /// a buffer for the next honest proposer.
    VoteCensorship,
    /// From `activation_height` on the data is withheld: honest members can
    /// only refuse, malicious members vouch for the blob.
    DataWithholding { activation_height: usize },
    /// Malicious members turn against a blob once it has `threshold` honest
    /// votes.
    SmartDataWithholding { threshold: usize },
}

/// The tally that a vote adds one to.
#[derive(Debug, Clone, Copy, PartialEq, Eq, Structural)]
pub enum Credit {
    Honest,
    Malicious,
    /// Cast, but held back until an honest proposer releases it.
    Buffered,
    /// The vote appears in the block and is counted nowhere.
    Uncounted,
}

/// What one member does about one blob: the outcome recorded in the block
/// (`Some(true)` yes, `Some(false)` no, `None` not visible) and its credit.
#[derive(Debug, Clone, Copy, PartialEq, Eq, Structural)]
pub struct Decision {
    pub vote: Option<bool>,
    pub credit: Credit,
}

/// What a strategy may look at besides the blob: the block being produced.
#[derive(Debug, Clone, Copy)]
pub struct VoteContext {
    pub block_number: usize,
    pub proposer_honest: bool,
}

/// The counts of one blob as mathematical numbers.
pub struct Count {
    pub honest: nat,
    pub malicious: nat,
    pub buffered: nat,
}

/// The counts of one blob: both tallies and the votes waiting in the buffer.
#[derive(Debug, Clone, Copy, PartialEq, Eq, Structural)]
pub struct Tally {
    pub honest: usize,
    pub malicious: usize,
    pub buffered: usize,
}

impl View for Tally {
    type V = Count;

    open spec fn view(&self) -> Count {
        Count {
            honest: self.honest as nat,
            malicious: self.malicious as nat,
            buffered: self.buffered as nat,
        }
    }
}

impl Count {
    /// All votes that the blob has received, released or not.
    pub open spec fn total(self) -> nat {
        self.honest + self.malicious + self.buffered
    }

    /// The counts after one more vote with the given credit.
    pub open spec fn credited(self, credit: Credit) -> Count {
        match credit {
            Credit::Honest => Count { honest: self.honest + 1, ..self },
            Credit::Malicious => Count { malicious: self.malicious + 1, ..self },
            Credit::Buffered => Count { buffered: self.buffered + 1, ..self },
            Credit::Uncounted => self,
        }
    }

    /// The counts after the buffer has been released into the honest tally.
    pub open spec fn flushed(self) -> Count {
        Count { honest: self.honest + self.buffered, malicious: self.malicious, buffered: 0 }
    }
}

impl Strategy {
    /// The decision of one member, honest or not, about a blob that has
    /// `honest_votes` honest votes at that moment.
    pub open spec fn decision(self, ctx: VoteContext, member_honest: bool, honest_votes: nat)
        -> Decision {
        match self {
            Strategy::Baseline => if member_honest {
                Decision { vote: Some(true), credit: Credit::Honest }
            } else {
                Decision { vote: Some(false), credit: Credit::Malicious }
            },
            Strategy::VoteCensorship => if !member_honest {
                Decision { vote: Some(false), credit: Credit::Malicious }
            } else if ctx.proposer_honest {
                Decision { vote: Some(true), credit: Credit::Honest }
            } else {
                Decision { vote: None, credit: Credit::Buffered }
            },
            Strategy::DataWithholding { activation_height } => {
                let withheld = ctx.block_number >= activation_height;
                if member_honest {
                    if withheld {
                        Decision { vote: Some(false), credit: Credit::Uncounted }
                    } else {
                        Decision { vote: Some(true), credit: Credit::Honest }
                    }
                } else {
                    if withheld {
                        Decision { vote: Some(true), credit: Credit::Uncounted }
                    } else {
                        Decision { vote: Some(false), credit: Credit::Malicious }
                    }
                }
            },
            Strategy::SmartDataWithholding { threshold } => if member_honest {
                Decision { vote: Some(true), credit: Credit::Honest }
            } else if honest_votes >= threshold {
                Decision { vote: Some(false), credit: Credit::Malicious }
            } else {
                Decision { vote: Some(true), credit: Credit::Uncounted }
            },
        }
    }

    /// The counts with which a block starts to vote on a blob: under
    /// censorship an honest proposer first releases the buffer.
    pub open spec fn opening(self, ctx: VoteContext, count: Count) -> Count {
        if self == Strategy::VoteCensorship && ctx.proposer_honest {
            count.flushed()
        } else {
            count
        }
    }

    pub fn decide(&self, ctx: &VoteContext, member_honest: bool, honest_votes: usize)
        -> (d: Decision)
        ensures
            d == self.decision(*ctx, member_honest, honest_votes as nat),
    {
        match self {
            Strategy::Baseline => if member_honest {
                Decision { vote: Some(true), credit: Credit::Honest }
            } else {
                Decision { vote: Some(false), credit: Credit::Malicious }
            },
            Strategy::VoteCensorship => if !member_honest {
                Decision { vote: Some(false), credit: Credit::Malicious }
            } else if ctx.proposer_honest {
                Decision { vote: Some(true), credit: Credit::Honest }
            } else {
                Decision { vote: None, credit: Credit::Buffered }
            },
            Strategy::DataWithholding { activation_height } => {
                let withheld = ctx.block_number >= *activation_height;
                match (member_honest, withheld) {
                    (true, false) => Decision { vote: Some(true), credit: Credit::Honest },
                    (true, true) => Decision { vote: Some(false), credit: Credit::Uncounted },
                    (false, false) => Decision { vote: Some(false), credit: Credit::Malicious },
                    (false, true) => Decision { vote: Some(true), credit: Credit::Uncounted },
                }
            },
            Strategy::SmartDataWithholding { threshold } => if member_honest {
                Decision { vote: Some(true), credit: Credit::Honest }
            } else if honest_votes >= *threshold {
                Decision { vote: Some(false), credit: Credit::Malicious }
            } else {
                Decision { vote: Some(true), credit: Credit::Uncounted }
            },
        }
    }

    /// The counts with which a block starts to vote on a blob.
    pub fn open(&self, ctx: &VoteContext, tally: Tally) -> (opened: Tally)
        requires
            tally.honest + tally.buffered <= usize::MAX,
        ensures
            opened@ == self.opening(*ctx, tally@),
    {
        match self {
            Strategy::VoteCensorship => if ctx.proposer_honest {
                Tally {
                    honest: tally.honest + tally.buffered,
                    malicious: tally.malicious,
                    buffered: 0,
                }
            } else {
                tally
            },
            _ => tally,
        }
    }

    /// Lets the committee vote on one blob, member by member in committee
    /// order: the recorded outcomes, one per member, and the counts after
    /// the last of them.
    pub fn cast_votes(
        &self,
        ctx: &VoteContext,
        nodes: &NodeSet,
        committee: &Vec<usize>,
        start: Tally,
    ) -> (r: (Vec<Option<bool>>, Tally))
        requires
            start@.total() + committee.len() <= usize::MAX,
        ensures
            r.0@ == votes_cast(*self, *ctx, honesty(*nodes, committee@), start@),
            r.1@ == tally_after(*self, *ctx, honesty(*nodes, committee@), start@),
    {
        let ghost members = honesty(*nodes, committee@);
        let mut votes: Vec<Option<bool>> = Vec::new();
        let mut tally = start;
        let mut i: usize = 0;
        while i < committee.len()
            invariant
                i <= committee.len(),
                members == honesty(*nodes, committee@),
                votes.len() == i,
                tally@ == tally_after(*self, *ctx, members.take(i as int), start@),
                tally@.total() <= start@.total() + i,
                start@.total() + committee.len() <= usize::MAX,
                forall|j: int| 0 <= j < i ==> votes[j] == vote_at(*self, *ctx, members, start@, j),
            decreases committee.len() - i,
        {
            let member_honest = nodes.is_honest(committee[i]);
            let d = self.decide(ctx, member_honest, tally.honest);
            proof {
                assert(members.take(i + 1).drop_last() =~= members.take(i as int));
                assert(members.take(i + 1).last() == members[i as int]);
            }
            tally = match d.credit {
                Credit::Honest => Tally { honest: tally.honest + 1, ..tally },
                Credit::Malicious => Tally { malicious: tally.malicious + 1, ..tally },
                Credit::Buffered => Tally { buffered: tally.buffered + 1, ..tally },
                Credit::Uncounted => tally,
            };
            votes.push(d.vote);
            i += 1;
        }
        proof {
            assert(members.take(i as int) =~= members);
        }
        (votes, tally)
    }
}

/// For each committee member, in order, whether it is honest.
pub open spec fn honesty(nodes: NodeSet, committee: Seq<usize>) -> Seq<bool> {
    Seq::new(committee.len(), |i: int| nodes.honest(committee[i] as int))
}

/// The counts of a blob after the members, honest or not as `members` says,
/// have voted on it one after the other.
pub open spec fn tally_after(strategy: Strategy, ctx: VoteContext, members: Seq<bool>, start: Count)
    -> Count
    decreases members.len(),
{
    if members.len() == 0 {
        start
    } else {
        let before = tally_after(strategy, ctx, members.drop_last(), start);
        before.credited(strategy.decision(ctx, members.last(), before.honest).credit)
    }
}

/// The outcome that member `i` has recorded.
pub open spec fn vote_at(
    strategy: Strategy,
    ctx: VoteContext,
    members: Seq<bool>,
    start: Count,
    i: int,
) -> Option<bool> {
    strategy.decision(
        ctx,
        members[i],
        tally_after(strategy, ctx, members.take(i), start).honest,
    ).vote
}

/// The outcomes that the block records for the blob, one per member.
pub open spec fn votes_cast(strategy: Strategy, ctx: VoteContext, members: Seq<bool>, start: Count)
    -> Seq<Option<bool>> {
    Seq::new(members.len(), |i: int| vote_at(strategy, ctx, members, start, i))
}

/// The number of honest members of a committee.
pub open spec fn honest_members(members: Seq<bool>) -> nat
    decreases members.len(),
{
    if members.len() == 0 {
        0
    } else {
        honest_members(members.drop_last()) + if members.last() {
            1nat
        } else {
            0nat
        }
    }
}

/// The number of members of a committee that are not honest.
pub open spec fn malicious_members(members: Seq<bool>) -> nat {
    (members.len() - honest_members(members)) as nat
}

/// The number of honest members (`honest`) or of the others (`!honest`).
pub open spec fn members_of_kind(members: Seq<bool>, honest: bool) -> nat {
    if honest {
        honest_members(members)
    } else {
        malicious_members(members)
    }
}

/// A committee has no more honest members than members.
pub proof fn lemma_honest_members_bound(members: Seq<bool>)
    ensures
        honest_members(members) <= members.len(),
    decreases members.len(),
{
    if members.len() > 0 {
        lemma_honest_members_bound(members.drop_last());
    }
}

/// Under every strategy a block adds one decision per member and nothing
/// else: no count of the blob goes down, and all three together grow by at
/// most the size of the committee.
pub proof fn law_votes_bounded(strategy: Strategy, ctx: VoteContext, members: Seq<bool>, start: Count)
    ensures
        votes_cast(strategy, ctx, members, start).len() == members.len(),
        tally_after(strategy, ctx, members, start).honest >= start.honest,
        tally_after(strategy, ctx, members, start).malicious >= start.malicious,
        tally_after(strategy, ctx, members, start).buffered >= start.buffered,
        tally_after(strategy, ctx, members, start).total() <= start.total() + members.len(),
    decreases members.len(),
{
    if members.len() > 0 {
        law_votes_bounded(strategy, ctx, members.drop_last(), start);
    }
}

/// Under the baseline strategy every member's vote is counted exactly once:
/// honest members vote yes into the honest tally, the others vote no into the
/// malicious tally, so that both tallies together grow by the size of the
/// committee.
pub proof fn law_baseline_conserves_votes(ctx: VoteContext, members: Seq<bool>, start: Count)
    ensures
        ({
            let after = tally_after(Strategy::Baseline, ctx, members, start);
            &&& after.honest == start.honest + honest_members(members)
            &&& after.malicious == start.malicious + malicious_members(members)
            &&& after.buffered == start.buffered
            &&& after.honest + after.malicious == start.honest + start.malicious + members.len()
        }),
        forall|i: int|
            0 <= i < members.len() ==> #[trigger] votes_cast(
                Strategy::Baseline,
                ctx,
                members,
                start,
            )[i] == Some(members[i]),
    decreases members.len(),
{
    lemma_honest_members_bound(members);
    if members.len() > 0 {
        law_baseline_conserves_votes(ctx, members.drop_last(), start);
        lemma_honest_members_bound(members.drop_last());
    }
}

/// Under censorship a malicious proposer lets no honest vote through: the
/// honest tally stands still, each honest member's vote is recorded as not
/// visible and waits in the buffer, and the votes of the others count. An
/// honest proposer first releases the whole buffer into the honest tally and
/// then counts every vote of its own block.
pub proof fn law_censorship_buffers(ctx: VoteContext, members: Seq<bool>, start: Count)
    ensures
        ({
            let strategy = Strategy::VoteCensorship;
            let after = tally_after(strategy, ctx, members, strategy.opening(ctx, start));
            &&& after.malicious == start.malicious + malicious_members(members)
            &&& !ctx.proposer_honest ==> after.honest == start.honest && after.buffered
                == start.buffered + honest_members(members)
            &&& ctx.proposer_honest ==> after.honest == start.honest + start.buffered
                + honest_members(members) && after.buffered == 0
        }),
        forall|i: int|
            0 <= i < members.len() ==> #[trigger] votes_cast(
                Strategy::VoteCensorship,
                ctx,
                members,
                Strategy::VoteCensorship.opening(ctx, start),
            )[i] == if !members[i] {
                Some(false)
            } else if ctx.proposer_honest {
                Some(true)
            } else {
                None::<bool>
            },
    decreases members.len(),
{
    lemma_honest_members_bound(members);
    if members.len() > 0 {
        law_censorship_buffers(ctx, members.drop_last(), start);
        lemma_honest_members_bound(members.drop_last());
    }
}

/// Data withholding turns at the activation height. In a block before it
/// honest members vote yes into the honest tally and the others vote no into
/// the malicious tally. In the block at that height and in every later one
/// honest members vote no, the others vote yes, and no tally moves.
pub proof fn law_withholding_boundary(
    activation_height: usize,
    ctx: VoteContext,
    members: Seq<bool>,
    start: Count,
)
    ensures
        ({
            let strategy = Strategy::DataWithholding { activation_height };
            let after = tally_after(strategy, ctx, members, start);
            &&& ctx.block_number < activation_height ==> after.honest == start.honest
                + honest_members(members) && after.malicious == start.malicious
                + malicious_members(members) && after.buffered == start.buffered
            &&& ctx.block_number >= activation_height ==> after == start
        }),
        forall|i: int|
            0 <= i < members.len() ==> #[trigger] votes_cast(
                Strategy::DataWithholding { activation_height },
                ctx,
                members,
                start,
            )[i] == Some(members[i] == (ctx.block_number < activation_height)),
    decreases members.len(),
{
    lemma_honest_members_bound(members);
    if members.len() > 0 {
        law_withholding_boundary(activation_height, ctx, members.drop_last(), start);
        lemma_honest_members_bound(members.drop_last());
    }
}

/// Smart withholding looks at the blob's honest tally at the moment a member
/// that is not honest votes: below the threshold the member votes yes and is
/// counted nowhere, at or above it the member votes no into the malicious
/// tally. Honest members always vote yes into the honest tally.
pub proof fn law_smart_threshold(
    threshold: usize,
    ctx: VoteContext,
    members: Seq<bool>,
    start: Count,
    i: int,
)
    requires
        0 <= i < members.len(),
    ensures
        ({
            let strategy = Strategy::SmartDataWithholding { threshold };
            let before = tally_after(strategy, ctx, members.take(i), start);
            let after = tally_after(strategy, ctx, members.take(i + 1), start);
            let vote = votes_cast(strategy, ctx, members, start)[i];
            &&& members[i] ==> vote == Some(true) && after == before.credited(Credit::Honest)
            &&& !members[i] && before.honest < threshold ==> vote == Some(true) && after == before
            &&& !members[i] && before.honest >= threshold ==> vote == Some(false) && after
                == before.credited(Credit::Malicious)
        }),
{
    assert(members.take(i + 1).drop_last() =~= members.take(i));
    assert(members.take(i + 1).last() == members[i]);
}

/// Once a blob has reached the threshold it stays there: in every block that
/// starts with the honest tally at or above the threshold, all members that
/// are not honest vote no and are counted, and the honest tally that the
/// block leaves behind is again at or above the threshold.
pub proof fn law_smart_threshold_is_final(
    threshold: usize,
    ctx: VoteContext,
    members: Seq<bool>,
    start: Count,
)
    requires
        start.honest >= threshold,
    ensures
        ({
            let strategy = Strategy::SmartDataWithholding { threshold };
            let after = tally_after(strategy, ctx, members, start);
            &&& after.honest == start.honest + honest_members(members)
            &&& after.honest >= threshold
            &&& after.malicious == start.malicious + malicious_members(members)
        }),
        forall|i: int|
            0 <= i < members.len() ==> #[trigger] votes_cast(
                Strategy::SmartDataWithholding { threshold },
                ctx,
                members,
                start,
            )[i] == Some(members[i]),
    decreases members.len(),
{
    let strategy = Strategy::SmartDataWithholding { threshold };
    lemma_honest_members_bound(members);
    if members.len() > 0 {
        law_smart_threshold_is_final(threshold, ctx, members.drop_last(), start);
        lemma_honest_members_bound(members.drop_last());
    }
    assert forall|i: int| 0 <= i < members.len() implies #[trigger] votes_cast(
        strategy,
        ctx,
        members,
        start,
    )[i] == Some(members[i]) by {
        law_votes_bounded(strategy, ctx, members.take(i), start);
    }
}

} // verus!
