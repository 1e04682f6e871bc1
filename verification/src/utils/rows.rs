//! What the reports say about the votes of one committee on one blob.

use crate::nodes::NodeSet;
use crate::utils::text::{decimal, decimal_string, joined, kind_str, kind_text, lemma_decimal_printable, printable};
use vstd::prelude::*;

verus! {

/// The outcome of member `i`; a member without an entry has no visible vote.
pub open spec fn outcome(votes: Seq<Option<bool>>, i: int) -> Option<bool> {
    if 0 <= i < votes.len() {
        votes[i]
    } else {
        None
    }
}

/// Among the first `upto` members of the committee, the number of honest
/// ones (`honest`) or of the others (`!honest`) whose vote is visible.
pub open spec fn visible_votes(
    nodes: NodeSet,
    committee: Seq<usize>,
    votes: Seq<Option<bool>>,
    honest: bool,
    upto: int,
) -> nat
    decreases upto,
{
    if upto <= 0 {
        0
    } else {
        visible_votes(nodes, committee, votes, honest, upto - 1) + if outcome(votes, upto - 1)
            is Some && nodes.honest(committee[upto - 1] as int) == honest {
            1nat
        } else {
            0nat
        }
    }
}

/// How a visible vote is shown: as cast, with the kind of the voter.
pub open spec fn vote_label(honest: bool) -> Seq<char> {
    if honest {
        "1(honest)"@
    } else {
        "1(malicious)"@
    }
}

/// The labels of the visible votes among the first `upto` members of the
/// committee, in committee order.
pub open spec fn vote_labels(
    nodes: NodeSet,
    committee: Seq<usize>,
    votes: Seq<Option<bool>>,
    upto: int,
) -> Seq<Seq<char>>
    decreases upto,
{
    if upto <= 0 {
        Seq::empty()
    } else if outcome(votes, upto - 1) is Some {
        vote_labels(nodes, committee, votes, upto - 1).push(
            vote_label(nodes.honest(committee[upto - 1] as int)),
        )
    } else {
        vote_labels(nodes, committee, votes, upto - 1)
    }
}

/// A node with its kind: the identifier, and the kind in brackets.
pub open spec fn node_text(nodes: NodeSet, id: usize) -> Seq<char> {
    decimal(id as nat) + "("@ + kind_text(nodes.kind_of(id as int)) + ")"@
}

/// Joining one more part appends it, after a separator unless it is the
/// first.
pub proof fn lemma_joined_push(parts: Seq<Seq<char>>, separator: Seq<char>, part: Seq<char>)
    ensures
        joined(parts.push(part), separator) == if parts.len() == 0 {
            part
        } else {
            joined(parts, separator) + separator + part
        },
{
    assert(parts.push(part).drop_last() =~= parts);
}

/// There is one label per visible vote, and each is printable.
pub proof fn lemma_vote_labels(
    nodes: NodeSet,
    committee: Seq<usize>,
    votes: Seq<Option<bool>>,
    upto: int,
)
    ensures
        vote_labels(nodes, committee, votes, upto).len() == visible_votes(
            nodes,
            committee,
            votes,
            true,
            upto,
        ) + visible_votes(nodes, committee, votes, false, upto),
        upto >= 0 ==> vote_labels(nodes, committee, votes, upto).len() <= upto,
        forall|k: int|
            0 <= k < vote_labels(nodes, committee, votes, upto).len() ==> printable(
                #[trigger] vote_labels(nodes, committee, votes, upto)[k],
            ),
    decreases upto,
{
    reveal_strlit("1(honest)");
    reveal_strlit("1(malicious)");
    if upto > 0 {
        lemma_vote_labels(nodes, committee, votes, upto - 1);
    }
}

/// The label of a visible vote.
pub fn vote_label_str(honest: bool) -> (text: &'static str)
    ensures
        text@ == vote_label(honest),
        printable(text@),
{
    proof {
        reveal_strlit("1(honest)");
        reveal_strlit("1(malicious)");
    }
    if honest {
        "1(honest)"
    } else {
        "1(malicious)"
    }
}

/// Writes a node with its kind.
pub fn node_string(nodes: &NodeSet, id: usize) -> (text: String)
    ensures
        text@ == node_text(*nodes, id),
        printable(text@),
{
    proof {
        reveal_strlit("(");
        reveal_strlit(")");
        lemma_decimal_printable(id as nat);
    }
    let mut text = decimal_string(id as u128);
    text.append("(");
    text.append(kind_str(nodes.kind(id)));
    text.append(")");
    text
}

/// Goes through the committee and shows each visible vote: the labels joined
/// by `separator`, and the numbers of visible votes of honest members and of
/// the others.
pub fn votes_text(
    nodes: &NodeSet,
    committee: &Vec<usize>,
    votes: &Vec<Option<bool>>,
    separator: &str,
) -> (r: (String, u128, u128))
    ensures
        r.0@ == joined(
            vote_labels(*nodes, committee@, votes@, committee.len() as int),
            separator@,
        ),
        r.1 == visible_votes(*nodes, committee@, votes@, true, committee.len() as int),
        r.2 == visible_votes(*nodes, committee@, votes@, false, committee.len() as int),
        r.1 + r.2 == vote_labels(*nodes, committee@, votes@, committee.len() as int).len(),
        r.1 + r.2 <= committee.len(),
{
    let mut text = String::new();
    let mut honest_count: u128 = 0;
    let mut malicious_count: u128 = 0;
    let mut i: usize = 0;
    while i < committee.len()
        invariant
            i <= committee.len(),
            text@ == joined(vote_labels(*nodes, committee@, votes@, i as int), separator@),
            honest_count == visible_votes(*nodes, committee@, votes@, true, i as int),
            malicious_count == visible_votes(*nodes, committee@, votes@, false, i as int),
            honest_count + malicious_count == vote_labels(
                *nodes,
                committee@,
                votes@,
                i as int,
            ).len(),
            honest_count + malicious_count <= i,
        decreases committee.len() - i,
    {
        let honest = nodes.is_honest(committee[i]);
        let visible = i < votes.len() && votes[i].is_some();
        if visible {
            proof {
                lemma_joined_push(
                    vote_labels(*nodes, committee@, votes@, i as int),
                    separator@,
                    vote_label(honest),
                );
            }
            if honest_count + malicious_count > 0 {
                text.append(separator);
            }
            text.append(vote_label_str(honest));
            if honest {
                honest_count += 1;
            } else {
                malicious_count += 1;
            }
        }
        i += 1;
    }
    (text, honest_count, malicious_count)
}

} // verus!
