//! The blob registry, the pending set and the confirmation-depth rule.

use crate::models::blob::Blob;
use crate::nodes::NodeKind;
use vstd::prelude::*;

verus! {

/// The registry of all blobs of a run, indexed by their identifiers, the
/// identifiers of those that are not confirmed yet, in ascending order, and
/// the confirmation depth.
#[derive(Debug)]
pub struct ConfirmationTracker {
    depth: usize,
    blobs: Vec<Blob>,
    pending: Vec<usize>,
}

/// `blob` once it is confirmed: nothing else about it changes.
pub open spec fn confirmed(blob: Blob) -> Blob {
    Blob { is_confirmed: true, ..blob }
}

/// `blob` with tallies set anew.
pub open spec fn with_votes(blob: Blob, votes_honest: usize, votes_malicious: usize) -> Blob {
    Blob { votes_honest, votes_malicious, ..blob }
}

/// A registry assigns dense identifiers in creation order.
pub open spec fn dense(registry: Seq<Blob>) -> bool {
    forall|i: int|
        0 <= i < registry.len() ==> (#[trigger] registry[i]).id == i && registry[i].creation_height
            == i
}

/// The identifiers stand in ascending order, none twice.
pub open spec fn ascending(ids: Seq<usize>) -> bool {
    forall|a: int, b: int| 0 <= a < b < ids.len() ==> ids[a] < ids[b]
}

/// `pending` holds exactly the identifiers of the unconfirmed blobs.
pub open spec fn pending_matches(registry: Seq<Blob>, pending: Seq<usize>) -> bool {
    forall|id: usize| #[trigger]
        pending.contains(id) <==> id < registry.len() && !registry[id as int].is_confirmed
}

/// Whether the depth rule names a blob of a registry of `len` blobs at
/// `height`: the one with identifier `height - depth`.
pub open spec fn due(len: nat, height: usize, depth: usize) -> bool {
    height >= depth && height - depth < len
}

impl ConfirmationTracker {
    /// The number of blocks after which a blob is confirmed.
    pub closed spec fn depth_of(&self) -> usize {
        self.depth
    }

    /// All blobs created so far; the blob with identifier `i` stands at `i`.
    pub closed spec fn registry(&self) -> Seq<Blob> {
        self.blobs@
    }

    /// The identifiers of the unconfirmed blobs.
    pub closed spec fn pending_ids(&self) -> Seq<usize> {
        self.pending@
    }

    /// The invariant of a tracker.
    pub open spec fn wf(&self) -> bool {
        &&& dense(self.registry())
        &&& ascending(self.pending_ids())
        &&& pending_matches(self.registry(), self.pending_ids())
    }

    /// A tracker without blobs that confirms at `depth`.
    pub fn new(depth: usize) -> (tracker: Self)
        ensures
            tracker.wf(),
            tracker.depth_of() == depth,
            tracker.registry() == Seq::<Blob>::empty(),
            tracker.pending_ids() == Seq::<usize>::empty(),
    {
        ConfirmationTracker { depth, blobs: Vec::new(), pending: Vec::new() }
    }

    /// The number of blocks after which a blob is confirmed.
    pub fn depth(&self) -> (depth: usize)
        ensures
            depth == self.depth_of(),
    {
        self.depth
    }

    /// All blobs created so far.
    pub fn blobs(&self) -> (blobs: &Vec<Blob>)
        ensures
            blobs@ == self.registry(),
    {
        &self.blobs
    }

    /// The identifiers of the unconfirmed blobs, ascending.
    pub fn pending(&self) -> (pending: &Vec<usize>)
        ensures
            pending@ == self.pending_ids(),
    {
        &self.pending
    }

    /// Registers the blob of a new block under the next identifier and makes
    /// it pending.
    pub fn create(&mut self, proposer: usize, status: NodeKind) -> (id: usize)
        requires
            old(self).wf(),
        ensures
            final(self).wf(),
            final(self).depth_of() == old(self).depth_of(),
            id == old(self).registry().len(),
            final(self).registry() == old(self).registry().push(
                Blob { proposer, proposer_status: status, ..Blob::new_spec(id) },
            ),
            final(self).pending_ids() == old(self).pending_ids().push(id),
    {
        let id = self.blobs.len();
        proof {
            assert forall|a: int| 0 <= a < self.pending@.len() implies self.pending@[a] < id by {
                assert(self.pending@.contains(self.pending@[a]));
            }
        }
        self.blobs.push(Blob::proposed_by(id, proposer, status));
        self.pending.push(id);
        proof {
            let before = old(self).pending@;
            assert forall|x: usize| #[trigger]
                self.pending@.contains(x) <==> x < self.blobs@.len() && !self.blobs@[x as int].is_confirmed by {
                if x == id {
                    assert(self.pending@[before.len() as int] == id);
                } else if before.contains(x) {
                    let k = choose|k: int| 0 <= k < before.len() && before[k] == x;
                    assert(self.pending@[k] == x);
                }
            }
        }
        id
    }

    /// Sets the tallies of a pending blob. A confirmed blob is frozen and an
    /// unknown identifier names nothing: then nothing changes and the answer
    /// is `false`.
    pub fn record_votes(&mut self, id: usize, votes_honest: usize, votes_malicious: usize)
        -> (done: bool)
        requires
            old(self).wf(),
        ensures
            final(self).wf(),
            final(self).depth_of() == old(self).depth_of(),
            final(self).pending_ids() == old(self).pending_ids(),
            done == old(self).pending_ids().contains(id),
            done ==> final(self).registry() == old(self).registry().update(
                id as int,
                with_votes(old(self).registry()[id as int], votes_honest, votes_malicious),
            ),
            !done ==> final(self).registry() == old(self).registry(),
    {
        if id >= self.blobs.len() {
            return false;
        }
        let blob = self.blobs[id];
        if blob.is_confirmed {
            return false;
        }
        self.blobs[id] = Blob { votes_honest, votes_malicious, ..blob };
        true
    }

    /// Applies the depth rule at `height`: the blob with identifier
    /// `height - depth` becomes confirmed and leaves the pending set. Where
    /// the rule names no blob of the registry nothing happens.
    pub fn advance(&mut self, height: usize) -> (confirmed_id: Option<usize>)
        requires
            old(self).wf(),
        ensures
            final(self).wf(),
            final(self).depth_of() == old(self).depth_of(),
            confirmed_id is Some <==> due(
                old(self).registry().len(),
                height,
                old(self).depth_of(),
            ),
            confirmed_id matches Some(id) ==> {
                &&& id == height - old(self).depth_of()
                &&& final(self).registry() == old(self).registry().update(
                    id as int,
                    confirmed(old(self).registry()[id as int]),
                )
                &&& final(self).pending_ids() == old(self).pending_ids().remove_value(id)
            },
            confirmed_id is None ==> {
                &&& final(self).registry() == old(self).registry()
                &&& final(self).pending_ids() == old(self).pending_ids()
            },
    {
        if height < self.depth {
            return None;
        }
        let id = height - self.depth;
        if id >= self.blobs.len() {
            return None;
        }
        let blob = self.blobs[id];
        self.blobs[id] = Blob { is_confirmed: true, ..blob };
        let mut k: usize = 0;
        while k < self.pending.len() && self.pending[k] != id
            invariant
                k <= self.pending.len(),
                self.depth == old(self).depth,
                self.pending@ == old(self).pending@,
                forall|j: int| 0 <= j < k ==> self.pending@[j] != id,
            decreases self.pending.len() - k,
        {
            k += 1;
        }
        let ghost before = self.pending@;
        proof {
            before.index_of_first_ensures(id);
        }
        if k < self.pending.len() {
            self.pending.remove(k);
            proof {
                assert(before.index_of_first(id) == Some(k as int));
                assert forall|x: usize| #[trigger]
                    self.pending@.contains(x) <==> x < self.blobs@.len() && !self.blobs@[x as int].is_confirmed by {
                    if self.pending@.contains(x) {
                        let j = choose|j: int| 0 <= j < self.pending@.len() && self.pending@[j] == x;
                        if j < k {
                            assert(before[j] == x);
                        } else {
                            assert(before[j + 1] == x);
                        }
                        assert(before.contains(x));
                    }
                    if x != id && before.contains(x) {
                        let j = choose|j: int| 0 <= j < before.len() && before[j] == x;
                        if j < k {
                            assert(self.pending@[j] == x);
                        } else {
                            assert(self.pending@[j - 1] == x);
                        }
                    }
                }
            }
        } else {
            proof {
                assert(!before.contains(id));
                assert forall|x: usize| #[trigger]
                    self.pending@.contains(x) <==> x < self.blobs@.len() && !self.blobs@[x as int].is_confirmed by {
                }
            }
        }
        Some(id)
    }
}

/// The pending set holds exactly the blobs that are not confirmed.
pub proof fn law_pending_is_unconfirmed(tracker: ConfirmationTracker)
    requires
        tracker.wf(),
    ensures
        tracker.pending_ids().no_duplicates(),
        tracker.pending_ids().to_set() == Set::new(
            |id: usize|
                id < tracker.registry().len() && !tracker.registry()[id as int].is_confirmed,
        ),
{
    let pending = tracker.pending_ids();
    assert forall|id: usize| #[trigger]
        pending.to_set().contains(id) <==> id < tracker.registry().len()
            && !tracker.registry()[id as int].is_confirmed by {
        assert(pending.to_set().contains(id) <==> pending.contains(id));
    }
    assert(pending.to_set() =~= Set::new(
        |id: usize| id < tracker.registry().len() && !tracker.registry()[id as int].is_confirmed,
    ));
}

} // verus!
