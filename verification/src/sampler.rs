//! Committee sampling from an explicitly seeded generator.
//!
//! A sampler is a seed and the number of draws made so far. Every draw runs a
//! ChaCha generator keyed by the seed on a stream of its own, so that a draw
//! is a function of the seed, the draw's number and the pool.

use crate::error::SimError;
use rand::seq::SliceRandom;
use rand::SeedableRng;
use rand_chacha::ChaCha12Rng;
use vstd::prelude::*;

verus! {

/// What `choose_multiple` of `rand` picks from `pool`, asked for `amount`
/// elements, when the generator is ChaCha12 seeded with `seed` and set to
/// `stream`.
pub uninterp spec fn seeded_choice(seed: u64, stream: u64, pool: Seq<usize>, amount: usize)
    -> Seq<usize>;

/// What `choose` of `rand` picks from `pool` when the generator is ChaCha12
/// seeded with `seed` and set to `stream`.
pub uninterp spec fn seeded_pick(seed: u64, stream: u64, pool: Seq<usize>) -> Option<usize>;

/// `picked` holds the elements of `pool` at the positions `at`, which are
/// pairwise different.
pub open spec fn drawn_at(picked: Seq<usize>, pool: Seq<usize>, at: Seq<int>) -> bool {
    &&& at.len() == picked.len()
    &&& at.no_duplicates()
    &&& forall|k: int|
        0 <= k < at.len() ==> 0 <= #[trigger] at[k] < pool.len() && picked[k] == pool[at[k]]
}

/// `picked` was drawn from `pool` without replacement.
pub open spec fn selection_of(picked: Seq<usize>, pool: Seq<usize>) -> bool {
    exists|at: Seq<int>| drawn_at(picked, pool, at)
}

/// Whether `amount` elements can be drawn from a pool of `len` without
/// reserve: a pool whose positions do not fit 32 bits cannot be drawn in
/// full.
pub open spec fn drawable(len: nat, amount: nat) -> bool {
    len <= u32::MAX || amount != len
}

/// The stream after `stream`; after the last one the first comes again.
pub open spec fn next_stream(stream: u64) -> u64 {
    if stream == u64::MAX {
        0
    } else {
        (stream + 1) as u64
    }
}

/// Calls `SliceRandom::choose_multiple` of `rand` on `pool` with a
/// `ChaCha12Rng` of `rand_chacha` made by `seed_from_u64(seed)` and
/// `set_stream(stream)`. Trusted: the result is the same for the same
/// arguments; it has `amount` elements, or all of the pool where that is
/// fewer; and its elements stand at pairwise different positions of the pool.
/// Left out is the draw of a whole pool of more than `u32::MAX` elements, on
/// which `rand` relies on an assumption that does not hold.
#[verifier::external_body]
fn choose_multiple_seeded(seed: u64, stream: u64, pool: &Vec<usize>, amount: usize)
    -> (picked: Vec<usize>)
    requires
        pool.len() <= u32::MAX || amount < pool.len(),
    ensures
        picked@ == seeded_choice(seed, stream, pool@, amount),
        picked.len() == if amount <= pool.len() {
            amount
        } else {
            pool.len()
        },
        selection_of(picked@, pool@),
{
    let mut rng = ChaCha12Rng::seed_from_u64(seed);
    rng.set_stream(stream);
    pool.choose_multiple(&mut rng, amount).copied().collect()
}

/// Calls `SliceRandom::choose` of `rand` on `pool` with a `ChaCha12Rng` of
/// `rand_chacha` made by `seed_from_u64(seed)` and `set_stream(stream)`.
/// Trusted: the result is the same for the same arguments; it is `None` for
/// an empty pool and an element of the pool otherwise.
#[verifier::external_body]
fn choose_seeded(seed: u64, stream: u64, pool: &Vec<usize>) -> (picked: Option<usize>)
    ensures
        picked == seeded_pick(seed, stream, pool@),
        picked is None <==> pool.len() == 0,
        picked matches Some(id) ==> pool@.contains(id),
{
    let mut rng = ChaCha12Rng::seed_from_u64(seed);
    rng.set_stream(stream);
    pool.choose(&mut rng).copied()
}

/// Elements drawn without replacement from a pool belong to the pool, and
/// are pairwise different where those of the pool are.
pub proof fn lemma_selection(picked: Seq<usize>, pool: Seq<usize>)
    requires
        selection_of(picked, pool),
    ensures
        forall|k: int| 0 <= k < picked.len() ==> pool.contains(#[trigger] picked[k]),
        pool.no_duplicates() ==> picked.no_duplicates(),
{
    let at = choose|at: Seq<int>| drawn_at(picked, pool, at);
    assert forall|k: int| 0 <= k < picked.len() implies pool.contains(#[trigger] picked[k]) by {
        assert(pool[at[k]] == picked[k]);
    }
    if pool.no_duplicates() {
        assert forall|a: int, b: int|
            0 <= a < picked.len() && 0 <= b < picked.len() && a != b implies picked[a]
            != picked[b] by {
            assert(at[a] != at[b]);
            assert(pool[at[a]] == picked[a]);
            assert(pool[at[b]] == picked[b]);
        }
    }
}

/// The source of all randomness of a run.
#[derive(Debug, Clone, Copy)]
pub struct CommitteeSampler {
    seed: u64,
    draws: u64,
}

impl CommitteeSampler {
    /// The seed that the sampler was made with.
    pub closed spec fn seed_of(&self) -> u64 {
        self.seed
    }

    /// The stream that the next draw will run on.
    pub closed spec fn stream_of(&self) -> u64 {
        self.draws
    }

    /// A sampler that has made no draw yet.
    pub fn new(seed: u64) -> (sampler: Self)
        ensures
            sampler.seed_of() == seed,
            sampler.stream_of() == 0,
    {
        CommitteeSampler { seed, draws: 0 }
    }

    fn advance(&mut self)
        ensures
            final(self).seed == old(self).seed,
            final(self).draws == next_stream(old(self).draws),
    {
        self.draws = if self.draws == u64::MAX {
            0
        } else {
            self.draws + 1
        };
    }

    /// Draws `size` identities from `pool` without replacement, in random
    /// order. A pool that is too small is refused, and no draw is made. A
    /// pool whose positions do not fit 32 bits cannot be drawn in full.
    pub fn sample(&mut self, pool: &Vec<usize>, size: usize) -> (r: Result<Vec<usize>, SimError>)
        requires
            drawable(pool.len() as nat, size as nat),
        ensures
            final(self).seed_of() == old(self).seed_of(),
            size > pool.len() ==> r is Err && r->Err_0 == SimError::SamplingError && final(self).stream_of() == old(self).stream_of(),
            size <= pool.len() ==> r is Ok && final(self).stream_of() == next_stream(
                old(self).stream_of(),
            ),
            r matches Ok(picked) ==> {
                &&& picked@ == seeded_choice(
                    old(self).seed_of(),
                    old(self).stream_of(),
                    pool@,
                    size,
                )
                &&& picked.len() == size
                &&& selection_of(picked@, pool@)
                &&& forall|k: int| 0 <= k < size ==> pool@.contains(#[trigger] picked@[k])
                &&& pool@.no_duplicates() ==> picked@.no_duplicates()
            },
    {
        if size > pool.len() {
            return Err(SimError::SamplingError);
        }
        let picked = choose_multiple_seeded(self.seed, self.draws, pool, size);
        self.advance();
        proof {
            lemma_selection(picked@, pool@);
        }
        Ok(picked)
    }

    /// Draws one identity from `pool`. An empty pool is refused, and no draw
    /// is made.
    pub fn pick(&mut self, pool: &Vec<usize>) -> (r: Result<usize, SimError>)
        ensures
            final(self).seed_of() == old(self).seed_of(),
            pool.len() == 0 ==> r == Err::<usize, SimError>(SimError::SamplingError) && final(self).stream_of() == old(self).stream_of(),
            pool.len() > 0 ==> r is Ok && final(self).stream_of() == next_stream(
                old(self).stream_of(),
            ),
            r matches Ok(id) ==> {
                &&& Some(id) == seeded_pick(old(self).seed_of(), old(self).stream_of(), pool@)
                &&& pool@.contains(id)
            },
    {
        if pool.len() == 0 {
            return Err(SimError::SamplingError);
        }
        match choose_seeded(self.seed, self.draws, pool) {
            Some(id) => {
                self.advance();
                Ok(id)
            },
            None => Err(SimError::SamplingError),
        }
    }
}

} // verus!
