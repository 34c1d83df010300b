//! The impartial preference model: every possible ballot is equally
//! likely.

use vstd::prelude::*;
use rand::rngs::StdRng;
use crate::ballot::{Ballot, Cardinal, Id, Nominal, Ordinal};
use crate::candidate::{distinct_ids, Candidate};
use crate::outcome::has_candidate;
use crate::preference::Preference;
use crate::ranking::lemma_distinct_cover;
use crate::rng::{rng_between, rng_coin};

verus! {

/// The impartial model draws with no inherent bias: a uniformly random
/// ranking, an approval set that holds each candidate with even odds, or
/// a score ballot of independent uniform scores between zero and five.
#[derive(Debug, Clone)]
pub struct Impartial;

impl Impartial {
    /// Instantiates a new impartial preference model.
    pub fn new() -> (r: Self)
        ensures
            r == Impartial,
    {
        Impartial
    }
}

impl Default for Impartial {
    fn default() -> (r: Self)
        ensures
            r == Impartial,
    {
        Impartial
    }
}

/// The ids of the candidates, in candidate order.
#[verifier::loop_isolation(false)]
fn candidate_ids(candidates: &Vec<Candidate>) -> (r: Vec<Id>)
    ensures
        r@.len() == candidates@.len(),
        forall|k: int| 0 <= k < r@.len() ==> r@[k] == (#[trigger] candidates@[k])@.id,
{
    let mut out: Vec<Id> = Vec::new();
    let mut i: usize = 0;
    while i < candidates.len()
        invariant
            i <= candidates@.len(),
            out@.len() == i,
            forall|k: int| 0 <= k < i ==> out@[k] == (#[trigger] candidates@[k])@.id,
        decreases candidates@.len() - i,
    {
        out.push(candidates[i].id());
        i = i + 1;
    }
    out
}

/// A uniformly random ranking of the candidates: ids are drawn one by
/// one from the pool of those not yet ranked, each with equal
/// probability.
#[verifier::loop_isolation(false)]
pub fn shuffled_ids(candidates: &Vec<Candidate>, rng: &mut StdRng) -> (out: Vec<Id>)
    requires
        distinct_ids(candidates@),
    ensures
        out@.no_duplicates(),
        out@.len() == candidates@.len(),
        forall|k: int| 0 <= k < out@.len() ==> has_candidate(candidates@, #[trigger] out@[k]),
{
    {
        let mut pool = candidate_ids(candidates);
        proof {
            assert forall|a: int, c: int| 0 <= a < c < pool@.len() implies pool@[a]
                != pool@[c] by {
                assert(pool@[a] == candidates@[a]@.id && pool@[c] == candidates@[c]@.id);
            }
            assert forall|k: int| 0 <= k < pool@.len() implies has_candidate(
                candidates@,
                #[trigger] pool@[k],
            ) by {
                assert(candidates@[k]@.id == pool@[k]);
            }
        }
        let mut out: Vec<Id> = Vec::new();
        while pool.len() > 0
            invariant
                out@.len() + pool@.len() == candidates@.len(),
                out@.no_duplicates(),
                forall|a: int, c: int| 0 <= a < c < pool@.len() ==> pool@[a] != pool@[c],
                forall|a: int, c: int|
                    0 <= a < out@.len() && 0 <= c < pool@.len() ==> out@[a] != pool@[c],
                forall|k: int| 0 <= k < out@.len() ==> has_candidate(
                    candidates@,
                    #[trigger] out@[k],
                ),
                forall|k: int| 0 <= k < pool@.len() ==> has_candidate(
                    candidates@,
                    #[trigger] pool@[k],
                ),
            decreases pool@.len(),
        {
            let j = rng_between(rng, 0, pool.len() - 1);
            let ghost prev = pool@;
            let x = pool.remove(j);
            out.push(x);
            proof {
                assert forall|k: int| 0 <= k < pool@.len() implies pool@[k] != x
                    && has_candidate(candidates@, #[trigger] pool@[k]) by {
                    if k < j {
                        assert(pool@[k] == prev[k]);
                    } else {
                        assert(pool@[k] == prev[k + 1]);
                    }
                }
                assert forall|a: int, c: int| 0 <= a < c < pool@.len() implies pool@[a]
                    != pool@[c] by {
                    if a < j {
                        assert(pool@[a] == prev[a]);
                    } else {
                        assert(pool@[a] == prev[a + 1]);
                    }
                    if c < j {
                        assert(pool@[c] == prev[c]);
                    } else {
                        assert(pool@[c] == prev[c + 1]);
                    }
                }
            }
        }
        out
    }
}

impl Preference<Ordinal> for Impartial {
    open spec fn valid_for(&self, candidates: Seq<Candidate>) -> bool {
        true
    }

    fn fits(&self, candidates: &Vec<Candidate>) -> (r: bool) {
        true
    }

    /// The drawn ranking ranks exactly the candidates' ids.
    open spec fn draw_post(&self, candidates: Seq<Candidate>, b: Ordinal) -> bool {
        &&& b@.len() == candidates.len()
        &&& forall|k: int| 0 <= k < b@.len() ==> has_candidate(candidates, #[trigger] b@[k])
        &&& forall|c: int| 0 <= c < candidates.len() ==> b@.contains(
            (#[trigger] candidates[c])@.id,
        )
    }

    /// A uniformly random ranking of exactly the candidates' ids.
    fn draw(&self, candidates: &Vec<Candidate>, rng: &mut StdRng) -> (b: Ordinal) {
        let out = shuffled_ids(candidates, rng);
        proof {
            let ghost cids = Seq::new(candidates@.len(), |c: int| candidates@[c]@.id);
            assert forall|x: Id| out@.contains(x) implies cids.contains(x) by {
                let w = choose|i: int| 0 <= i < candidates@.len() && (
                #[trigger] candidates@[i])@.id == x;
                assert(cids[w] == x);
            }
            assert forall|a: int, c: int| 0 <= a < c < cids.len() implies cids[a] != cids[c] by {
                assert(candidates@[a]@.id != candidates@[c]@.id);
            }
            lemma_distinct_cover(out@, cids);
            assert forall|c: int| 0 <= c < candidates@.len() implies out@.contains(
                (#[trigger] candidates@[c])@.id,
            ) by {
                assert(cids.contains(cids[c]));
            }
        }
        Ordinal(out)
    }
}

/// An approval set that holds each candidate independently with even
/// odds.
#[verifier::loop_isolation(false)]
pub fn coin_flip_ids(candidates: &Vec<Candidate>, rng: &mut StdRng) -> (out: Vec<Id>)
    requires
        distinct_ids(candidates@),
    ensures
        out@.no_duplicates(),
        forall|k: int| 0 <= k < out@.len() ==> has_candidate(candidates@, #[trigger] out@[k]),
{
    {
        let mut out: Vec<Id> = Vec::new();
        let mut i: usize = 0;
        while i < candidates.len()
            invariant
                i <= candidates@.len(),
                out@.no_duplicates(),
                forall|k: int| 0 <= k < out@.len() ==> has_candidate(
                    candidates@,
                    #[trigger] out@[k],
                ),
                forall|k: int, c: int|
                    #![trigger out@[k], candidates@[c]]
                    0 <= k < out@.len() && i <= c < candidates@.len() ==> out@[k]
                        != candidates@[c]@.id,
            decreases candidates@.len() - i,
        {
            if rng_coin(rng) {
                out.push(candidates[i].id());
            }
            i = i + 1;
        }
        out
    }
}

impl Preference<Nominal> for Impartial {
    open spec fn valid_for(&self, candidates: Seq<Candidate>) -> bool {
        true
    }

    fn fits(&self, candidates: &Vec<Candidate>) -> (r: bool) {
        true
    }

    /// The drawn approval set holds only candidates' ids.
    open spec fn draw_post(&self, candidates: Seq<Candidate>, b: Nominal) -> bool {
        forall|k: int| 0 <= k < b@.len() ==> has_candidate(candidates, #[trigger] b@[k])
    }

    /// An approval set of candidates' ids, each held with even odds.
    fn draw(&self, candidates: &Vec<Candidate>, rng: &mut StdRng) -> (b: Nominal) {
        Nominal(coin_flip_ids(candidates, rng))
    }
}

/// A score ballot of independent uniform integer scores between zero
/// and five, one per candidate.
#[verifier::loop_isolation(false)]
pub fn uniform_scores(candidates: &Vec<Candidate>, rng: &mut StdRng) -> (b: Cardinal)
    requires
        distinct_ids(candidates@),
    ensures
        b.wf(),
        b@.len() == candidates@.len(),
        forall|k: int| 0 <= k < b@.len() ==> (#[trigger] b@[k]).0 == candidates@[k]@.id,
        forall|k: int| 0 <= k < b@.len() ==> (#[trigger] b@[k]).1 <= 5,
{
    {
        let mut out: Vec<(Id, usize)> = Vec::new();
        let mut i: usize = 0;
        while i < candidates.len()
            invariant
                i <= candidates@.len(),
                out@.len() == i,
                forall|k: int| 0 <= k < i ==> (#[trigger] out@[k]).0 == candidates@[k]@.id,
                forall|k: int| 0 <= k < i ==> (#[trigger] out@[k]).1 <= 5,
            decreases candidates@.len() - i,
        {
            let score = rng_between(rng, 0, 5);
            out.push((candidates[i].id(), score));
            i = i + 1;
        }
        let b = Cardinal(out);
        proof {
            assert forall|a: int, c: int| 0 <= a < c < b.keys().len() implies b.keys()[a]
                != b.keys()[c] by {
                assert(b.keys()[a] == candidates@[a]@.id && b.keys()[c] == candidates@[c]@.id);
            }
        }
        b
    }
}

impl Preference<Cardinal> for Impartial {
    open spec fn valid_for(&self, candidates: Seq<Candidate>) -> bool {
        true
    }

    fn fits(&self, candidates: &Vec<Candidate>) -> (r: bool) {
        true
    }

    /// The drawn score ballot scores every candidate, in candidate
    /// order, and no score exceeds five.
    open spec fn draw_post(&self, candidates: Seq<Candidate>, b: Cardinal) -> bool {
        &&& b@.len() == candidates.len()
        &&& forall|k: int| 0 <= k < b@.len() ==> (#[trigger] b@[k]).0 == candidates[k]@.id
        &&& forall|k: int| 0 <= k < b@.len() ==> (#[trigger] b@[k]).1 <= 5
    }

    /// A score ballot that scores every candidate, in candidate order,
    /// with an independent uniform integer score between zero and five.
    fn draw(&self, candidates: &Vec<Candidate>, rng: &mut StdRng) -> (b: Cardinal) {
        uniform_scores(candidates, rng)
    }
}

} // verus!
