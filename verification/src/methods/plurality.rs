//! The plurality method.

use vstd::prelude::*;
use crate::ballot::{ordinal_views, Id, Ordinal, Profile};
use crate::candidate::{distinct_ids, Candidate};
use crate::method::Method;
use crate::outcome::{SingleWinner, SingleWinnerModel};
use crate::tally::{decide_single, nat_counts, position_by_id, single_outcome_spec, zero_counts};

verus! {

/// How many of the rankings put `id` in first place.
pub open spec fn first_choice_count(bs: Seq<Seq<Id>>, id: Id) -> nat
    decreases bs.len(),
{
    if bs.len() == 0 {
        0
    } else {
        first_choice_count(bs.drop_last(), id) + (if bs.last().len() > 0 && bs.last()[0] == id {
            1nat
        } else {
            0nat
        })
    }
}

/// One first-place score per candidate, in candidate order.
pub open spec fn plurality_counts(candidates: Seq<Candidate>, bs: Seq<Seq<Id>>) -> Seq<nat> {
    Seq::new(candidates.len(), |i: int| first_choice_count(bs, candidates[i]@.id))
}

/// A ranking with a positive first-place count opens some ballot.
pub proof fn lemma_first_choice_positive(bs: Seq<Seq<Id>>, id: Id)
    requires
        first_choice_count(bs, id) > 0,
    ensures
        exists|i: int| 0 <= i < bs.len() && (#[trigger] bs[i]).len() > 0 && bs[i][0] == id,
    decreases bs.len(),
{
    if bs.len() > 0 {
        if bs.last().len() > 0 && bs.last()[0] == id {
            assert(bs[bs.len() - 1].len() > 0 && bs[bs.len() - 1][0] == id);
        } else {
            lemma_first_choice_positive(bs.drop_last(), id);
            let i = choose|i: int|
                0 <= i < bs.drop_last().len() && (#[trigger] bs.drop_last()[i]).len() > 0
                    && bs.drop_last()[i][0] == id;
            assert(bs[i].len() > 0 && bs[i][0] == id);
        }
    }
}

/// Count the first-place votes, one score per candidate.
#[verifier::loop_isolation(false)]
pub fn tally_first_choices(candidates: &Vec<Candidate>, ballots: &Vec<Ordinal>) -> (r: Vec<u128>)
    requires
        distinct_ids(candidates@),
    ensures
        r@.len() == candidates@.len(),
        nat_counts(r@) == plurality_counts(candidates@, ordinal_views(ballots@)),
{
    let ghost views = ordinal_views(ballots@);
    let mut counts = zero_counts(candidates.len());
    let mut i: usize = 0;
    while i < ballots.len()
        invariant
            i <= ballots@.len(),
            counts@.len() == candidates@.len(),
            forall|p: int| 0 <= p < counts@.len() ==> (#[trigger] counts@[p]) as nat
                == first_choice_count(ordinal_views(ballots@.take(i as int)), candidates@[p]@.id),
            forall|p: int| 0 <= p < counts@.len() ==> (#[trigger] counts@[p]) <= i,
        decreases ballots@.len() - i,
    {
        let ghost prefix = ordinal_views(ballots@.take(i as int));
        let ghost next = ordinal_views(ballots@.take(i + 1));
        proof {
            assert(next.drop_last() =~= prefix);
            assert(next.last() == ballots@[i as int]@);
        }
        if ballots[i].0.len() > 0 {
            let first = ballots[i].0[0];
            if let Option::Some(p) = position_by_id(candidates, first) {
                let c = counts[p];
                counts.set(p, c + 1);
            }
        }
        i = i + 1;
    }
    proof {
        assert(ballots@.take(ballots@.len() as int) =~= ballots@);
        assert(nat_counts(counts@) =~= plurality_counts(candidates@, views));
    }
    counts
}

/// A single-winner, ranked voting method: the candidate with the most
/// first-place votes (a plurality) wins.
#[derive(Debug, Clone)]
pub struct Plurality;

impl Method for Plurality {
    type Ballot = Ordinal;

    type Winner = SingleWinner;

    open spec fn valid(&self, candidates: Seq<Candidate>) -> bool {
        true
    }

    fn check_valid(&self, candidates: &Vec<Candidate>) -> (r: bool) {
        true
    }

    open spec fn post(
        &self,
        candidates: Seq<Candidate>,
        profile: Seq<Ordinal>,
        r: SingleWinnerModel,
    ) -> bool {
        single_outcome_spec(
            candidates,
            plurality_counts(candidates, ordinal_views(profile)),
            r,
        )
    }

    /// Tally the first-place votes and decide the outcome.
    fn outcome(&self, candidates: &Vec<Candidate>, profile: Profile<Ordinal>) -> (r: SingleWinner) {
        let counts = tally_first_choices(candidates, profile.iter());
        decide_single(candidates, &counts)
    }
}

} // verus!
