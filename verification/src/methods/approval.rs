//! The approval method.

use vstd::prelude::*;
use crate::ballot::{nominal_views, Id, Nominal, Profile};
use crate::candidate::Candidate;
use crate::method::Method;
use crate::outcome::{SingleWinner, SingleWinnerModel};
use crate::tally::{decide_single, nat_counts, position_by_id, single_outcome_spec, zero_counts};

verus! {

/// How many entries of the ballot name `id`.
pub open spec fn count_occurrences(b: Seq<Id>, id: Id) -> nat
    decreases b.len(),
{
    if b.len() == 0 {
        0
    } else {
        count_occurrences(b.drop_last(), id) + (if b.last() == id {
            1nat
        } else {
            0nat
        })
    }
}

/// How many of the approval ballots approve `id`.
pub open spec fn approval_count(bs: Seq<Seq<Id>>, id: Id) -> nat
    decreases bs.len(),
{
    if bs.len() == 0 {
        0
    } else {
        approval_count(bs.drop_last(), id) + count_occurrences(bs.last(), id)
    }
}

/// One approval score per candidate, in candidate order.
pub open spec fn approval_counts(candidates: Seq<Candidate>, bs: Seq<Seq<Id>>) -> Seq<nat> {
    Seq::new(candidates.len(), |i: int| approval_count(bs, candidates[i]@.id))
}

/// A single-winner, nominal voting method: the candidates with the most
/// approvals win.
#[derive(Debug, Clone)]
pub struct Approval;

impl Method for Approval {
    type Ballot = Nominal;

    type Winner = SingleWinner;

    open spec fn valid(&self, candidates: Seq<Candidate>) -> bool {
        true
    }

    fn check_valid(&self, candidates: &Vec<Candidate>) -> (r: bool) {
        true
    }

    open spec fn post(
        &self,
        candidates: Seq<Candidate>,
        profile: Seq<Nominal>,
        r: SingleWinnerModel,
    ) -> bool {
        single_outcome_spec(candidates, approval_counts(candidates, nominal_views(profile)), r)
    }

    /// Tally every approval and decide the outcome.
    #[verifier::loop_isolation(false)]
    fn outcome(&self, candidates: &Vec<Candidate>, profile: Profile<Nominal>) -> (r: SingleWinner) {
        let ballots = profile.iter();
        let ghost views = nominal_views(ballots@);
        let mut counts = zero_counts(candidates.len());
        let mut i: usize = 0;
        while i < ballots.len()
            invariant
                i <= ballots@.len(),
                counts@.len() == candidates@.len(),
                forall|p: int| 0 <= p < counts@.len() ==> (#[trigger] counts@[p]) as nat
                    == approval_count(
                    nominal_views(ballots@.take(i as int)),
                    candidates@[p]@.id,
                ),
                forall|p: int| 0 <= p < counts@.len() ==> (#[trigger] counts@[p]) <= (i as u128)
                    * 0xffff_ffff_ffff_ffff,
            decreases ballots@.len() - i,
        {
            let ghost prefix = nominal_views(ballots@.take(i as int));
            let b = &ballots[i].0;
            let mut k: usize = 0;
            while k < b.len()
                invariant
                    k <= b@.len(),
                    counts@.len() == candidates@.len(),
                    forall|p: int| 0 <= p < counts@.len() ==> (#[trigger] counts@[p]) as nat
                        == approval_count(prefix, candidates@[p]@.id) + count_occurrences(
                        b@.take(k as int),
                        candidates@[p]@.id,
                    ),
                    forall|p: int| 0 <= p < counts@.len() ==> (#[trigger] counts@[p]) <= (
                    i as u128) * 0xffff_ffff_ffff_ffff + (k as u128),
                decreases b@.len() - k,
            {
                proof {
                    assert(b@.take(k + 1).drop_last() =~= b@.take(k as int));
                    assert(b@.take(k + 1).last() == b@[k as int]);
                }
                let x = b[k];
                if let Option::Some(p) = position_by_id(candidates, x) {
                    let c = counts[p];
                    counts.set(p, c + 1);
                }
                k = k + 1;
            }
            proof {
                assert(b@.take(b@.len() as int) =~= b@);
                assert(nominal_views(ballots@.take(i + 1)).drop_last() =~= prefix);
                assert(nominal_views(ballots@.take(i + 1)).last() == ballots@[i as int]@);
            }
            i = i + 1;
        }
        proof {
            assert(ballots@.take(ballots@.len() as int) =~= ballots@);
            assert(nat_counts(counts@) =~= approval_counts(candidates@, views));
        }
        decide_single(candidates, &counts)
    }
}

} // verus!
