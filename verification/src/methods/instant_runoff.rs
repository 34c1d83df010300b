//! The instant-runoff method.

use vstd::prelude::*;
use crate::ballot::{ordinal_views, Id, Ordinal, Profile};
use crate::candidate::Candidate;
use crate::method::Method;
use crate::methods::{
    first_choice_count, lemma_first_choice_positive, plurality_counts, tally_first_choices,
};
use crate::outcome::{
    model_from_candidates, models_of_ids, strictly_increasing_ids, SingleWinner, SingleWinnerModel,
};
use crate::ranking::{exclude_ids, lemma_strip_all_shrinks, strip_all, total_len};
use crate::tally::{
    decide_single, ids_at, ids_with_count, lemma_ids_with_count_elem,
    lemma_ids_with_count_nonempty, lemma_max_score_attained, lemma_min_positive_attained,
    lemma_min_positive_zero, max_of_counts, max_score, min_positive, min_positive_of, nat_counts,
};

verus! {

/// Striking the round's losers strictly shortens the ballots: some loser
/// collects a positive first-place count, so some ballot opens with it.
pub proof fn lemma_round_shrinks(candidates: Seq<Candidate>, bs: Seq<Seq<Id>>, target: nat)
    requires
        target > 0,
        exists|p: int|
            0 <= p < candidates.len() && plurality_counts(candidates, bs)[p] == target,
    ensures
        total_len(strip_all(bs, ids_with_count(candidates, plurality_counts(candidates, bs), target)))
            < total_len(bs),
{
    let counts = plurality_counts(candidates, bs);
    let losers = ids_with_count(candidates, counts, target);
    lemma_ids_with_count_nonempty(candidates, counts, target);
    lemma_ids_with_count_elem(candidates, counts, target);
    assert(losers.len() >= 1);
    let p = choose|p: int|
        0 <= p < candidates.len() && 0 <= p < counts.len() && counts[p] == target && (
        #[trigger] candidates[p])@.id == losers[0];
    assert(first_choice_count(bs, losers[0]) == target);
    lemma_first_choice_positive(bs, losers[0]);
    let i = choose|i: int| 0 <= i < bs.len() && (#[trigger] bs[i]).len() > 0 && bs[i][0]
        == losers[0];
    assert(losers.contains(bs[i][0]));
    lemma_strip_all_shrinks(bs, losers);
}

/// The ids tied at the final maximum of the instant-runoff rounds, or the
/// empty list when no ballot counts. Each round tallies the first-choice
/// votes of the remaining rankings; the round ends the election when the
/// maximum reaches the majority threshold, when nobody scores, or when
/// striking every candidate tied for the minimum positive count would
/// eliminate every remaining candidate (a complete tie across all of
/// them). Otherwise the candidates tied for the minimum positive count
/// are struck from all rankings together, and the next round begins with
/// that many fewer candidates remaining.
pub open spec fn irv_winner_ids(
    candidates: Seq<Candidate>,
    bs: Seq<Seq<Id>>,
    majority: nat,
    remaining: nat,
) -> Seq<Id>
    decreases total_len(bs),
{
    let counts = plurality_counts(candidates, bs);
    let m = max_score(counts);
    if m == 0 {
        Seq::empty()
    } else if m >= majority {
        ids_with_count(candidates, counts, m)
    } else {
        let minp = min_positive(counts);
        let losers = ids_with_count(candidates, counts, minp);
        if losers.len() >= remaining {
            ids_with_count(candidates, counts, m)
        } else {
            proof {
                lemma_min_positive_zero(counts);
                lemma_min_positive_attained(counts);
                if candidates.len() == 0 {
                    assert(counts.len() == 0);
                    assert(m == 0);
                }
                lemma_round_shrinks(candidates, bs, minp);
            }
            irv_winner_ids(
                candidates,
                strip_all(bs, losers),
                majority,
                (remaining - losers.len()) as nat,
            )
        }
    }
}

/// What instant runoff decides: no winner when the rounds exhaust every
/// ballot, the single survivor at the final maximum when it is unique,
/// and otherwise a tie over exactly the candidates at the final maximum.
/// The majority threshold is half the profile plus one, fixed up front.
pub open spec fn irv_post(
    candidates: Seq<Candidate>,
    profile: Seq<Ordinal>,
    r: SingleWinnerModel,
) -> bool {
    let w = irv_winner_ids(
        candidates,
        ordinal_views(profile),
        profile.len() / 2 + 1,
        candidates.len(),
    );
    if w.len() == 0 {
        r is NoWinner
    } else if w.len() == 1 {
        r matches SingleWinnerModel::Win(c) && c.id == w[0] && model_from_candidates(
            candidates,
            c,
        )
    } else {
        r matches SingleWinnerModel::Tie(models) && strictly_increasing_ids(models)
            && models_of_ids(candidates, w, models)
    }
}

/// A single-winner, ranked voting method. The candidates with the fewest
/// first-choice votes are eliminated round by round, all those tied at
/// the minimum together, their votes passing to the next preference,
/// until a candidate holds a majority of the first-choice votes or the
/// elimination would remove every remaining candidate.
#[derive(Debug, Clone)]
pub struct IRV;

impl Method for IRV {
    type Ballot = Ordinal;

    type Winner = SingleWinner;

    open spec fn valid(&self, candidates: Seq<Candidate>) -> bool {
        true
    }

    fn check_valid(&self, candidates: &Vec<Candidate>) -> (r: bool) {
        true
    }

    open spec fn post(
        &self,
        candidates: Seq<Candidate>,
        profile: Seq<Ordinal>,
        r: SingleWinnerModel,
    ) -> bool {
        irv_post(candidates, profile, r)
    }

    /// Run the elimination rounds and decide the outcome.
    #[verifier::loop_isolation(false)]
    fn outcome(&self, candidates: &Vec<Candidate>, profile: Profile<Ordinal>) -> (r: SingleWinner) {
        let ghost original = ordinal_views(profile@);
        let majority = profile.len() / 2 + 1;
        let ghost majority_n = (majority as nat);
        let mut ballots: Vec<Ordinal> = profile.into_vec();
        let mut remaining = candidates.len();
        loop
            invariant
                remaining <= candidates@.len(),
                irv_winner_ids(candidates@, ordinal_views(ballots@), majority_n, remaining as nat)
                    == irv_winner_ids(candidates@, original, majority_n, candidates@.len()),
            decreases total_len(ordinal_views(ballots@)),
        {
            let ghost views = ordinal_views(ballots@);
            let counts = tally_first_choices(candidates, &ballots);
            let ghost ncounts = plurality_counts(candidates@, views);
            let m = max_of_counts(&counts);
            if m == 0 {
                return decide_single(candidates, &counts);
            }
            if m >= majority as u128 {
                proof {
                    lemma_max_score_attained(nat_counts(counts@));
                    lemma_ids_with_count_nonempty(candidates@, ncounts, m as nat);
                }
                return decide_single(candidates, &counts);
            }
            let minp = min_positive_of(&counts);
            let losers = ids_at(candidates, &counts, minp);
            if losers.len() >= remaining {
                // a complete tie: striking the losers would eliminate
                // every remaining candidate
                proof {
                    lemma_max_score_attained(nat_counts(counts@));
                    lemma_ids_with_count_nonempty(candidates@, ncounts, m as nat);
                }
                return decide_single(candidates, &counts);
            }
            // strike this round's losers from every ranking
            proof {
                lemma_min_positive_zero(ncounts);
                lemma_min_positive_attained(ncounts);
                if candidates@.len() == 0 {
                    assert(ncounts.len() == 0);
                }
                lemma_round_shrinks(candidates@, views, minp as nat);
            }
            let mut stripped: Vec<Ordinal> = Vec::new();
            let mut i: usize = 0;
            while i < ballots.len()
                invariant
                    i <= ballots@.len(),
                    stripped@.len() == i,
                    forall|j: int| 0 <= j < i ==> (#[trigger] stripped@[j])@ == strip_all(
                        views,
                        losers@,
                    )[j],
                decreases ballots@.len() - i,
            {
                stripped.push(Ordinal(exclude_ids(&ballots[i].0, &losers)));
                i = i + 1;
            }
            proof {
                assert(ordinal_views(stripped@) =~= strip_all(views, losers@));
            }
            ballots = stripped;
            remaining = remaining - losers.len();
        }
    }
}

} // verus!
