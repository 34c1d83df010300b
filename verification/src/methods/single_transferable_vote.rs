//! The single transferable vote method.

use vstd::prelude::*;
use crate::ballot::{ordinal_views, Id, Ordinal, Profile};
use crate::candidate::{distinct_ids, Candidate, CandidateModel};
use crate::method::Method;
use crate::methods::{first_choice_count, plurality_counts, tally_first_choices};
use crate::outcome::{
    has_candidate, lemma_models_len, models_contain_id, models_of_ids, models_seq,
    strictly_increasing_ids, MultiWinner, MultiWinnerModel,
};
use crate::ranking::{exclude_ids, strip_all};
use crate::tally::{max_of_counts, max_score, nat_counts};

verus! {

/// True when no two of the records share one id.
pub open spec fn distinct_model_ids(models: Seq<CandidateModel>) -> bool {
    forall|i: int, j: int|
        0 <= i < j < models.len() ==> (#[trigger] models[i]).id != (#[trigger] models[j]).id
}

/// One first-place score per record, in record order.
pub open spec fn model_counts(models: Seq<CandidateModel>, bs: Seq<Seq<Id>>) -> Seq<nat> {
    Seq::new(models.len(), |i: int| first_choice_count(bs, models[i].id))
}

/// The position of the best record among the first `k`: the one with the
/// highest count, ties broken towards the highest id.
pub open spec fn elect_pick(models: Seq<CandidateModel>, counts: Seq<nat>, k: int) -> int
    decreases k,
{
    if k <= 1 {
        0
    } else {
        let best = elect_pick(models, counts, k - 1);
        if counts[k - 1] > counts[best] || (counts[k - 1] == counts[best] && models[k - 1].id
            > models[best].id) {
            k - 1
        } else {
            best
        }
    }
}

/// The position of the weakest record among the first `k`: the one with
/// the lowest count, ties broken towards the lowest id.
pub open spec fn eliminate_pick(models: Seq<CandidateModel>, counts: Seq<nat>, k: int) -> int
    decreases k,
{
    if k <= 1 {
        0
    } else {
        let worst = eliminate_pick(models, counts, k - 1);
        if counts[k - 1] < counts[worst] || (counts[k - 1] == counts[worst] && models[k - 1].id
            < models[worst].id) {
            k - 1
        } else {
            worst
        }
    }
}

/// The picks stay in range.
pub proof fn lemma_picks_in_range(models: Seq<CandidateModel>, counts: Seq<nat>, k: int)
    requires
        k >= 1,
    ensures
        0 <= elect_pick(models, counts, k) < k,
        0 <= eliminate_pick(models, counts, k) < k,
    decreases k,
{
    if k > 1 {
        lemma_picks_in_range(models, counts, k - 1);
    }
}

/// The ids elected by the transfer rounds. While seats stay open and
/// more candidates stand than seats remain, the round tallies the
/// first-choice counts of the standing candidates; if the best count
/// reaches the quota that candidate is elected, otherwise the weakest is
/// eliminated, and either way the chosen candidate is struck from every
/// ranking. When the standing candidates only just fill the open seats,
/// they are all elected.
pub open spec fn stv_rounds(
    standing: Seq<CandidateModel>,
    bs: Seq<Seq<Id>>,
    winners: Seq<Id>,
    seats: nat,
    quota: nat,
) -> Seq<Id>
    decreases standing.len(),
{
    if winners.len() >= seats {
        winners
    } else if standing.len() + winners.len() <= seats {
        winners + standing.map_values(|m: CandidateModel| m.id)
    } else {
        let counts = model_counts(standing, bs);
        let m = max_score(counts);
        proof {
            lemma_picks_in_range(standing, counts, standing.len() as int);
        }
        let p = if m >= quota {
            elect_pick(standing, counts, standing.len() as int)
        } else {
            eliminate_pick(standing, counts, standing.len() as int)
        };
        let id = standing[p].id;
        let next_winners = if m >= quota {
            winners.push(id)
        } else {
            winners
        };
        stv_rounds(standing.remove(p), strip_all(bs, seq![id]), next_winners, seats, quota)
    }
}

/// Law: the transfer rounds fill every seat, each with a different
/// candidate. Whenever the open seats can still be filled by the
/// standing candidates, the rounds return exactly `seats` ids, without
/// repetition, each drawn from the pool of records.
pub proof fn lemma_stv_seats(
    standing: Seq<CandidateModel>,
    bs: Seq<Seq<Id>>,
    winners: Seq<Id>,
    seats: nat,
    quota: nat,
    pool: Seq<CandidateModel>,
)
    requires
        winners.len() <= seats,
        standing.len() + winners.len() >= seats,
        winners.no_duplicates(),
        forall|k: int, j: int|
            0 <= k < standing.len() && 0 <= j < winners.len() ==> (#[trigger] standing[k]).id != (
            #[trigger] winners[j]),
        distinct_model_ids(standing),
        forall|k: int| 0 <= k < standing.len() ==> models_contain_id(
            pool,
            (#[trigger] standing[k]).id,
        ),
        forall|j: int| 0 <= j < winners.len() ==> models_contain_id(pool, #[trigger] winners[j]),
    ensures
        stv_rounds(standing, bs, winners, seats, quota).len() == seats,
        stv_rounds(standing, bs, winners, seats, quota).no_duplicates(),
        forall|j: int| 0 <= j < stv_rounds(standing, bs, winners, seats, quota).len()
            ==> models_contain_id(
            pool,
            #[trigger] stv_rounds(standing, bs, winners, seats, quota)[j],
        ),
    decreases standing.len(),
{
    let r = stv_rounds(standing, bs, winners, seats, quota);
    if winners.len() >= seats {
    } else if standing.len() + winners.len() <= seats {
        let ids = standing.map_values(|m: CandidateModel| m.id);
        assert forall|i: int, j: int| 0 <= i < j < r.len() implies r[i] != r[j] by {
            if i >= winners.len() && j >= winners.len() {
                assert(standing[i - winners.len()].id != standing[j - winners.len()].id);
            } else if i < winners.len() && j >= winners.len() {
                assert(r[j] == standing[j - winners.len()].id);
            }
        }
        assert forall|j: int| 0 <= j < r.len() implies models_contain_id(
            pool,
            #[trigger] r[j],
        ) by {
            if j >= winners.len() {
                assert(r[j] == standing[j - winners.len()].id);
            }
        }
    } else {
        let counts = model_counts(standing, bs);
        let m = max_score(counts);
        lemma_picks_in_range(standing, counts, standing.len() as int);
        let p = if m >= quota {
            elect_pick(standing, counts, standing.len() as int)
        } else {
            eliminate_pick(standing, counts, standing.len() as int)
        };
        let id = standing[p].id;
        let next_winners = if m >= quota {
            winners.push(id)
        } else {
            winners
        };
        let next_standing = standing.remove(p);
        assert forall|k: int| 0 <= k < next_standing.len() implies (
        #[trigger] next_standing[k]).id != id && models_contain_id(
            pool,
            next_standing[k].id,
        ) by {
            if k < p {
                assert(next_standing[k] == standing[k]);
            } else {
                assert(next_standing[k] == standing[k + 1]);
            }
        }
        assert forall|k: int, j: int| 0 <= k < j < next_standing.len() implies (
        #[trigger] next_standing[k]).id != (#[trigger] next_standing[j]).id by {
            if k < p {
                assert(next_standing[k] == standing[k]);
            } else {
                assert(next_standing[k] == standing[k + 1]);
            }
            if j < p {
                assert(next_standing[j] == standing[j]);
            } else {
                assert(next_standing[j] == standing[j + 1]);
            }
        }
        assert forall|k: int, j: int|
            0 <= k < next_standing.len() && 0 <= j < next_winners.len() implies (
        #[trigger] next_standing[k]).id != (#[trigger] next_winners[j]) by {
            if k < p {
                assert(next_standing[k] == standing[k]);
            } else {
                assert(next_standing[k] == standing[k + 1]);
            }
            if j < winners.len() {
                assert(next_winners[j] == winners[j]);
            } else {
                assert(next_winners[j] == id);
            }
        }
        if m >= quota {
            assert(models_contain_id(pool, id));
            assert forall|j: int| 0 <= j < next_winners.len() implies models_contain_id(
                pool,
                #[trigger] next_winners[j],
            ) by {
                if j < winners.len() {
                    assert(next_winners[j] == winners[j]);
                }
            }
            assert forall|i: int, j: int| 0 <= i < j < next_winners.len() implies next_winners[i]
                != next_winners[j] by {
                if j == winners.len() as int {
                    assert(next_winners[i] == winners[i]);
                    assert(standing[p].id != winners[i]);
                }
            }
        }
        lemma_stv_seats(next_standing, strip_all(bs, seq![id]), next_winners, seats, quota, pool);
    }
}

/// A multi-winner, ranked voting method. Candidates who reach the Droop
/// quota are elected one by one, the strongest first and ties broken
/// towards the highest id; when nobody reaches it, the candidate with
/// the fewest first-choice votes is eliminated, ties broken towards the
/// lowest id. Elected and eliminated candidates are struck from every
/// ranking. The rounds continue until every seat is filled.
#[derive(Debug, Clone)]
pub struct STV {
    seats: usize,
}

impl STV {
    /// Creates a new instance with the given number of seats.
    pub fn new(seats: usize) -> (r: Self)
        ensures
            r.seats() == seats,
    {
        STV { seats }
    }

    /// The number of seats to fill.
    pub closed spec fn seats(&self) -> usize {
        self.seats
    }

    /// What the rounds elect on the whole profile: the Droop quota is
    /// `ballots / (seats + 1) + 1`, fixed up front.
    pub open spec fn elected_ids(&self, candidates: Seq<Candidate>, profile: Seq<Ordinal>) -> Seq<
        Id,
    > {
        stv_rounds(
            models_seq(candidates),
            ordinal_views(profile),
            Seq::empty(),
            self.seats() as nat,
            profile.len() / (self.seats() as nat + 1) + 1,
        )
    }
}

impl Method for STV {
    type Ballot = Ordinal;

    type Winner = MultiWinner;

    /// The seat count must not exceed the number of candidates.
    open spec fn valid(&self, candidates: Seq<Candidate>) -> bool {
        self.seats() <= candidates.len()
    }

    fn check_valid(&self, candidates: &Vec<Candidate>) -> (r: bool) {
        self.seats <= candidates.len()
    }

    /// STV elects exactly `seats` distinct candidates: those the
    /// transfer rounds pick, in increasing id order.
    open spec fn post(
        &self,
        candidates: Seq<Candidate>,
        profile: Seq<Ordinal>,
        r: MultiWinnerModel,
    ) -> bool {
        let w = self.elected_ids(candidates, profile);
        &&& r matches MultiWinnerModel::Elected(models) && strictly_increasing_ids(models)
            && models_of_ids(candidates, w, models) && models.len() == self.seats()
    }

    /// Run the transfer rounds and elect the winners.
    #[verifier::loop_isolation(false)]
    fn outcome(&self, candidates: &Vec<Candidate>, profile: Profile<Ordinal>) -> (r: MultiWinner) {
        let ghost original = ordinal_views(profile@);
        let seats = self.seats;
        let quota: u128 = (profile.len() as u128) / (seats as u128 + 1) + 1;
        let ghost quota_n = (quota as nat);
        proof {
            assert(quota_n == original.len() / (seats as nat + 1) + 1);
        }
        let mut ballots: Vec<Ordinal> = profile.into_vec();
        let mut active: Vec<Candidate> = Vec::new();
        let mut i: usize = 0;
        while i < candidates.len()
            invariant
                i <= candidates@.len(),
                active@.len() == i,
                forall|k: int| 0 <= k < i ==> (#[trigger] active@[k])@ == candidates@[k]@,
            decreases candidates@.len() - i,
        {
            active.push(candidates[i].duplicate());
            i = i + 1;
        }
        let mut winners: Vec<Id> = Vec::new();
        let ghost pool = models_seq(candidates@);
        let ghost target = stv_rounds(pool, original, Seq::empty(), seats as nat, quota_n);
        proof {
            assert(models_seq(active@) =~= pool);
            lemma_stv_seats(
                models_seq(active@),
                ordinal_views(ballots@),
                winners@,
                seats as nat,
                quota_n,
                pool,
            );
        }
        let mut done: bool = false;
        while !done
            invariant
                seats == self.seats(),
                winners@.len() <= seats,
                active@.len() + winners@.len() >= seats,
                distinct_ids(active@),
                stv_rounds(
                    models_seq(active@),
                    ordinal_views(ballots@),
                    winners@,
                    seats as nat,
                    quota_n,
                ) == target,
                done ==> winners@.len() == seats,
            decreases active@.len(), (if done {
                0int
            } else {
                1int
            }),
        {
            let ghost views = ordinal_views(ballots@);
            let ghost standing = models_seq(active@);
            if winners.len() == seats {
                done = true;
            } else if active.len() <= seats - winners.len() {
                // the standing candidates only just fill the open seats
                let mut k: usize = 0;
                let ghost w0 = winners@;
                while k < active.len()
                    invariant
                        k <= active@.len(),
                        winners@ == w0 + standing.map_values(|m: CandidateModel| m.id).take(
                            k as int,
                        ),
                    decreases active@.len() - k,
                {
                    proof {
                        let ids = standing.map_values(|m: CandidateModel| m.id);
                        assert(w0 + ids.take(k + 1) =~= (w0 + ids.take(k as int)).push(
                            ids[k as int],
                        ));
                    }
                    winners.push(active[k].id());
                    k = k + 1;
                }
                proof {
                    let ids = standing.map_values(|m: CandidateModel| m.id);
                    assert(ids.take(ids.len() as int) =~= ids);
                    assert(winners@ == w0 + ids);
                }
                done = true;
            } else {
                let counts = tally_first_choices(&active, &ballots);
                let ghost ncounts = model_counts(standing, views);
                proof {
                    assert(plurality_counts(active@, views) =~= ncounts);
                    assert(nat_counts(counts@) == ncounts);
                }
                let m = max_of_counts(&counts);
                // pick who leaves the count: the elected best or the
                // eliminated weakest
                let electing = m >= quota;
                let mut best: usize = 0;
                let mut k: usize = 1;
                while k < active.len()
                    invariant
                        1 <= k <= active@.len(),
                        best < k,
                        counts@.len() == active@.len(),
                        electing ==> best == elect_pick(standing, ncounts, k as int),
                        !electing ==> best == eliminate_pick(standing, ncounts, k as int),
                    decreases active@.len() - k,
                {
                    proof {
                        assert(ncounts[k as int] == counts@[k as int] as nat);
                        assert(ncounts[best as int] == counts@[best as int] as nat);
                        assert(standing[k as int] == active@[k as int]@);
                        assert(standing[best as int] == active@[best as int]@);
                    }
                    if electing {
                        if counts[k] > counts[best] || (counts[k] == counts[best] && active[k].id()
                            > active[best].id()) {
                            best = k;
                        }
                    } else {
                        if counts[k] < counts[best] || (counts[k] == counts[best] && active[k].id()
                            < active[best].id()) {
                            best = k;
                        }
                    }
                    k = k + 1;
                }
                let id = active[best].id();
                if electing {
                    winners.push(id);
                }
                let mut struck: Vec<Id> = Vec::new();
                struck.push(id);
                proof {
                    assert(struck@ =~= seq![id]);
                }
                let mut stripped: Vec<Ordinal> = Vec::new();
                let mut b: usize = 0;
                while b < ballots.len()
                    invariant
                        b <= ballots@.len(),
                        stripped@.len() == b,
                        struck@ == seq![id],
                        forall|j: int| 0 <= j < b ==> (#[trigger] stripped@[j])@ == strip_all(
                            views,
                            seq![id],
                        )[j],
                    decreases ballots@.len() - b,
                {
                    stripped.push(Ordinal(exclude_ids(&ballots[b].0, &struck)));
                    b = b + 1;
                }
                proof {
                    assert(ordinal_views(stripped@) =~= strip_all(views, seq![id]));
                }
                ballots = stripped;
                let ghost prev_active = active@;
                active.remove(best);
                proof {
                    assert forall|a: int, b2: int| 0 <= a < b2 < active@.len() implies (
                    #[trigger] active@[a])@.id != (#[trigger] active@[b2])@.id by {
                        if a < best {
                            assert(active@[a] == prev_active[a]);
                        } else {
                            assert(active@[a] == prev_active[a + 1]);
                        }
                        if b2 < best {
                            assert(active@[b2] == prev_active[b2]);
                        } else {
                            assert(active@[b2] == prev_active[b2 + 1]);
                        }
                    }
                    assert(models_seq(active@) =~= standing.remove(best as int));
                }
            }
        }
        proof {
            assert(winners@ == target);
            assert forall|j: int| 0 <= j < winners@.len() implies has_candidate(
                candidates@,
                #[trigger] winners@[j],
            ) by {
                assert(models_contain_id(pool, winners@[j]));
                let k = choose|k: int| 0 <= k < pool.len() && (#[trigger] pool[k]).id
                    == winners@[j];
                assert(candidates@[k]@.id == winners@[j]);
            }
        }
        let r = MultiWinner::seats(candidates, &winners);
        proof {
            lemma_models_len(candidates@, winners@, r@->Elected_0);
        }
        r
    }
}

} // verus!
