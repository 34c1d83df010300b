//! The Borda count method.

use vstd::prelude::*;
use crate::ballot::{ordinal_views, Ballot, Id, Ordinal, Profile};
use crate::candidate::Candidate;
use crate::method::Method;
use crate::outcome::{SingleWinner, SingleWinnerModel};
use crate::tally::{decide_single, nat_counts, position_by_id, single_outcome_spec, zero_counts};

verus! {

/// The points `id` earns from the first `k` entries of one ranking of
/// length `L`: the entry at position `j` is worth `L - j` points, so the
/// first entry earns `L` and the last entry earns one.
pub open spec fn borda_points_upto(b: Seq<Id>, id: Id, k: int) -> nat
    decreases k,
{
    if k <= 0 || k > b.len() {
        0
    } else {
        borda_points_upto(b, id, k - 1) + (if b[k - 1] == id {
            (b.len() - (k - 1)) as nat
        } else {
            0nat
        })
    }
}

/// The points `id` earns from one ranking.
pub open spec fn borda_points(b: Seq<Id>, id: Id) -> nat {
    borda_points_upto(b, id, b.len() as int)
}

/// The points `id` earns over all rankings.
pub open spec fn borda_score(bs: Seq<Seq<Id>>, id: Id) -> nat
    decreases bs.len(),
{
    if bs.len() == 0 {
        0
    } else {
        borda_score(bs.drop_last(), id) + borda_points(bs.last(), id)
    }
}

/// A ranking gives no points to an id it does not hold.
proof fn lemma_borda_points_absent(b: Seq<Id>, id: Id, k: int)
    requires
        forall|j: int| 0 <= j < k ==> b[j] != id,
    ensures
        borda_points_upto(b, id, k) == 0,
    decreases k,
{
    if 0 < k <= b.len() {
        lemma_borda_points_absent(b, id, k - 1);
    }
}

/// A ranking without repetitions gives an id at most its own length in
/// points.
proof fn lemma_borda_points_bound(b: Seq<Id>, id: Id, k: int)
    requires
        b.no_duplicates(),
    ensures
        borda_points_upto(b, id, k) <= b.len(),
    decreases k,
{
    if 0 < k <= b.len() {
        lemma_borda_points_bound(b, id, k - 1);
        if b[k - 1] == id {
            assert(forall|j: int| 0 <= j < k - 1 ==> b[j] != id);
            lemma_borda_points_absent(b, id, k - 1);
        }
    }
}

/// One Borda score per candidate, in candidate order.
pub open spec fn borda_counts(candidates: Seq<Candidate>, bs: Seq<Seq<Id>>) -> Seq<nat> {
    Seq::new(candidates.len(), |i: int| borda_score(bs, candidates[i]@.id))
}

/// A single-winner, ranked voting method: each rank is worth a value
/// corresponding to its order. In a ranking of length `L`, first place is
/// worth `L` points, second place `L - 1`, and so on down to one point
/// for last place. The candidates whose sum of points is highest win.
#[derive(Debug, Clone)]
pub struct Borda;

impl Method for Borda {
    type Ballot = Ordinal;

    type Winner = SingleWinner;

    open spec fn valid(&self, candidates: Seq<Candidate>) -> bool {
        true
    }

    fn check_valid(&self, candidates: &Vec<Candidate>) -> (r: bool) {
        true
    }

    open spec fn post(
        &self,
        candidates: Seq<Candidate>,
        profile: Seq<Ordinal>,
        r: SingleWinnerModel,
    ) -> bool {
        single_outcome_spec(candidates, borda_counts(candidates, ordinal_views(profile)), r)
    }

    /// Sum the rank points and decide the outcome.
    #[verifier::loop_isolation(false)]
    fn outcome(&self, candidates: &Vec<Candidate>, profile: Profile<Ordinal>) -> (r: SingleWinner) {
        let ballots = profile.iter();
        let ghost views = ordinal_views(ballots@);
        let mut counts = zero_counts(candidates.len());
        let mut i: usize = 0;
        while i < ballots.len()
            invariant
                i <= ballots@.len(),
                counts@.len() == candidates@.len(),
                forall|p: int| 0 <= p < counts@.len() ==> (#[trigger] counts@[p]) as nat
                    == borda_score(ordinal_views(ballots@.take(i as int)), candidates@[p]@.id),
                forall|p: int| 0 <= p < counts@.len() ==> (#[trigger] counts@[p]) <= (i as u128)
                    * 0xffff_ffff_ffff_ffff,
            decreases ballots@.len() - i,
        {
            let ghost prefix = ordinal_views(ballots@.take(i as int));
            let b = &ballots[i].0;
            proof {
                assert(ballots@[i as int].wf());
                assert forall|p: int| 0 <= p < counts@.len() implies borda_score(
                    prefix,
                    (#[trigger] candidates@[p])@.id,
                ) <= (i as u128) * 0xffff_ffff_ffff_ffff by {
                    assert(counts@[p] as nat == borda_score(prefix, candidates@[p]@.id));
                    assert(counts@[p] <= (i as u128) * 0xffff_ffff_ffff_ffff);
                }
            }
            let len = b.len();
            let mut k: usize = 0;
            while k < len
                invariant
                    k <= b@.len(),
                    len == b@.len(),
                    b@.no_duplicates(),
                    counts@.len() == candidates@.len(),
                    forall|p: int| 0 <= p < counts@.len() ==> (#[trigger] counts@[p]) as nat
                        == borda_score(prefix, candidates@[p]@.id) + borda_points_upto(
                        b@,
                        candidates@[p]@.id,
                        k as int,
                    ),
                    forall|p: int| 0 <= p < counts@.len() ==> borda_score(
                        prefix,
                        (#[trigger] candidates@[p])@.id,
                    ) <= (i as u128) * 0xffff_ffff_ffff_ffff,
                decreases b@.len() - k,
            {
                let x = b[k];
                if let Option::Some(p) = position_by_id(candidates, x) {
                    let c = counts[p];
                    proof {
                        lemma_borda_points_bound(b@, candidates@[p as int]@.id, k as int);
                    }
                    counts.set(p, c + (len - k) as u128);
                }
                k = k + 1;
            }
            proof {
                assert(ordinal_views(ballots@.take(i + 1)).drop_last() =~= prefix);
                assert(ordinal_views(ballots@.take(i + 1)).last() == ballots@[i as int]@);
                assert forall|p: int| 0 <= p < counts@.len() implies (#[trigger] counts@[p])
                    <= ((i + 1) as u128) * 0xffff_ffff_ffff_ffff by {
                    lemma_borda_points_bound(b@, candidates@[p]@.id, len as int);
                    assert((len as u128) <= 0xffff_ffff_ffff_ffff);
                }
            }
            i = i + 1;
        }
        proof {
            assert(ballots@.take(ballots@.len() as int) =~= ballots@);
            assert(nat_counts(counts@) =~= borda_counts(candidates@, views));
        }
        decide_single(candidates, &counts)
    }
}

} // verus!
