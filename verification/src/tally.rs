//! Shared tallying machinery for the single-winner methods: maximal
//! scores, the set of candidates reaching them, and the resulting outcome.

use vstd::prelude::*;
use crate::ballot::Id;
use crate::candidate::Candidate;
use crate::outcome::{
    all_ids_known, has_candidate, model_from_candidates, models_of_ids, strictly_increasing_ids,
    SingleWinner, SingleWinnerModel,
};

verus! {

/// The scores as mathematical numbers.
pub open spec fn nat_counts(counts: Seq<u128>) -> Seq<nat> {
    counts.map_values(|c: u128| c as nat)
}

/// The greatest score in the list, or zero when there is none.
pub open spec fn max_score(counts: Seq<nat>) -> nat
    decreases counts.len(),
{
    if counts.len() == 0 {
        0
    } else {
        let rest = max_score(counts.drop_last());
        if counts.last() > rest {
            counts.last()
        } else {
            rest
        }
    }
}

/// The ids of the candidates whose score equals `m`, in candidate order.
pub open spec fn ids_with_count(candidates: Seq<Candidate>, counts: Seq<nat>, m: nat) -> Seq<Id>
    decreases candidates.len(),
{
    if candidates.len() == 0 || counts.len() == 0 {
        Seq::empty()
    } else {
        let rest = ids_with_count(candidates.drop_last(), counts.drop_last(), m);
        if counts.last() == m {
            rest.push(candidates.last()@.id)
        } else {
            rest
        }
    }
}

/// What a score table decides: no winner when no candidate scores, the
/// single candidate at the maximum when it is unique, and otherwise a tie
/// over exactly the candidates at the maximum.
pub open spec fn single_outcome_spec(
    candidates: Seq<Candidate>,
    counts: Seq<nat>,
    r: SingleWinnerModel,
) -> bool {
    let m = max_score(counts);
    let w = ids_with_count(candidates, counts, m);
    if m == 0 {
        r is NoWinner
    } else if w.len() == 1 {
        r matches SingleWinnerModel::Win(c) && c.id == w[0] && model_from_candidates(
            candidates,
            c,
        )
    } else {
        r matches SingleWinnerModel::Tie(models) && strictly_increasing_ids(models)
            && models_of_ids(candidates, w, models)
    }
}

/// Every id reaching the maximum is the id of one of the candidates.
proof fn lemma_ids_with_count_known(candidates: Seq<Candidate>, counts: Seq<nat>, m: nat)
    ensures
        all_ids_known(candidates, ids_with_count(candidates, counts, m)),
    decreases candidates.len(),
{
    if candidates.len() == 0 || counts.len() == 0 {
    } else {
        let chead = candidates.drop_last();
        lemma_ids_with_count_known(chead, counts.drop_last(), m);
        let rest = ids_with_count(chead, counts.drop_last(), m);
        let whole = ids_with_count(candidates, counts, m);
        assert forall|j: int| 0 <= j < whole.len() implies has_candidate(
            candidates,
            #[trigger] whole[j],
        ) by {
            if j < rest.len() {
                assert(has_candidate(chead, rest[j]));
                let w = choose|i: int| 0 <= i < chead.len() && (#[trigger] chead[i])@.id
                    == rest[j];
                assert(candidates[w]@.id == whole[j]);
            } else {
                assert(whole[j] == candidates.last()@.id);
                assert(candidates[candidates.len() - 1]@.id == whole[j]);
            }
        }
    }
}

/// Turn a score table into the outcome it decides.
#[verifier::loop_isolation(false)]
pub fn decide_single(candidates: &Vec<Candidate>, counts: &Vec<u128>) -> (r: SingleWinner)
    requires
        counts@.len() == candidates@.len(),
    ensures
        single_outcome_spec(candidates@, nat_counts(counts@), r@),
{
    let ghost ncounts = nat_counts(counts@);
    // the greatest score
    let mut m: u128 = 0;
    let mut i: usize = 0;
    while i < counts.len()
        invariant
            i <= counts@.len(),
            m == max_score(nat_counts(counts@.take(i as int))),
        decreases counts@.len() - i,
    {
        proof {
            assert(counts@.take(i + 1).drop_last() =~= counts@.take(i as int));
            assert(nat_counts(counts@.take(i + 1)).drop_last() =~= nat_counts(
                counts@.take(i as int),
            ));
        }
        if counts[i] > m {
            m = counts[i];
        }
        i = i + 1;
    }
    proof {
        assert(counts@.take(counts@.len() as int) =~= counts@);
    }
    if m == 0 {
        return SingleWinner::none();
    }
    // the candidates that reach it
    let mut winners: Vec<Id> = Vec::new();
    let mut k: usize = 0;
    while k < counts.len()
        invariant
            k <= counts@.len(),
            winners@ == ids_with_count(
                candidates@.take(k as int),
                nat_counts(counts@.take(k as int)),
                m as nat,
            ),
        decreases counts@.len() - k,
    {
        proof {
            assert(counts@.take(k + 1).drop_last() =~= counts@.take(k as int));
            assert(candidates@.take(k + 1).drop_last() =~= candidates@.take(k as int));
            assert(nat_counts(counts@.take(k + 1)).drop_last() =~= nat_counts(
                counts@.take(k as int),
            ));
            assert(candidates@.take(k + 1).last() == candidates@[k as int]);
        }
        if counts[k] == m {
            winners.push(candidates[k].id());
        }
        k = k + 1;
    }
    proof {
        assert(counts@.take(counts@.len() as int) =~= counts@);
        assert(candidates@.take(candidates@.len() as int) =~= candidates@);
        lemma_ids_with_count_known(candidates@, ncounts, m as nat);
    }
    if winners.len() == 1 {
        let id = winners[0];
        SingleWinner::win(candidates, id)
    } else {
        SingleWinner::tie(candidates, &winners)
    }
}

} // verus!

verus! {

/// A table of zero scores, one per candidate.
#[verifier::loop_isolation(false)]
pub fn zero_counts(n: usize) -> (r: Vec<u128>)
    ensures
        r@.len() == n,
        forall|i: int| 0 <= i < n ==> r@[i] == 0,
{
    let mut out: Vec<u128> = Vec::new();
    let mut i: usize = 0;
    while i < n
        invariant
            i <= n,
            out@.len() == i,
            forall|j: int| 0 <= j < i ==> out@[j] == 0,
        decreases n - i,
    {
        out.push(0);
        i = i + 1;
    }
    out
}

/// The position of the candidate carrying `id`, when there is one.
#[verifier::loop_isolation(false)]
pub fn position_by_id(candidates: &Vec<Candidate>, id: Id) -> (r: Option<usize>)
    ensures
        r matches Some(p) ==> p < candidates@.len() && candidates@[p as int]@.id == id,
        r is None ==> !has_candidate(candidates@, id),
{
    let mut i: usize = 0;
    while i < candidates.len()
        invariant
            i <= candidates@.len(),
            forall|j: int| 0 <= j < i ==> (#[trigger] candidates@[j])@.id != id,
        decreases candidates@.len() - i,
    {
        if candidates[i].id() == id {
            return Option::Some(i);
        }
        i = i + 1;
    }
    Option::None
}

} // verus!

verus! {

/// The least positive score in the list, or zero when every score is
/// zero.
pub open spec fn min_positive(counts: Seq<nat>) -> nat
    decreases counts.len(),
{
    if counts.len() == 0 {
        0
    } else {
        let rest = min_positive(counts.drop_last());
        let lastv = counts.last();
        if lastv == 0 {
            rest
        } else if rest == 0 || lastv < rest {
            lastv
        } else {
            rest
        }
    }
}

/// Some candidate reaches the maximum when it is positive.
pub proof fn lemma_ids_with_count_nonempty(candidates: Seq<Candidate>, counts: Seq<nat>, m: nat)
    requires
        counts.len() == candidates.len(),
        exists|p: int| 0 <= p < counts.len() && counts[p] == m,
    ensures
        ids_with_count(candidates, counts, m).len() >= 1,
    decreases candidates.len(),
{
    if counts.len() > 0 {
        if counts.last() == m {
        } else {
            let p = choose|p: int| 0 <= p < counts.len() && counts[p] == m;
            assert(counts.drop_last()[p] == m);
            lemma_ids_with_count_nonempty(candidates.drop_last(), counts.drop_last(), m);
        }
    }
}

/// Every id at the maximum is carried by a candidate whose score is the
/// maximum.
pub proof fn lemma_ids_with_count_elem(candidates: Seq<Candidate>, counts: Seq<nat>, m: nat)
    requires
        counts.len() == candidates.len(),
    ensures
        forall|k: int| #![trigger ids_with_count(candidates, counts, m)[k]]
            0 <= k < ids_with_count(candidates, counts, m).len() ==> exists|p: int|
                0 <= p < candidates.len() && 0 <= p < counts.len() && counts[p] == m && (
                #[trigger] candidates[p])@.id == ids_with_count(candidates, counts, m)[k],
    decreases candidates.len(),
{
    if candidates.len() == 0 || counts.len() == 0 {
    } else {
        let chead = candidates.drop_last();
        let nhead = counts.drop_last();
        lemma_ids_with_count_elem(chead, nhead, m);
        let rest = ids_with_count(chead, nhead, m);
        let whole = ids_with_count(candidates, counts, m);
        assert forall|k: int| #![trigger whole[k]] 0 <= k < whole.len() implies exists|p: int|
            0 <= p < candidates.len() && 0 <= p < counts.len() && counts[p] == m && (
            #[trigger] candidates[p])@.id == whole[k] by {
            if k < rest.len() {
                assert(whole[k] == rest[k]);
                assert(ids_with_count(chead, nhead, m)[k] == rest[k]);
                let p = choose|p: int|
                    0 <= p < chead.len() && 0 <= p < nhead.len() && nhead[p] == m && (
                    #[trigger] chead[p])@.id == rest[k];
                assert(candidates[p] == chead[p] && counts[p] == nhead[p]);
                assert(candidates[p]@.id == whole[k] && counts[p] == m);
            } else {
                let p = candidates.len() - 1;
                assert(candidates[p]@.id == whole[k] && counts[p] == m);
            }
        }
    }
}

/// The least positive score is attained when it is positive.
pub proof fn lemma_min_positive_attained(counts: Seq<nat>)
    requires
        min_positive(counts) > 0,
    ensures
        exists|p: int| 0 <= p < counts.len() && counts[p] == min_positive(counts),
    decreases counts.len(),
{
    if counts.len() > 0 {
        let rest = min_positive(counts.drop_last());
        let lastv = counts.last();
        if min_positive(counts) == lastv && (lastv != 0 && (rest == 0 || lastv < rest)) {
            assert(counts[counts.len() - 1] == lastv);
        } else {
            lemma_min_positive_attained(counts.drop_last());
            let p = choose|p: int|
                0 <= p < counts.drop_last().len() && counts.drop_last()[p] == rest;
            assert(counts[p] == rest);
        }
    }
}

/// The greatest score in a table.
#[verifier::loop_isolation(false)]
pub fn max_of_counts(counts: &Vec<u128>) -> (r: u128)
    ensures
        r as nat == max_score(nat_counts(counts@)),
{
    let mut m: u128 = 0;
    let mut i: usize = 0;
    while i < counts.len()
        invariant
            i <= counts@.len(),
            m == max_score(nat_counts(counts@.take(i as int))),
        decreases counts@.len() - i,
    {
        proof {
            assert(counts@.take(i + 1).drop_last() =~= counts@.take(i as int));
            assert(nat_counts(counts@.take(i + 1)).drop_last() =~= nat_counts(
                counts@.take(i as int),
            ));
        }
        if counts[i] > m {
            m = counts[i];
        }
        i = i + 1;
    }
    proof {
        assert(counts@.take(counts@.len() as int) =~= counts@);
    }
    m
}

/// The least positive score in a table.
#[verifier::loop_isolation(false)]
pub fn min_positive_of(counts: &Vec<u128>) -> (r: u128)
    ensures
        r as nat == min_positive(nat_counts(counts@)),
{
    let mut m: u128 = 0;
    let mut i: usize = 0;
    while i < counts.len()
        invariant
            i <= counts@.len(),
            m == min_positive(nat_counts(counts@.take(i as int))),
        decreases counts@.len() - i,
    {
        proof {
            assert(counts@.take(i + 1).drop_last() =~= counts@.take(i as int));
            assert(nat_counts(counts@.take(i + 1)).drop_last() =~= nat_counts(
                counts@.take(i as int),
            ));
        }
        let c = counts[i];
        if c != 0 && (m == 0 || c < m) {
            m = c;
        }
        i = i + 1;
    }
    proof {
        assert(counts@.take(counts@.len() as int) =~= counts@);
    }
    m
}

/// The ids of the candidates whose score equals `target`, in candidate
/// order.
#[verifier::loop_isolation(false)]
pub fn ids_at(candidates: &Vec<Candidate>, counts: &Vec<u128>, target: u128) -> (r: Vec<Id>)
    requires
        counts@.len() == candidates@.len(),
    ensures
        r@ == ids_with_count(candidates@, nat_counts(counts@), target as nat),
{
    let mut out: Vec<Id> = Vec::new();
    let mut k: usize = 0;
    while k < counts.len()
        invariant
            k <= counts@.len(),
            out@ == ids_with_count(
                candidates@.take(k as int),
                nat_counts(counts@.take(k as int)),
                target as nat,
            ),
        decreases counts@.len() - k,
    {
        proof {
            assert(counts@.take(k + 1).drop_last() =~= counts@.take(k as int));
            assert(candidates@.take(k + 1).drop_last() =~= candidates@.take(k as int));
            assert(nat_counts(counts@.take(k + 1)).drop_last() =~= nat_counts(
                counts@.take(k as int),
            ));
            assert(candidates@.take(k + 1).last() == candidates@[k as int]);
        }
        if counts[k] == target {
            out.push(candidates[k].id());
        }
        k = k + 1;
    }
    proof {
        assert(counts@.take(counts@.len() as int) =~= counts@);
        assert(candidates@.take(candidates@.len() as int) =~= candidates@);
    }
    out
}

} // verus!

verus! {

/// The greatest score is attained when the list is not empty.
pub proof fn lemma_max_score_attained(counts: Seq<nat>)
    requires
        counts.len() > 0,
    ensures
        exists|p: int| 0 <= p < counts.len() && counts[p] == max_score(counts),
    decreases counts.len(),
{
    if counts.len() == 1 {
        assert(counts.drop_last() =~= Seq::<nat>::empty());
        assert(max_score(Seq::<nat>::empty()) == 0);
        assert(counts[0] == max_score(counts));
    } else {
        let rest = max_score(counts.drop_last());
        if counts.last() > rest {
            assert(counts[counts.len() - 1] == max_score(counts));
        } else {
            lemma_max_score_attained(counts.drop_last());
            let p = choose|p: int|
                0 <= p < counts.drop_last().len() && counts.drop_last()[p] == rest;
            assert(counts[p] == max_score(counts));
        }
    }
}

/// Every score is zero exactly when the greatest is zero, exactly when
/// the least positive is zero.
pub proof fn lemma_min_positive_zero(counts: Seq<nat>)
    ensures
        (min_positive(counts) == 0) <==> (max_score(counts) == 0),
    decreases counts.len(),
{
    if counts.len() > 0 {
        lemma_min_positive_zero(counts.drop_last());
    }
}

} // verus!
