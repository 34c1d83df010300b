//! The STAR method (score, then automatic runoff).

use vstd::prelude::*;
use crate::ballot::{cardinal_views, Ballot, Cardinal, Id, Profile};
use crate::candidate::{distinct_ids, Candidate};
use crate::method::Method;
use crate::outcome::{
    models_of_ids, strictly_increasing_ids, SingleWinner, SingleWinnerModel,
};

verus! {

/// The score the first `k` entries of one score ballot give to `id`.
pub open spec fn score_points_upto(b: Seq<(Id, usize)>, id: Id, k: int) -> nat
    decreases k,
{
    if k <= 0 || k > b.len() {
        0
    } else {
        score_points_upto(b, id, k - 1) + (if b[k - 1].0 == id {
            b[k - 1].1 as nat
        } else {
            0nat
        })
    }
}

/// The score one ballot gives to `id`; an id the ballot does not score
/// scores zero.
pub open spec fn score_of(b: Seq<(Id, usize)>, id: Id) -> nat {
    score_points_upto(b, id, b.len() as int)
}

/// The cumulative score of `id` over all ballots.
pub open spec fn total_score(bs: Seq<Seq<(Id, usize)>>, id: Id) -> nat
    decreases bs.len(),
{
    if bs.len() == 0 {
        0
    } else {
        total_score(bs.drop_last(), id) + score_of(bs.last(), id)
    }
}

/// One cumulative score per candidate, in candidate order.
pub open spec fn star_counts(candidates: Seq<Candidate>, bs: Seq<Seq<(Id, usize)>>) -> Seq<nat> {
    Seq::new(candidates.len(), |i: int| total_score(bs, candidates[i]@.id))
}

/// The scan that picks the two finalists: walking the score table in
/// candidate order, it keeps the best and second-best scores seen so far
/// and the positions where they were found, preferring earlier positions
/// on equal scores.
pub open spec fn star_scan(counts: Seq<nat>, k: int) -> (nat, nat, int, int)
    decreases k,
{
    if k <= 0 {
        (0nat, 0nat, 0int, 0int)
    } else {
        let (fs, ss, fp, sp) = star_scan(counts, k - 1);
        let s = if 0 <= k - 1 < counts.len() {
            counts[k - 1]
        } else {
            0nat
        };
        if s > fs {
            (s, fs, k - 1, fp)
        } else if s > ss {
            (fs, s, fp, k - 1)
        } else {
            (fs, ss, fp, sp)
        }
    }
}

/// How many ballots score `a` strictly higher than `b`.
pub open spec fn runoff_count(bs: Seq<Seq<(Id, usize)>>, a: Id, b: Id) -> nat
    decreases bs.len(),
{
    if bs.len() == 0 {
        0
    } else {
        runoff_count(bs.drop_last(), a, b) + (if score_of(bs.last(), a) > score_of(
            bs.last(),
            b,
        ) {
            1nat
        } else {
            0nat
        })
    }
}

/// A score ballot gives no points to an id it does not hold.
proof fn lemma_score_points_absent(b: Seq<(Id, usize)>, id: Id, k: int)
    requires
        forall|j: int| 0 <= j < k && j < b.len() ==> (#[trigger] b[j]).0 != id,
    ensures
        score_points_upto(b, id, k) == 0,
    decreases k,
{
    if 0 < k <= b.len() {
        lemma_score_points_absent(b, id, k - 1);
    }
}

/// A score ballot without repeated keys scores an id with at most one of
/// its entries.
proof fn lemma_score_points_bound(b: Seq<(Id, usize)>, id: Id, k: int)
    requires
        b.map_values(|e: (Id, usize)| e.0).no_duplicates(),
    ensures
        score_points_upto(b, id, k) <= 0xffff_ffff_ffff_ffff,
    decreases k,
{
    if 0 < k <= b.len() {
        lemma_score_points_bound(b, id, k - 1);
        let keys = b.map_values(|e: (Id, usize)| e.0);
        if b[k - 1].0 == id {
            assert forall|j: int| 0 <= j < k - 1 && j < b.len() implies (#[trigger] b[j]).0
                != id by {
                assert(keys[j] == b[j].0 && keys[k - 1] == b[k - 1].0);
            }
            lemma_score_points_absent(b, id, k - 1);
        }
    }
}

/// What STAR decides. With fewer than two candidates, or when no ballot
/// scores any candidate, there is no winner. Otherwise the two finalists
/// are picked by `star_scan`, and the one preferred on strictly more
/// ballots wins; equal runoff counts tie the two finalists.
pub open spec fn star_post(
    candidates: Seq<Candidate>,
    bs: Seq<Seq<(Id, usize)>>,
    r: SingleWinnerModel,
) -> bool {
    let counts = star_counts(candidates, bs);
    let scan = star_scan(counts, candidates.len() as int);
    let fp = scan.2;
    let sp = scan.3;
    if candidates.len() < 2 || scan.0 == 0 {
        r is NoWinner
    } else {
        let a = candidates[fp]@.id;
        let b = candidates[sp]@.id;
        let t1 = runoff_count(bs, a, b);
        let t2 = runoff_count(bs, b, a);
        if t1 > t2 {
            r matches SingleWinnerModel::Win(c) && c == candidates[fp]@
        } else if t2 > t1 {
            r matches SingleWinnerModel::Win(c) && c == candidates[sp]@
        } else {
            r matches SingleWinnerModel::Tie(models) && strictly_increasing_ids(models)
                && models_of_ids(candidates, seq![a, b], models)
        }
    }
}

/// A single-winner, cardinal voting method: the two candidates with the
/// highest cumulative scores advance to a runoff, which the candidate
/// preferred on more ballots wins.
#[derive(Debug, Clone)]
pub struct Star;

/// The score one ballot gives to `id`, summed over its matching entries.
#[verifier::loop_isolation(false)]
fn ballot_score(b: &Vec<(Id, usize)>, id: Id) -> (r: u128)
    requires
        b@.map_values(|e: (Id, usize)| e.0).no_duplicates(),
    ensures
        r as nat == score_of(b@, id),
        r <= 0xffff_ffff_ffff_ffff,
{
    proof {
        lemma_score_points_bound(b@, id, b@.len() as int);
    }
    let mut acc: u128 = 0;
    let mut k: usize = 0;
    while k < b.len()
        invariant
            k <= b@.len(),
            acc as nat == score_points_upto(b@, id, k as int),
        decreases b@.len() - k,
    {
        proof {
            lemma_score_points_bound(b@, id, k + 1);
        }
        if b[k].0 == id {
            acc = acc + b[k].1 as u128;
        }
        k = k + 1;
    }
    acc
}

impl Method for Star {
    type Ballot = Cardinal;

    type Winner = SingleWinner;

    open spec fn valid(&self, candidates: Seq<Candidate>) -> bool {
        true
    }

    fn check_valid(&self, candidates: &Vec<Candidate>) -> (r: bool) {
        true
    }

    open spec fn post(
        &self,
        candidates: Seq<Candidate>,
        profile: Seq<Cardinal>,
        r: SingleWinnerModel,
    ) -> bool {
        star_post(candidates, cardinal_views(profile), r)
    }

    /// Score the candidates, pick the two finalists, and run the runoff.
    #[verifier::loop_isolation(false)]
    fn outcome(&self, candidates: &Vec<Candidate>, profile: Profile<Cardinal>) -> (r:
        SingleWinner) {
        let ballots = profile.iter();
        let ghost views = cardinal_views(ballots@);
        let n = candidates.len();
        if n < 2 {
            return SingleWinner::none();
        }
        // phase one: cumulative scores per candidate
        let mut counts: Vec<u128> = Vec::new();
        let mut p: usize = 0;
        while p < n
            invariant
                p <= n,
                n == candidates@.len(),
                counts@.len() == p,
                forall|q: int| 0 <= q < p ==> (#[trigger] counts@[q]) as nat == total_score(
                    views,
                    candidates@[q]@.id,
                ),
                forall|q: int| 0 <= q < p ==> (#[trigger] counts@[q]) <= (ballots@.len() as u128)
                    * 0xffff_ffff_ffff_ffff,
            decreases n - p,
        {
            let id = candidates[p].id();
            let mut acc: u128 = 0;
            let mut i: usize = 0;
            while i < ballots.len()
                invariant
                    i <= ballots@.len(),
                    acc as nat == total_score(cardinal_views(ballots@.take(i as int)), id),
                    acc <= (i as u128) * 0xffff_ffff_ffff_ffff,
                decreases ballots@.len() - i,
            {
                proof {
                    assert(ballots@[i as int].wf());
                    assert(cardinal_views(ballots@.take(i + 1)).drop_last() =~= cardinal_views(
                        ballots@.take(i as int),
                    ));
                    assert(cardinal_views(ballots@.take(i + 1)).last() == ballots@[i as int]@);
                }
                let s = ballot_score(&ballots[i].0, id);
                acc = acc + s;
                i = i + 1;
            }
            proof {
                assert(ballots@.take(ballots@.len() as int) =~= ballots@);
            }
            counts.push(acc);
            p = p + 1;
        }
        proof {
            assert(counts@.map_values(|c: u128| c as nat) =~= star_counts(candidates@, views));
        }
        // the scan that picks the finalists
        let ghost ncounts = star_counts(candidates@, views);
        let mut fs: u128 = 0;
        let mut ss: u128 = 0;
        let mut fp: usize = 0;
        let mut sp: usize = 0;
        let mut k: usize = 0;
        while k < n
            invariant
                k <= n,
                n == candidates@.len(),
                counts@.len() == n,
                fp < n,
                sp < n,
                star_scan(ncounts, k as int) == (fs as nat, ss as nat, fp as int, sp as int),
            decreases n - k,
        {
            proof {
                assert(ncounts[k as int] == counts@[k as int] as nat);
            }
            let s = counts[k];
            if s > fs {
                ss = fs;
                sp = fp;
                fs = s;
                fp = k;
            } else if s > ss {
                ss = s;
                sp = k;
            }
            k = k + 1;
        }
        if fs == 0 {
            return SingleWinner::none();
        }
        // phase two: the runoff between the two finalists
        let a = candidates[fp].id();
        let b = candidates[sp].id();
        let mut t1: usize = 0;
        let mut t2: usize = 0;
        let mut i: usize = 0;
        while i < ballots.len()
            invariant
                i <= ballots@.len(),
                t1 as nat == runoff_count(cardinal_views(ballots@.take(i as int)), a, b),
                t2 as nat == runoff_count(cardinal_views(ballots@.take(i as int)), b, a),
                t1 <= i,
                t2 <= i,
            decreases ballots@.len() - i,
        {
            proof {
                assert(ballots@[i as int].wf());
                assert(cardinal_views(ballots@.take(i + 1)).drop_last() =~= cardinal_views(
                    ballots@.take(i as int),
                ));
                assert(cardinal_views(ballots@.take(i + 1)).last() == ballots@[i as int]@);
            }
            let sa = ballot_score(&ballots[i].0, a);
            let sb = ballot_score(&ballots[i].0, b);
            if sa > sb {
                t1 = t1 + 1;
            } else if sb > sa {
                t2 = t2 + 1;
            }
            i = i + 1;
        }
        proof {
            assert(ballots@.take(ballots@.len() as int) =~= ballots@);
        }
        if t1 > t2 {
            let r = SingleWinner::win(candidates, a);
            proof {
                assert(candidates@[fp as int]@.id == a);
                let w = choose|i: int|
                    0 <= i < candidates@.len() && (#[trigger] candidates@[i])@ == r@->Win_0;
                assert(w == fp || candidates@[w]@.id == candidates@[fp as int]@.id);
            }
            r
        } else if t2 > t1 {
            let r = SingleWinner::win(candidates, b);
            proof {
                let w = choose|i: int|
                    0 <= i < candidates@.len() && (#[trigger] candidates@[i])@ == r@->Win_0;
                assert(w == sp || candidates@[w]@.id == candidates@[sp as int]@.id);
            }
            r
        } else {
            let mut pair: Vec<Id> = Vec::new();
            pair.push(a);
            pair.push(b);
            proof {
                assert(pair@ =~= seq![a, b]);
                assert(candidates@[fp as int]@.id == a && candidates@[sp as int]@.id == b);
            }
            SingleWinner::tie(candidates, &pair)
        }
    }
}

} // verus!
