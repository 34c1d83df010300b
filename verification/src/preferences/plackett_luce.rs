//! The Plackett-Luce preference model: rankings built by repeatedly
//! drawing candidates with probability proportional to their weights.

use vstd::prelude::*;
use rand::rngs::StdRng;
use crate::ballot::{Id, Ordinal};
use crate::candidate::Candidate;
use crate::preference::Preference;
use crate::ranking::lemma_distinct_cover;
use crate::rng::{
    lemma_sum_weights_bounded, lemma_sum_weights_positive, weighted_choice_new,
    weighted_choice_sample,
};

verus! {

/// The Plackett-Luce model builds a ranking by incrementally selecting
/// candidates: at each step one of the remaining candidates is drawn
/// with probability proportional to its weight, removed, and appended
/// to the ranking. Each candidate carries one positive weight; higher
/// weights rank earlier.
#[derive(Debug, Clone)]
pub struct PlackettLuce {
    weights: Vec<(Id, u64)>,
}

impl PlackettLuce {
    /// Instantiates a new Plackett-Luce preference model.
    pub fn new(weights: Vec<(Id, u64)>) -> (r: Self)
        ensures
            r.weight_table() == weights@,
    {
        PlackettLuce { weights }
    }

    /// The per-candidate weights.
    pub closed spec fn weight_table(&self) -> Seq<(Id, u64)> {
        self.weights@
    }

    /// The listed ids, in table order.
    pub open spec fn listed_ids(&self) -> Seq<Id> {
        self.weight_table().map_values(|e: (Id, u64)| e.0)
    }
}

impl Preference<Ordinal> for PlackettLuce {
    /// Every weight is positive and no id is listed twice.
    open spec fn valid_for(&self, candidates: Seq<Candidate>) -> bool {
        &&& forall|i: int| 0 <= i < self.weight_table().len() ==> (
        #[trigger] self.weight_table()[i]).1 > 0
        &&& forall|i: int, j: int|
            0 <= i < j < self.weight_table().len() ==> (#[trigger] self.weight_table()[i]).0 != (
            #[trigger] self.weight_table()[j]).0
    }

    fn fits(&self, candidates: &Vec<Candidate>) -> (r: bool) {
        let mut i: usize = 0;
        while i < self.weights.len()
            invariant
                i <= self.weight_table().len(),
                forall|j: int| 0 <= j < i ==> (#[trigger] self.weight_table()[j]).1 > 0,
                forall|a: int, b: int|
                    0 <= a < b < i ==> (#[trigger] self.weight_table()[a]).0 != (
                    #[trigger] self.weight_table()[b]).0,
            decreases self.weight_table().len() - i,
        {
            if self.weights[i].1 == 0 {
                return false;
            }
            let mut j: usize = 0;
            while j < i
                invariant
                    j <= i < self.weight_table().len(),
                    forall|b: int| 0 <= b < j ==> (#[trigger] self.weight_table()[b]).0
                        != self.weight_table()[i as int].0,
                decreases i - j,
            {
                if self.weights[j].0 == self.weights[i].0 {
                    return false;
                }
                j = j + 1;
            }
            i = i + 1;
        }
        true
    }

    /// The drawn ranking ranks exactly the listed ids.
    open spec fn draw_post(&self, candidates: Seq<Candidate>, b: Ordinal) -> bool {
        &&& b@.len() == self.listed_ids().len()
        &&& forall|k: int| 0 <= k < b@.len() ==> self.listed_ids().contains(#[trigger] b@[k])
        &&& forall|j: int| 0 <= j < self.listed_ids().len() ==> b@.contains(
            #[trigger] self.listed_ids()[j],
        )
    }

    /// A ranking over the listed ids, drawn by repeated proportional
    /// selection.
    #[verifier::loop_isolation(false)]
    fn draw(&self, candidates: &Vec<Candidate>, rng: &mut StdRng) -> (b: Ordinal) {
        let mut pool: Vec<(Id, u64)> = Vec::new();
        let mut i: usize = 0;
        while i < self.weights.len()
            invariant
                i <= self.weight_table().len(),
                pool@ == self.weight_table().take(i as int),
            decreases self.weight_table().len() - i,
        {
            pool.push(self.weights[i]);
            i = i + 1;
            proof {
                assert(pool@ =~= self.weight_table().take(i as int));
            }
        }
        proof {
            assert(pool@ =~= self.weight_table());
        }
        let mut out: Vec<Id> = Vec::new();
        proof {
            assert forall|k: int| 0 <= k < pool@.len() implies self.listed_ids().contains(
                (#[trigger] pool@[k]).0,
            ) by {
                assert(self.listed_ids()[k] == pool@[k].0);
            }
        }
        while pool.len() > 0
            invariant
                out@.len() + pool@.len() == self.weight_table().len(),
                out@.no_duplicates(),
                forall|k: int| 0 <= k < pool@.len() ==> (#[trigger] pool@[k]).1 > 0,
                forall|k: int| 0 <= k < pool@.len() ==> self.listed_ids().contains(
                    (#[trigger] pool@[k]).0,
                ),
                forall|a: int| 0 <= a < out@.len() ==> self.listed_ids().contains(
                    #[trigger] out@[a],
                ),
                forall|a: int, c: int|
                    0 <= a < c < pool@.len() ==> (#[trigger] pool@[a]).0 != (
                    #[trigger] pool@[c]).0,
                forall|a: int, c: int|
                    #![trigger out@[a], pool@[c]]
                    0 <= a < out@.len() && 0 <= c < pool@.len() ==> out@[a] != pool@[c].0,
            decreases pool@.len(),
        {
            // the remaining weights, as the distribution to draw from
            let mut ws: Vec<u128> = Vec::new();
            let mut k: usize = 0;
            while k < pool.len()
                invariant
                    k <= pool@.len(),
                    ws@.len() == k,
                    forall|j: int| 0 <= j < k ==> (#[trigger] ws@[j]) == pool@[j].1 as u128,
                decreases pool@.len() - k,
            {
                ws.push(pool[k].1 as u128);
                k = k + 1;
            }
            proof {
                assert(ws@[0] > 0);
                lemma_sum_weights_positive(ws@);
                assert(forall|j: int| 0 <= j < ws@.len() ==> (#[trigger] ws@[j])
                    <= 0xffff_ffff_ffff_ffff);
                lemma_sum_weights_bounded(ws@, 0xffff_ffff_ffff_ffff);
                assert(ws@.len() * 0xffff_ffff_ffff_ffff <= 0xffff_ffff_ffff_ffff_ffff
                    * 0xffff_ffff_ffff_ffff) by (nonlinear_arith)
                    requires
                        ws@.len() <= 0xffff_ffff_ffff_ffff_ffff,
                ;
            }
            let choice = match weighted_choice_new(&ws) {
                Option::Some(w) => w,
                Option::None => {
                    proof {
                        assert(false);
                    }
                    return Ordinal(out);
                },
            };
            let j = weighted_choice_sample(&choice, rng);
            let ghost prev = pool@;
            let picked = pool.remove(j);
            out.push(picked.0);
            proof {
                assert forall|k2: int| 0 <= k2 < pool@.len() implies (#[trigger] pool@[k2]).1 > 0
                    && pool@[k2].0 != picked.0 && self.listed_ids().contains(pool@[k2].0) by {
                    if k2 < j {
                        assert(pool@[k2] == prev[k2]);
                    } else {
                        assert(pool@[k2] == prev[k2 + 1]);
                    }
                }
                assert forall|a: int, c: int| 0 <= a < c < pool@.len() implies (
                #[trigger] pool@[a]).0 != (#[trigger] pool@[c]).0 by {
                    if a < j {
                        assert(pool@[a] == prev[a]);
                    } else {
                        assert(pool@[a] == prev[a + 1]);
                    }
                    if c < j {
                        assert(pool@[c] == prev[c]);
                    } else {
                        assert(pool@[c] == prev[c + 1]);
                    }
                }
                assert forall|a: int, c: int|
                    #![trigger out@[a], pool@[c]]
                    0 <= a < out@.len() && 0 <= c < pool@.len() implies out@[a]
                    != pool@[c].0 by {
                    if c < j {
                        assert(pool@[c] == prev[c]);
                    } else {
                        assert(pool@[c] == prev[c + 1]);
                    }
                }
            }
        }
        proof {
            let listed = self.listed_ids();
            assert forall|a: int, c: int| 0 <= a < c < listed.len() implies listed[a]
                != listed[c] by {
                assert(listed[a] == self.weight_table()[a].0);
                assert(listed[c] == self.weight_table()[c].0);
            }
            lemma_distinct_cover(out@, listed);
        }
        Ordinal(out)
    }
}

} // verus!
