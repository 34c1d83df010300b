//! A preference is a distribution over ballots: given a candidate set
//! and a random source, it draws one ballot.

use vstd::prelude::*;
use rand::rngs::StdRng;
use crate::ballot::{Ballot, Profile};
use crate::candidate::{distinct_ids, Candidate};

verus! {

/// The preferences of a voter as they exist before being written down: a
/// distribution over possible ballots, of which one realization is drawn
/// at election time.
pub trait Preference<B: Ballot>: Send + Sync {
    /// Configuration constraint of the model against a candidate list (a
    /// reference ranking must rank exactly the candidates).
    spec fn valid_for(&self, candidates: Seq<Candidate>) -> bool;

    /// Decide the configuration constraint.
    fn fits(&self, candidates: &Vec<Candidate>) -> (r: bool)
        ensures
            r == self.valid_for(candidates@),
    ;

    /// What the model guarantees of every ballot it draws, beyond
    /// well-formedness: which ids the ballot can hold and in what
    /// shape.
    spec fn draw_post(&self, candidates: Seq<Candidate>, b: B) -> bool;

    /// Draw one well-formed ballot from the preference distribution.
    fn draw(&self, candidates: &Vec<Candidate>, rng: &mut StdRng) -> (b: B)
        requires
            self.valid_for(candidates@),
            distinct_ids(candidates@),
        ensures
            b.wf(),
            self.draw_post(candidates@, b),
    ;

    /// Draw a profile of the given size from the preference
    /// distribution.
    fn sample(&self, candidates: &Vec<Candidate>, sample_size: usize, rng: &mut StdRng) -> (r:
        Profile<B>)
        requires
            self.valid_for(candidates@),
            distinct_ids(candidates@),
        ensures
            r@.len() == sample_size,
            r.wf(),
            forall|i: int| 0 <= i < r@.len() ==> self.draw_post(candidates@, #[trigger] r@[i]),
    {
        let mut ballots: Vec<B> = Vec::new();
        let mut i: usize = 0;
        while i < sample_size
            invariant
                i <= sample_size,
                ballots@.len() == i,
                forall|j: int| 0 <= j < i ==> (#[trigger] ballots@[j]).wf(),
                forall|j: int| 0 <= j < i ==> self.draw_post(candidates@, #[trigger] ballots@[j]),
                self.valid_for(candidates@),
                distinct_ids(candidates@),
            decreases sample_size - i,
        {
            ballots.push(self.draw(candidates, rng));
            i = i + 1;
        }
        Profile::new(ballots)
    }
}

} // verus!
