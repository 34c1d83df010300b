//! The manual preference model: draws are taken from a fixed profile of
//! real ballots.

use vstd::prelude::*;
use rand::rngs::StdRng;
use crate::ballot::{Ballot, Profile};
use crate::candidate::{Candidate, ConfigError};
use crate::preference::Preference;
use crate::rng::rng_between;

verus! {

/// The manual model wraps a fixed, pre-supplied profile of real
/// ballots; each draw selects one of them uniformly at random, with
/// replacement. The supplied profile must not be empty.
pub struct Manual<B: Ballot> {
    votes: Profile<B>,
}

impl<B: Ballot> Manual<B> {
    /// Instantiates a new manual preference model. Construction fails
    /// fast when the supplied profile is empty.
    pub fn new(profile: Profile<B>) -> (r: Result<Self, ConfigError>)
        ensures
            r is Ok <==> profile@.len() > 0,
            r matches Ok(m) ==> m.votes() == profile@,
            r is Err ==> r == Result::<Self, ConfigError>::Err(ConfigError::EmptyManualProfile),
    {
        if profile.is_empty() {
            return Result::Err(ConfigError::EmptyManualProfile);
        }
        Result::Ok(Manual { votes: profile })
    }

    /// The wrapped ballots.
    pub closed spec fn votes(&self) -> Seq<B> {
        self.votes@
    }
}

impl<B: Ballot> Preference<B> for Manual<B> {
    /// The wrapped profile is not empty and holds well-formed ballots.
    open spec fn valid_for(&self, candidates: Seq<Candidate>) -> bool {
        &&& self.votes().len() > 0
        &&& forall|i: int| 0 <= i < self.votes().len() ==> (#[trigger] self.votes()[i]).wf()
    }

    #[verifier::loop_isolation(false)]
    fn fits(&self, candidates: &Vec<Candidate>) -> (r: bool) {
        let ballots = self.votes.iter();
        if ballots.len() == 0 {
            return false;
        }
        let mut i: usize = 0;
        while i < ballots.len()
            invariant
                i <= ballots@.len(),
                forall|j: int| 0 <= j < i ==> (#[trigger] ballots@[j]).wf(),
            decreases ballots@.len() - i,
        {
            if !ballots[i].is_wf() {
                proof {
                    assert(!(self.votes()[i as int].wf()));
                }
                return false;
            }
            i = i + 1;
        }
        true
    }

    /// The drawn ballot has the content of one of the wrapped ballots.
    open spec fn draw_post(&self, candidates: Seq<Candidate>, b: B) -> bool {
        exists|i: int| 0 <= i < self.votes().len() && b@ == (#[trigger] self.votes()[i])@
    }

    /// One of the wrapped ballots, drawn uniformly at random.
    fn draw(&self, candidates: &Vec<Candidate>, rng: &mut StdRng) -> (b: B) {
        let ballots = self.votes.iter();
        let i = rng_between(rng, 0, ballots.len() - 1);
        let b = ballots[i].duplicate();
        proof {
            assert(b@ == self.votes()[i as int]@);
        }
        b
    }
}

} // verus!
