//! The random dictator method.

use vstd::prelude::*;
use crate::ballot::{Ordinal, Profile};
use crate::candidate::Candidate;
use crate::method::Method;
use crate::outcome::{has_candidate, model_from_candidates, SingleWinner, SingleWinnerModel};
use crate::tally::position_by_id;

verus! {

/// A single-winner ranked voting method: the winner is the top choice of
/// one pre-selected ballot, the first of the profile (the profile is
/// itself built in seeded random order). That ballot is the only ballot
/// that matters, hence the name. The outcome is no winner when the
/// profile is empty, and also when the selected ballot is empty or names
/// an id that no candidate carries.
#[derive(Debug, Clone)]
pub struct RandomDictator;

impl Method for RandomDictator {
    type Ballot = Ordinal;

    type Winner = SingleWinner;

    open spec fn valid(&self, candidates: Seq<Candidate>) -> bool {
        true
    }

    fn check_valid(&self, candidates: &Vec<Candidate>) -> (r: bool) {
        true
    }

    open spec fn post(
        &self,
        candidates: Seq<Candidate>,
        profile: Seq<Ordinal>,
        r: SingleWinnerModel,
    ) -> bool {
        if profile.len() == 0 || profile[0]@.len() == 0 || !has_candidate(
            candidates,
            profile[0]@[0],
        ) {
            r is NoWinner
        } else {
            r matches SingleWinnerModel::Win(c) && c.id == profile[0]@[0]
                && model_from_candidates(candidates, c)
        }
    }

    /// Return the top choice of the first ballot.
    fn outcome(&self, candidates: &Vec<Candidate>, profile: Profile<Ordinal>) -> (r: SingleWinner) {
        let ballots = profile.iter();
        if ballots.len() == 0 {
            return SingleWinner::none();
        }
        if ballots[0].0.len() == 0 {
            return SingleWinner::none();
        }
        let top = ballots[0].0[0];
        match position_by_id(candidates, top) {
            Option::None => SingleWinner::none(),
            Option::Some(_) => SingleWinner::win(candidates, top),
        }
    }
}

} // verus!
