//! A method of tabulating votes and determining the winner of an
//! election.

use vstd::prelude::*;
use crate::ballot::{Ballot, Profile};
use crate::candidate::{distinct_ids, Candidate};
use crate::outcome::Outcome;

verus! {

/// A set of rules that determines the outcome of an election from the
/// candidate list and a profile of ballots. Each method states what it
/// decides through its `post` predicate.
pub trait Method: Send + Sync {
    /// The ballot shape consumed by this method.
    type Ballot: Ballot;

    /// The outcome shape produced by this method.
    type Winner: Outcome;

    /// Configuration constraint of the method against a candidate list
    /// (a seat count must not exceed the number of candidates).
    spec fn valid(&self, candidates: Seq<Candidate>) -> bool;

    /// Decide the configuration constraint.
    fn check_valid(&self, candidates: &Vec<Candidate>) -> (r: bool)
        ensures
            r == self.valid(candidates@),
    ;

    /// What the method decides on the given candidates and profile.
    spec fn post(
        &self,
        candidates: Seq<Candidate>,
        profile: Seq<Self::Ballot>,
        r: <Self::Winner as View>::V,
    ) -> bool;

    /// Determine the outcome of an election.
    fn outcome(&self, candidates: &Vec<Candidate>, profile: Profile<Self::Ballot>) -> (r:
        Self::Winner)
        requires
            self.valid(candidates@),
            distinct_ids(candidates@),
            profile.wf(),
        ensures
            self.post(candidates@, profile@, r@),
    ;
}

} // verus!
