//! A tactic is a rule that rewrites one honest ballot into one strategic
//! ballot of the same shape.

use vstd::prelude::*;
use crate::ballot::Ballot;

verus! {

/// A method of altering one's ballot to increase social welfare. A tactic
/// is a pure transform: what it returns is a function of the ballot's
/// content, given by `apply_view`.
pub trait Tactic<B: Ballot>: Send + Sync {
    /// Structural invariant of the tactic's parameters (no duplicate
    /// target ids).
    spec fn wf(&self) -> bool;

    /// What the tactic does to a ballot's content.
    spec fn apply_view(&self, b: <B as View>::V) -> <B as View>::V;

    /// Decide the parameter invariant.
    fn is_wf(&self) -> (r: bool)
        ensures
            r == self.wf(),
    ;

    /// Apply the tactic to one ballot. A well-formed tactic maps a
    /// well-formed ballot to a well-formed ballot.
    fn apply(&self, ballot: B) -> (r: B)
        ensures
            r@ == self.apply_view(ballot@),
            self.wf() && ballot.wf() ==> r.wf(),
    ;
}

} // verus!
