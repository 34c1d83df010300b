//! The identity tactic.

use vstd::prelude::*;
use crate::ballot::Ballot;
use crate::tactic::Tactic;

verus! {

/// The identity tactic does nothing and returns the honest ballot. It is
/// defined for every ballot shape.
#[derive(Debug, Clone)]
pub struct Identity;

impl<B: Ballot> Tactic<B> for Identity {
    open spec fn wf(&self) -> bool {
        true
    }

    fn is_wf(&self) -> (r: bool) {
        true
    }

    open spec fn apply_view(&self, b: <B as View>::V) -> <B as View>::V {
        b
    }

    /// Returns the ballot unchanged: the content of the result is the
    /// content of the argument, for every ballot.
    fn apply(&self, ballot: B) -> (r: B) {
        ballot
    }
}

} // verus!
