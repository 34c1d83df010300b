//! A closed family over the tactics, so that one weighted strategy can
//! mix tactics of different kinds.

use vstd::prelude::*;
use crate::ballot::{Id, Ordinal};
use crate::tactic::Tactic;
use crate::tactics::burial::Burial;
use crate::tactics::compromise::Compromise;
use crate::tactics::identity::Identity;
use crate::tactics::pushover::Pushover;

verus! {

/// One of the tactics, as a tagged variant. A strategy holds tactics of
/// a single type; this family lets it mix honest and strategic arms.
#[derive(Debug, Clone)]
pub enum TacticChoice {
    /// Return the honest ballot unchanged.
    Honest(Identity),
    /// Move the targets to the front.
    Compromising(Compromise),
    /// Move the targets to the end.
    Burying(Burial),
    /// Rank weak candidates highly to knock out strong ones.
    PushingOver(Pushover),
}

impl Tactic<Ordinal> for TacticChoice {
    open spec fn wf(&self) -> bool {
        match self {
            TacticChoice::Honest(t) => Tactic::<Ordinal>::wf(t),
            TacticChoice::Compromising(t) => t.wf(),
            TacticChoice::Burying(t) => t.wf(),
            TacticChoice::PushingOver(t) => t.wf(),
        }
    }

    open spec fn apply_view(&self, b: Seq<Id>) -> Seq<Id> {
        match self {
            TacticChoice::Honest(t) => Tactic::<Ordinal>::apply_view(t, b),
            TacticChoice::Compromising(t) => t.apply_view(b),
            TacticChoice::Burying(t) => t.apply_view(b),
            TacticChoice::PushingOver(t) => t.apply_view(b),
        }
    }

    fn is_wf(&self) -> (r: bool) {
        match self {
            TacticChoice::Honest(t) => Tactic::<Ordinal>::is_wf(t),
            TacticChoice::Compromising(t) => t.is_wf(),
            TacticChoice::Burying(t) => t.is_wf(),
            TacticChoice::PushingOver(t) => t.is_wf(),
        }
    }

    /// Apply the chosen tactic.
    fn apply(&self, ballot: Ordinal) -> (r: Ordinal) {
        match self {
            TacticChoice::Honest(t) => Tactic::<Ordinal>::apply(t, ballot),
            TacticChoice::Compromising(t) => t.apply(ballot),
            TacticChoice::Burying(t) => t.apply(ballot),
            TacticChoice::PushingOver(t) => t.apply(ballot),
        }
    }
}

} // verus!
