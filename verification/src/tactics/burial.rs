//! The burial tactic.

use vstd::prelude::*;
use crate::ballot::{ids_distinct, Ballot, Id, Ordinal};
use crate::ranking::{
    exclude, exclude_ids, lemma_concat_no_duplicates, lemma_exclude_props, lemma_restrict_props,
    restrict, restrict_ids,
};
use crate::tactic::Tactic;

verus! {

/// What burying does to a ranking: the targets that appear in the ballot
/// move to the end, in target order, preserving the relative order of the
/// rest. A target id absent from the ballot is silently ignored.
pub open spec fn burial_view(targets: Seq<Id>, b: Seq<Id>) -> Seq<Id> {
    exclude(b, targets) + restrict(targets, b)
}

/// The burial tactic buries a leading candidate to knock them out early.
/// The targets list names the candidates to bury, in order.
#[derive(Debug, Clone)]
pub struct Burial {
    burials: Vec<Id>,
}

impl Burial {
    /// Instantiates a new burial tactic.
    pub fn new(burials: Vec<Id>) -> (r: Self)
        ensures
            r.targets() == burials@,
    {
        Burial { burials }
    }

    /// The target ids, in the order they are appended.
    pub closed spec fn targets(&self) -> Seq<Id> {
        self.burials@
    }
}

impl Tactic<Ordinal> for Burial {
    open spec fn wf(&self) -> bool {
        self.targets().no_duplicates()
    }

    fn is_wf(&self) -> (r: bool) {
        ids_distinct(&self.burials)
    }

    open spec fn apply_view(&self, b: Seq<Id>) -> Seq<Id> {
        burial_view(self.targets(), b)
    }

    /// Moves the targets present in the ballot to the end.
    fn apply(&self, ballot: Ordinal) -> (r: Ordinal) {
        let mut kept = exclude_ids(&ballot.0, &self.burials);
        let mut buried = restrict_ids(&self.burials, &ballot.0);
        proof {
            lemma_restrict_props(self.burials@, ballot@);
            lemma_exclude_props(ballot@, self.burials@);
            if self.wf() && ballot.wf() {
                assert forall|x: Id| !(kept@.contains(x) && #[trigger] buried@.contains(x)) by {
                    assert(kept@.contains(x) == exclude(ballot@, self.burials@).contains(x));
                    assert(buried@.contains(x) == restrict(self.burials@, ballot@).contains(x));
                }
                lemma_concat_no_duplicates(kept@, buried@);
            }
        }
        let ghost parts = kept@ + buried@;
        kept.append(&mut buried);
        proof {
            assert(kept@ == parts);
        }
        Ordinal(kept)
    }
}

} // verus!
