//! The compromise tactic.

use vstd::prelude::*;
use crate::ballot::{ids_distinct, Ballot, Id, Ordinal};
use crate::ranking::{
    exclude, exclude_ids, lemma_concat_no_duplicates, lemma_exclude_concat,
    lemma_exclude_disjoint, lemma_exclude_everything, lemma_exclude_props, lemma_restrict_props,
    lemma_restrict_same_members, restrict, restrict_ids, lemma_concat_contains,
};
use crate::tactic::Tactic;

verus! {

/// What compromising does to a ranking: the targets that appear in the
/// ballot move to the front, in target order, followed by the remaining
/// ids in their original relative order. A target id absent from the
/// ballot is silently ignored.
pub open spec fn compromise_view(targets: Seq<Id>, b: Seq<Id>) -> Seq<Id> {
    restrict(targets, b) + exclude(b, targets)
}

/// The compromise tactic places candidates that are more likely to win
/// ahead of the voter's true preferences. The targets list names the
/// electable candidates, in order.
#[derive(Debug, Clone)]
pub struct Compromise {
    compromises: Vec<Id>,
}

impl Compromise {
    /// Instantiates a new compromise tactic.
    pub fn new(compromises: Vec<Id>) -> (r: Self)
        ensures
            r.targets() == compromises@,
    {
        Compromise { compromises }
    }

    /// The target ids, most electable first.
    pub closed spec fn targets(&self) -> Seq<Id> {
        self.compromises@
    }
}

impl Tactic<Ordinal> for Compromise {
    open spec fn wf(&self) -> bool {
        self.targets().no_duplicates()
    }

    fn is_wf(&self) -> (r: bool) {
        ids_distinct(&self.compromises)
    }

    open spec fn apply_view(&self, b: Seq<Id>) -> Seq<Id> {
        compromise_view(self.targets(), b)
    }

    /// Moves the targets present in the ballot to the front.
    fn apply(&self, ballot: Ordinal) -> (r: Ordinal) {
        let mut fronted = restrict_ids(&self.compromises, &ballot.0);
        let mut rest = exclude_ids(&ballot.0, &self.compromises);
        proof {
            lemma_restrict_props(self.compromises@, ballot@);
            lemma_exclude_props(ballot@, self.compromises@);
            if self.wf() && ballot.wf() {
                assert forall|x: Id| !(fronted@.contains(x) && #[trigger] rest@.contains(
                    x,
                )) by {
                    assert(fronted@.contains(x) == restrict(
                        self.compromises@,
                        ballot@,
                    ).contains(x));
                    assert(rest@.contains(x) == exclude(ballot@, self.compromises@).contains(x));
                }
                lemma_concat_no_duplicates(fronted@, rest@);
            }
        }
        let ghost parts = fronted@ + rest@;
        fronted.append(&mut rest);
        proof {
            assert(fronted@ == parts);
        }
        Ordinal(fronted)
    }
}

/// Law: compromising is idempotent. Applying the same compromise a second
/// time leaves the ranking unchanged, for every target list and every
/// ranking.
pub proof fn lemma_compromise_idempotent(targets: Seq<Id>, b: Seq<Id>)
    ensures
        compromise_view(targets, compromise_view(targets, b)) == compromise_view(targets, b),
{
    let fronted = restrict(targets, b);
    let rest = exclude(b, targets);
    let c = fronted + rest;
    lemma_restrict_props(targets, b);
    lemma_exclude_props(b, targets);
    lemma_concat_contains(fronted, rest);
    // membership of the compromised ranking is the membership of the ballot
    assert(forall|x: Id| c.contains(x) <==> b.contains(x));
    lemma_restrict_same_members(targets, c, b);
    lemma_exclude_concat(fronted, rest, targets);
    lemma_exclude_everything(fronted, targets);
    lemma_exclude_disjoint(rest, targets);
    assert(exclude(c, targets) =~= rest);
    assert(compromise_view(targets, c) =~= c);
}

} // verus!
