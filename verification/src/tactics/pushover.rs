//! The pushover tactic.

use vstd::prelude::*;
use crate::ballot::{ids_distinct, Ballot, Id, Ordinal};
use crate::ranking::{
    contains_id, exclude, exclude_ids, lemma_concat_contains, lemma_concat_no_duplicates,
    lemma_exclude_props, lemma_restrict_props, restrict, restrict_ids,
};
use crate::tactic::Tactic;

verus! {

/// What the pushover tactic does to a ranking: first the preferred ids
/// that appear in the ballot, then the pushover ids that appear in it,
/// then the rest of the original ranking, in its original relative order.
/// An id absent from the ballot is silently ignored.
pub open spec fn pushover_view(preferred: Seq<Id>, pushover: Seq<Id>, b: Seq<Id>) -> Seq<Id> {
    restrict(preferred, b) + restrict(pushover, b) + exclude(exclude(b, preferred), pushover)
}

/// The pushover tactic ranks weak candidates highly, not to elect them,
/// but to knock out stronger candidates in early rounds before losing to
/// the voter's true preferences.
#[derive(Debug, Clone)]
pub struct Pushover {
    /// The preferred candidates.
    pub preferred: Vec<Id>,
    /// The pushover candidates.
    pub pushover: Vec<Id>,
}

impl Pushover {
    /// Instantiates a new pushover tactic.
    pub fn new(preferred: Vec<Id>, pushover: Vec<Id>) -> (r: Self)
        ensures
            r.preferred@ == preferred@,
            r.pushover@ == pushover@,
    {
        Pushover { preferred, pushover }
    }
}

impl Tactic<Ordinal> for Pushover {
    open spec fn wf(&self) -> bool {
        &&& self.preferred@.no_duplicates()
        &&& self.pushover@.no_duplicates()
        &&& forall|x: Id| !(self.preferred@.contains(x) && #[trigger] self.pushover@.contains(x))
    }

    fn is_wf(&self) -> (r: bool) {
        if !ids_distinct(&self.preferred) || !ids_distinct(&self.pushover) {
            return false;
        }
        let mut k: usize = 0;
        while k < self.preferred.len()
            invariant
                k <= self.preferred@.len(),
                forall|x: Id|
                    self.preferred@.take(k as int).contains(x) ==> !(
                    #[trigger] self.pushover@.contains(x)),
            decreases self.preferred@.len() - k,
        {
            if contains_id(&self.pushover, self.preferred[k]) {
                proof {
                    assert(self.preferred@.take(k + 1)[k as int] == self.preferred@[k as int]);
                }
                return false;
            }
            k = k + 1;
            proof {
                assert forall|x: Id|
                    self.preferred@.take(k as int).contains(x) implies !(
                #[trigger] self.pushover@.contains(x)) by {
                    let w = choose|i: int|
                        0 <= i < k && self.preferred@.take(k as int)[i] == x;
                    if w < k - 1 {
                        assert(self.preferred@.take(k - 1)[w] == x);
                    } else {
                        assert(self.preferred@[k - 1] == x);
                    }
                }
            }
        }
        proof {
            assert forall|x: Id| self.preferred@.contains(x) implies !(
            #[trigger] self.pushover@.contains(x)) by {
                assert(self.preferred@.take(self.preferred@.len() as int) =~= self.preferred@);
            }
        }
        true
    }

    open spec fn apply_view(&self, b: Seq<Id>) -> Seq<Id> {
        pushover_view(self.preferred@, self.pushover@, b)
    }

    /// Places the preferred ids, then the pushover ids, then the rest.
    fn apply(&self, ballot: Ordinal) -> (r: Ordinal) {
        let mut front = restrict_ids(&self.preferred, &ballot.0);
        let mut pushed = restrict_ids(&self.pushover, &ballot.0);
        let stripped = exclude_ids(&ballot.0, &self.preferred);
        let mut rest = exclude_ids(&stripped, &self.pushover);
        proof {
            lemma_restrict_props(self.preferred@, ballot@);
            lemma_restrict_props(self.pushover@, ballot@);
            lemma_exclude_props(ballot@, self.preferred@);
            lemma_exclude_props(stripped@, self.pushover@);
            lemma_concat_contains(front@, pushed@);
            assert(forall|x: Id| #[trigger] front@.contains(x) == restrict(
                self.preferred@,
                ballot@,
            ).contains(x));
            assert(forall|x: Id| #[trigger] pushed@.contains(x) == restrict(
                self.pushover@,
                ballot@,
            ).contains(x));
            assert(forall|x: Id| #[trigger] rest@.contains(x) == exclude(
                stripped@,
                self.pushover@,
            ).contains(x));
            if self.wf() && ballot.wf() {
                assert forall|x: Id| !(front@.contains(x) && #[trigger] pushed@.contains(x)) by {}
                lemma_concat_no_duplicates(front@, pushed@);
                assert forall|x: Id| !((front@ + pushed@).contains(x)
                    && #[trigger] rest@.contains(x)) by {}
                lemma_concat_no_duplicates(front@ + pushed@, rest@);
            }
        }
        let ghost lead = front@ + pushed@;
        front.append(&mut pushed);
        proof {
            assert(front@ == lead);
        }
        let ghost whole = front@ + rest@;
        front.append(&mut rest);
        proof {
            assert(front@ == whole);
            assert(front@ == pushover_view(self.preferred@, self.pushover@, ballot@));
        }
        Ordinal(front)
    }
}

} // verus!
