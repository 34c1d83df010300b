//! A bloc of voters: one aggregate preference, one weighted set of
//! tactics, and a member count.

use vstd::prelude::*;
use rand::rngs::StdRng;
use crate::ballot::{Ballot, Profile};
use crate::candidate::{distinct_ids, Candidate};
use crate::preference::Preference;
use crate::rng::{
    lemma_sum_weights_bounded, lemma_sum_weights_positive_at, weighted_choice_new,
    weighted_choice_sample, weighted_choice_weights,
};
use crate::tactic::Tactic;

verus! {

/// True when the ballot content is some positively weighted tactic of
/// the strategy applied to some well-formed honest ballot.
pub open spec fn strategic_ballot<B: Ballot, T: Tactic<B>>(
    strategy: Seq<(T, u64)>,
    v: <B as View>::V,
) -> bool {
    exists|j: int, hb: B|
        #![trigger strategy[j].0.apply_view(hb@)]
        0 <= j < strategy.len() && strategy[j].1 > 0 && hb.wf() && v == strategy[j].0.apply_view(
            hb@,
        )
}

/// A bloc of voters. A bloc has a single aggregate preference and a
/// weighted set of tactics; each member's ballot is one draw from that
/// distribution. The weights are non-negative and need not sum to one:
/// each ballot draws one tactic with probability proportional to its
/// weight.
#[verifier::reject_recursive_types(B)]
pub struct VotingBloc<B: Ballot, P: Preference<B>, T: Tactic<B>> {
    preference: P,
    strategy: Vec<(T, u64)>,
    members: usize,
    shape: core::marker::PhantomData<B>,
}

impl<B: Ballot, P: Preference<B>, T: Tactic<B>> VotingBloc<B, P, T> {
    /// The preference model of the bloc.
    pub closed spec fn preference_spec(&self) -> P {
        self.preference
    }

    /// The weighted tactics of the bloc.
    pub closed spec fn strategy_spec(&self) -> Seq<(T, u64)> {
        self.strategy@
    }

    /// The number of members in the bloc.
    pub closed spec fn members_spec(&self) -> usize {
        self.members
    }

    /// Structural invariant: every tactic is well-formed, and the
    /// strategy is either empty (every ballot stays honest) or gives
    /// some tactic a positive weight.
    pub open spec fn wf(&self) -> bool {
        &&& forall|j: int| 0 <= j < self.strategy_spec().len() ==> (
        #[trigger] self.strategy_spec()[j]).0.wf()
        &&& self.strategy_spec().len() > 0 ==> exists|j: int|
            0 <= j < self.strategy_spec().len() && (#[trigger] self.strategy_spec()[j]).1 > 0
    }

    /// Build a new voting bloc with the builder.
    pub fn builder(preference: P, members: usize) -> (r: VotingBlocBuilder<B, P, T>)
        ensures
            r.preference_spec() == preference,
            r.strategy_spec() =~= Seq::<(T, u64)>::empty(),
            r.members_spec() == members,
    {
        VotingBlocBuilder { preference, strategy: Vec::new(), members, shape: core::marker::PhantomData }
    }

    /// Get the preferences of the voting bloc.
    pub fn preferences(&self) -> (r: &P)
        ensures
            r == self.preference_spec(),
    {
        &self.preference
    }

    /// Get the strategy of the voting bloc.
    pub fn strategy(&self) -> (r: &Vec<(T, u64)>)
        ensures
            r@ == self.strategy_spec(),
    {
        &self.strategy
    }

    /// Get the number of members in the voting bloc.
    pub fn members(&self) -> (r: usize)
        ensures
            r == self.members_spec(),
    {
        self.members
    }

    /// Decide the structural invariant.
    #[verifier::loop_isolation(false)]
    pub fn is_wf(&self) -> (r: bool)
        ensures
            r == self.wf(),
    {
        let mut some_positive = self.strategy.len() == 0;
        let mut j: usize = 0;
        while j < self.strategy.len()
            invariant
                j <= self.strategy_spec().len(),
                forall|k: int| 0 <= k < j ==> (#[trigger] self.strategy_spec()[k]).0.wf(),
                some_positive == (self.strategy_spec().len() == 0 || exists|k: int|
                    0 <= k < j && (#[trigger] self.strategy_spec()[k]).1 > 0),
            decreases self.strategy_spec().len() - j,
        {
            if !self.strategy[j].0.is_wf() {
                proof {
                    assert(!(self.strategy_spec()[j as int].0.wf()));
                }
                return false;
            }
            if self.strategy[j].1 > 0 {
                proof {
                    assert(self.strategy_spec()[j as int].1 > 0);
                }
                some_positive = true;
            }
            j = j + 1;
        }
        some_positive
    }

    /// Realize the preferences of the bloc's members into a profile of
    /// honest ballots, each carrying the preference model's own
    /// guarantee.
    pub fn realize(&self, candidates: &Vec<Candidate>, rng: &mut StdRng) -> (r: Profile<B>)
        requires
            self.preference_spec().valid_for(candidates@),
            distinct_ids(candidates@),
        ensures
            r@.len() == self.members_spec(),
            r.wf(),
            forall|i: int| 0 <= i < r@.len() ==> self.preference_spec().draw_post(
                candidates@,
                #[trigger] r@[i],
            ),
    {
        self.preference.sample(candidates, self.members, rng)
    }

    /// Pass one honest ballot through the bloc's strategy: one tactic is
    /// drawn with probability proportional to its weight and applied. An
    /// empty strategy falls back to the identity and returns the ballot
    /// unchanged; a strategy with a single positively weighted tactic
    /// always applies that tactic.
    #[verifier::loop_isolation(false)]
    pub fn strategize(&self, ballot: B, rng: &mut StdRng) -> (r: B)
        requires
            self.wf(),
        ensures
            ballot.wf() ==> r.wf(),
            self.strategy_spec().len() == 0 ==> r@ == ballot@,
            self.strategy_spec().len() == 1 ==> r@ == self.strategy_spec()[0].0.apply_view(
                ballot@,
            ),
            self.strategy_spec().len() > 0 ==> exists|j: int|
                0 <= j < self.strategy_spec().len() && (#[trigger] self.strategy_spec()[j]).1 > 0
                    && r@ == self.strategy_spec()[j].0.apply_view(ballot@),
    {
        if self.strategy.len() == 0 {
            return ballot;
        }
        let mut ws: Vec<u128> = Vec::new();
        let mut k: usize = 0;
        while k < self.strategy.len()
            invariant
                k <= self.strategy_spec().len(),
                ws@.len() == k,
                forall|j: int| 0 <= j < k ==> (#[trigger] ws@[j]) == self.strategy_spec()[j].1
                    as u128,
            decreases self.strategy_spec().len() - k,
        {
            ws.push(self.strategy[k].1 as u128);
            k = k + 1;
        }
        proof {
            let w = choose|j: int|
                0 <= j < self.strategy_spec().len() && (#[trigger] self.strategy_spec()[j]).1
                    > 0;
            lemma_sum_weights_positive_at(ws@, w);
            assert(forall|j: int| 0 <= j < ws@.len() ==> (#[trigger] ws@[j])
                <= 0xffff_ffff_ffff_ffff);
            lemma_sum_weights_bounded(ws@, 0xffff_ffff_ffff_ffff);
            assert(ws@.len() * 0xffff_ffff_ffff_ffff <= 0xffff_ffff_ffff_ffff_ffff
                * 0xffff_ffff_ffff_ffff) by (nonlinear_arith)
                requires
                    ws@.len() <= 0xffff_ffff_ffff_ffff_ffff,
            ;
        }
        let choice = match weighted_choice_new(&ws) {
            Option::Some(w) => w,
            Option::None => {
                proof {
                    assert(false);
                }
                return ballot;
            },
        };
        let j = weighted_choice_sample(&choice, rng);
        let r = self.strategy[j].0.apply(ballot);
        proof {
            assert((self.strategy_spec()[j as int]).1 > 0 && r@
                == self.strategy_spec()[j as int].0.apply_view(ballot@));
        }
        r
    }

    /// Realize the preferences of the bloc's members and apply the
    /// bloc's strategy to each honest ballot: make the bloc vote.
    #[verifier::loop_isolation(false)]
    pub fn vote(&self, candidates: &Vec<Candidate>, rng: &mut StdRng) -> (r: Profile<B>)
        requires
            self.wf(),
            self.preference_spec().valid_for(candidates@),
            distinct_ids(candidates@),
        ensures
            r@.len() == self.members_spec(),
            r.wf(),
            self.strategy_spec().len() > 0 ==> forall|i: int|
                0 <= i < r@.len() ==> strategic_ballot(
                    self.strategy_spec(),
                    (#[trigger] r@[i])@,
                ),
    {
        let mut ballots: Vec<B> = Vec::new();
        let mut i: usize = 0;
        while i < self.members
            invariant
                i <= self.members_spec(),
                ballots@.len() == i,
                forall|j: int| 0 <= j < i ==> (#[trigger] ballots@[j]).wf(),
                self.strategy_spec().len() > 0 ==> forall|j: int|
                    0 <= j < i ==> strategic_ballot(
                        self.strategy_spec(),
                        (#[trigger] ballots@[j])@,
                    ),
            decreases self.members_spec() - i,
        {
            let honest = self.preference.draw(candidates, rng);
            let strategic = self.strategize(honest, rng);
            proof {
                if self.strategy_spec().len() > 0 {
                    let j = choose|j: int|
                        0 <= j < self.strategy_spec().len() && (
                        #[trigger] self.strategy_spec()[j]).1 > 0 && strategic@
                            == self.strategy_spec()[j].0.apply_view(honest@);
                    assert(self.strategy_spec()[j].0.apply_view(honest@) == strategic@);
                    assert(strategic_ballot(self.strategy_spec(), strategic@));
                }
            }
            ballots.push(strategic);
            i = i + 1;
        }
        Profile::new(ballots)
    }
}

/// A builder that accumulates the weighted tactics of a voting bloc.
#[verifier::reject_recursive_types(B)]
pub struct VotingBlocBuilder<B: Ballot, P: Preference<B>, T: Tactic<B>> {
    preference: P,
    strategy: Vec<(T, u64)>,
    members: usize,
    shape: core::marker::PhantomData<B>,
}

impl<B: Ballot, P: Preference<B>, T: Tactic<B>> VotingBlocBuilder<B, P, T> {
    /// The preference model accumulated so far.
    pub closed spec fn preference_spec(&self) -> P {
        self.preference
    }

    /// The weighted tactics accumulated so far.
    pub closed spec fn strategy_spec(&self) -> Seq<(T, u64)> {
        self.strategy@
    }

    /// The member count accumulated so far.
    pub closed spec fn members_spec(&self) -> usize {
        self.members
    }

    /// Create a new voting bloc builder.
    pub fn new(preference: P, members: usize) -> (r: Self)
        ensures
            r.preference_spec() == preference,
            r.strategy_spec() =~= Seq::<(T, u64)>::empty(),
            r.members_spec() == members,
    {
        VotingBlocBuilder { preference, strategy: Vec::new(), members, shape: core::marker::PhantomData }
    }

    /// Add a tactic to the voting bloc.
    pub fn add_tactic(self, tactic: T, weight: u64) -> (r: Self)
        ensures
            r.preference_spec() == self.preference_spec(),
            r.strategy_spec() == self.strategy_spec().push((tactic, weight)),
            r.members_spec() == self.members_spec(),
    {
        let VotingBlocBuilder { preference, mut strategy, members, shape } = self;
        strategy.push((tactic, weight));
        VotingBlocBuilder { preference, strategy, members, shape }
    }

    /// Build the voting bloc.
    pub fn build(self) -> (r: VotingBloc<B, P, T>)
        ensures
            r.preference_spec() == self.preference_spec(),
            r.strategy_spec() == self.strategy_spec(),
            r.members_spec() == self.members_spec(),
    {
        let VotingBlocBuilder { preference, strategy, members, shape } = self;
        VotingBloc { preference, strategy, members, shape }
    }
}

} // verus!
