//! The election orchestrator: candidates, voting blocs, and a method,
//! composed into single-run and many-run simulations with seeded,
//! reproducible randomness.

use vstd::prelude::*;
use rayon::iter::IntoParallelRefIterator;
use rayon::iter::ParallelIterator;
use crate::ballot::{Ballot, Profile};
use crate::candidate::{distinct_ids, Candidate, ConfigError};
use crate::method::Method;
use crate::outcome::Outcome;
use crate::preference::Preference;
use crate::rng::{rng_from_seed, rng_next_u64};
use crate::tactic::Tactic;
use crate::voting_bloc::VotingBloc;

verus! {

/// The total number of members over a list of blocs.
pub open spec fn sum_members<B: Ballot, P: Preference<B>, T: Tactic<B>>(
    blocs: Seq<VotingBloc<B, P, T>>,
) -> nat
    decreases blocs.len(),
{
    if blocs.len() == 0 {
        0
    } else {
        sum_members(blocs.drop_last()) + blocs.last().members_spec() as nat
    }
}

/// How many of the outcomes have the given content.
pub open spec fn count_model<O: Outcome>(s: Seq<O>, m: <O as View>::V) -> nat
    decreases s.len(),
{
    if s.len() == 0 {
        0
    } else {
        count_model(s.drop_last(), m) + (if s.last()@ == m {
            1nat
        } else {
            0nat
        })
    }
}

/// No outcome has a content that no outcome has.
proof fn lemma_count_model_absent<O: Outcome>(s: Seq<O>, m: <O as View>::V)
    requires
        forall|i: int| 0 <= i < s.len() ==> (#[trigger] s[i])@ != m,
    ensures
        count_model(s, m) == 0,
    decreases s.len(),
{
    if s.len() > 0 {
        assert(s[s.len() - 1]@ != m);
        assert forall|i: int| 0 <= i < s.drop_last().len() implies (
        #[trigger] s.drop_last()[i])@ != m by {
            assert(s[i]@ != m);
        }
        lemma_count_model_absent(s.drop_last(), m);
    }
}

/// A content occurs at most once per outcome.
proof fn lemma_count_model_le_len<O: Outcome>(s: Seq<O>, m: <O as View>::V)
    ensures
        count_model(s, m) <= s.len(),
    decreases s.len(),
{
    if s.len() > 0 {
        lemma_count_model_le_len(s.drop_last(), m);
    }
}

/// True when some tally entry carries the given content.
pub open spec fn covers<O: Outcome>(r: Seq<(O, usize)>, m: <O as View>::V) -> bool {
    exists|j: int| 0 <= j < r.len() && (#[trigger] r[j]).0@ == m
}

/// An election: an immutable configuration of candidates, voting blocs,
/// and a method. All randomness is supplied externally through a seeded
/// source at run time, never stored in the election itself, which is
/// what makes runs reproducible and parallelizable.
#[verifier::reject_recursive_types(B)]
pub struct Election<B: Ballot, P: Preference<B>, T: Tactic<B>, M: Method<Ballot = B>> {
    candidates: Vec<Candidate>,
    voting_blocs: Vec<VotingBloc<B, P, T>>,
    method: M,
}

impl<B: Ballot, P: Preference<B>, T: Tactic<B>, M: Method<Ballot = B>> Election<B, P, T, M> {
    /// The candidates up for election.
    pub closed spec fn candidates_spec(&self) -> Seq<Candidate> {
        self.candidates@
    }

    /// The voting blocs.
    pub closed spec fn blocs_spec(&self) -> Seq<VotingBloc<B, P, T>> {
        self.voting_blocs@
    }

    /// The method that determines the winner.
    pub closed spec fn method_spec(&self) -> M {
        self.method
    }

    /// Structural invariant: the candidate ids are distinct, the method
    /// accepts the candidate list, and every bloc is well-formed with a
    /// preference model that fits the candidates.
    pub open spec fn wf(&self) -> bool {
        &&& distinct_ids(self.candidates_spec())
        &&& self.method_spec().valid(self.candidates_spec())
        &&& forall|i: int| 0 <= i < self.blocs_spec().len() ==> (#[trigger] self.blocs_spec()[i]).wf()
        &&& forall|i: int| 0 <= i < self.blocs_spec().len() ==> (
        #[trigger] self.blocs_spec()[i]).preference_spec().valid_for(self.candidates_spec())
    }

    /// Create a new election configuration. Construction checks the
    /// configuration and surfaces the first error it finds: duplicate
    /// candidate ids, a seat count beyond the candidates, or an invalid
    /// bloc (a weightless strategy or a preference model that does not
    /// fit the candidates).
    #[verifier::loop_isolation(false)]
    pub fn new(candidates: Vec<Candidate>, voting_blocs: Vec<VotingBloc<B, P, T>>, method: M) -> (r:
        Result<Self, ConfigError>)
        ensures
            r matches Ok(e) ==> e.wf() && e.candidates_spec() == candidates@ && e.blocs_spec()
                == voting_blocs@ && e.method_spec() == method,
            !distinct_ids(candidates@) ==> r == Result::<Self, ConfigError>::Err(
                ConfigError::DuplicateCandidateId,
            ),
            distinct_ids(candidates@) && !method.valid(candidates@) ==> r == Result::<
                Self,
                ConfigError,
            >::Err(ConfigError::TooManySeats),
            r is Err ==> !distinct_ids(candidates@) || !method.valid(candidates@) || (exists|
                i: int,
            |
                0 <= i < voting_blocs@.len() && (!(#[trigger] voting_blocs@[i]).wf() || !(
                voting_blocs@[i]).preference_spec().valid_for(candidates@))),
    {
        // candidate ids must be distinct
        let mut i: usize = 0;
        while i < candidates.len()
            invariant
                i <= candidates@.len(),
                forall|a: int, b: int|
                    0 <= a < b < i ==> (#[trigger] candidates@[a])@.id != (
                    #[trigger] candidates@[b])@.id,
            decreases candidates@.len() - i,
        {
            let mut j: usize = 0;
            while j < i
                invariant
                    j <= i < candidates@.len(),
                    forall|b: int| 0 <= b < j ==> (#[trigger] candidates@[b])@.id
                        != candidates@[i as int]@.id,
                decreases i - j,
            {
                if candidates[j].id() == candidates[i].id() {
                    return Result::Err(ConfigError::DuplicateCandidateId);
                }
                j = j + 1;
            }
            i = i + 1;
        }
        if !method.check_valid(&candidates) {
            return Result::Err(ConfigError::TooManySeats);
        }
        let mut k: usize = 0;
        while k < voting_blocs.len()
            invariant
                k <= voting_blocs@.len(),
                forall|i2: int| 0 <= i2 < k ==> (#[trigger] voting_blocs@[i2]).wf(),
                forall|i2: int| 0 <= i2 < k ==> (
                #[trigger] voting_blocs@[i2]).preference_spec().valid_for(candidates@),
            decreases voting_blocs@.len() - k,
        {
            if !voting_blocs[k].is_wf() {
                proof {
                    assert(!(voting_blocs@[k as int]).wf());
                }
                return Result::Err(ConfigError::InvalidWeights);
            }
            if !voting_blocs[k].preferences().fits(&candidates) {
                proof {
                    assert(!(voting_blocs@[k as int]).preference_spec().valid_for(candidates@));
                }
                return Result::Err(ConfigError::InvalidWeights);
            }
            k = k + 1;
        }
        Result::Ok(Election { candidates, voting_blocs, method })
    }

    /// Get the candidates up for election.
    pub fn candidates(&self) -> (r: &Vec<Candidate>)
        ensures
            r@ == self.candidates_spec(),
    {
        &self.candidates
    }

    /// Get the voting blocs.
    pub fn voting_blocs(&self) -> (r: &Vec<VotingBloc<B, P, T>>)
        ensures
            r@ == self.blocs_spec(),
    {
        &self.voting_blocs
    }

    /// Get the method used to determine the winner of the election.
    pub fn method(&self) -> (r: &M)
        ensures
            r == self.method_spec(),
    {
        &self.method
    }

    /// Realize the preferences of the voters into an honest profile:
    /// one ballot per member, bloc by bloc. The profile's length is the
    /// total number of members, whatever the preference models.
    #[verifier::loop_isolation(false)]
    pub fn realize(&self, rng: &mut rand::rngs::StdRng) -> (r: Profile<B>)
        requires
            self.wf(),
        ensures
            r@.len() == sum_members(self.blocs_spec()),
            r.wf(),
    {
        let mut ballots: Vec<B> = Vec::new();
        let mut i: usize = 0;
        while i < self.voting_blocs.len()
            invariant
                i <= self.blocs_spec().len(),
                ballots@.len() == sum_members(self.blocs_spec().take(i as int)),
                forall|j: int| 0 <= j < ballots@.len() ==> (#[trigger] ballots@[j]).wf(),
            decreases self.blocs_spec().len() - i,
        {
            proof {
                assert(self.blocs_spec().take(i + 1).drop_last() =~= self.blocs_spec().take(
                    i as int,
                ));
                assert(self.blocs_spec().take(i + 1).last() == self.blocs_spec()[i as int]);
            }
            let part = self.voting_blocs[i].realize(&self.candidates, rng);
            let mut drawn = part.into_vec();
            ballots.append(&mut drawn);
            i = i + 1;
        }
        proof {
            assert(self.blocs_spec().take(self.blocs_spec().len() as int) =~= self.blocs_spec());
        }
        Profile::new(ballots)
    }

    /// Realize the preferences of the voters and apply each bloc's
    /// strategy: the profile of strategic votes that is submitted for
    /// tabulation. Its length is the total number of members, whatever
    /// the preference models and strategies.
    #[verifier::loop_isolation(false)]
    pub fn vote(&self, rng: &mut rand::rngs::StdRng) -> (r: Profile<B>)
        requires
            self.wf(),
        ensures
            r@.len() == sum_members(self.blocs_spec()),
            r.wf(),
    {
        let mut ballots: Vec<B> = Vec::new();
        let mut i: usize = 0;
        while i < self.voting_blocs.len()
            invariant
                i <= self.blocs_spec().len(),
                ballots@.len() == sum_members(self.blocs_spec().take(i as int)),
                forall|j: int| 0 <= j < ballots@.len() ==> (#[trigger] ballots@[j]).wf(),
            decreases self.blocs_spec().len() - i,
        {
            proof {
                assert(self.blocs_spec().take(i + 1).drop_last() =~= self.blocs_spec().take(
                    i as int,
                ));
                assert(self.blocs_spec().take(i + 1).last() == self.blocs_spec()[i as int]);
            }
            let part = self.voting_blocs[i].vote(&self.candidates, rng);
            let mut drawn = part.into_vec();
            ballots.append(&mut drawn);
            i = i + 1;
        }
        proof {
            assert(self.blocs_spec().take(self.blocs_spec().len() as int) =~= self.blocs_spec());
        }
        Profile::new(ballots)
    }

    /// True when the outcome is what the method decides on some
    /// well-formed profile holding one ballot per member of the blocs.
    pub open spec fn possible_outcome(&self, w: <M::Winner as View>::V) -> bool {
        exists|p: Seq<B>|
            p.len() == sum_members(self.blocs_spec()) && #[trigger] self.method_spec().post(
                self.candidates_spec(),
                p,
                w,
            )
    }

    /// Run a single election: seed a fresh deterministic random source,
    /// make the blocs vote, and tabulate the outcome. The result is
    /// what the method decides on some well-formed profile holding one
    /// ballot per member.
    pub fn run_once(&self, seed: u64) -> (r: M::Winner)
        requires
            self.wf(),
        ensures
            self.possible_outcome(r@),
    {
        let mut rng = rng_from_seed(seed);
        let profile = self.vote(&mut rng);
        let ghost p = profile@;
        let r = self.method.outcome(&self.candidates, profile);
        proof {
            assert(self.method_spec().post(self.candidates_spec(), p, r@));
            assert(self.possible_outcome(r@));
        }
        r
    }

    /// Run many elections: draw one sub-seed per repetition from a
    /// single sequential stream, then evaluate the runs in parallel.
    /// Because the sub-seeds are fixed before the fan-out, the set of
    /// outcomes does not depend on how many workers execute them.
    pub fn run_many(&self, iterations: usize, seed: u64) -> (r: Vec<M::Winner>)
        requires
            self.wf(),
        ensures
            r@.len() == iterations,
            forall|i: int| 0 <= i < r@.len() ==> self.possible_outcome((#[trigger] r@[i])@),
    {
        let mut rng = rng_from_seed(seed);
        let mut seeds: Vec<u64> = Vec::new();
        let mut i: usize = 0;
        while i < iterations
            invariant
                i <= iterations,
                seeds@.len() == i,
            decreases iterations - i,
        {
            seeds.push(rng_next_u64(&mut rng));
            i = i + 1;
        }
        run_seeds_parallel(self, &seeds)
    }

    /// Group identical outcomes and count their occurrences: each
    /// distinct content appears once, with exactly the number of
    /// outcomes that carry it, and every outcome is accounted for.
    #[verifier::loop_isolation(false)]
    pub fn tabulate<O: Outcome>(&self, outcomes: Vec<O>) -> (r: Vec<(O, usize)>)
        ensures
            forall|a: int, b: int|
                0 <= a < b < r@.len() ==> (#[trigger] r@[a]).0@ != (#[trigger] r@[b]).0@,
            forall|j: int| 0 <= j < r@.len() ==> (#[trigger] r@[j]).1 as nat == count_model(
                outcomes@,
                r@[j].0@,
            ),
            forall|j: int| 0 <= j < r@.len() ==> (#[trigger] r@[j]).1 >= 1,
            forall|i: int| 0 <= i < outcomes@.len() ==> covers(r@, (#[trigger] outcomes@[i])@),
    {
        let ghost all = outcomes@;
        let mut pending = outcomes;
        let total = pending.len();
        let mut counted: Vec<(O, usize)> = Vec::new();
        let mut i: usize = 0;
        while pending.len() > 0
            invariant
                all.len() == total,
                i + pending@.len() == total,
                pending@ == all.skip(i as int),
                forall|a: int, b: int|
                    0 <= a < b < counted@.len() ==> (#[trigger] counted@[a]).0@ != (
                    #[trigger] counted@[b]).0@,
                forall|j: int| 0 <= j < counted@.len() ==> (#[trigger] counted@[j]).1 as nat
                    == count_model(all.take(i as int), counted@[j].0@),
                forall|j: int| 0 <= j < counted@.len() ==> (#[trigger] counted@[j]).1 >= 1,
                forall|ii: int| 0 <= ii < i ==> covers(counted@, (#[trigger] all[ii])@),
            decreases pending@.len(),
        {
            let o = pending.remove(0);
            proof {
                assert(o == all[i as int]);
                assert(pending@ =~= all.skip(i + 1));
                assert(all.take(i + 1).drop_last() =~= all.take(i as int));
                assert(all.take(i + 1).last() == all[i as int]);
            }
            // look for an existing entry with the same content
            let mut j: usize = 0;
            let mut found: bool = false;
            while j < counted.len() && !found
                invariant
                    j <= counted@.len(),
                    found ==> j < counted@.len() && counted@[j as int].0@ == o@,
                    !found ==> forall|b: int| 0 <= b < j ==> (#[trigger] counted@[b]).0@ != o@,
                decreases counted@.len() - j, (if found {
                    0int
                } else {
                    1int
                }),
            {
                if counted[j].0.same_outcome(&o) {
                    found = true;
                } else {
                    j = j + 1;
                }
            }
            if found {
                proof {
                    assert(counted@[j as int].1 as nat == count_model(
                        all.take(i as int),
                        counted@[j as int].0@,
                    ));
                    lemma_count_model_le_len(all.take(i as int), counted@[j as int].0@);
                    assert(counted@[j as int].1 <= i);
                }
                let ghost before = counted@;
                let (key, c) = counted.remove(j);
                counted.insert(j, (key, c + 1));
                proof {
                    assert(counted@ =~= before.update(j as int, (before[j as int].0, (c
                        + 1) as usize)));
                    assert forall|ii: int| 0 <= ii < i + 1 implies covers(
                        counted@,
                        (#[trigger] all[ii])@,
                    ) by {
                        if ii < i {
                            let w = choose|j2: int|
                                0 <= j2 < before.len() && (#[trigger] before[j2]).0@ == all[ii]@;
                            assert(counted@[w].0@ == before[w].0@);
                        } else {
                            assert(counted@[j as int].0@ == o@);
                        }
                    }
                }
            } else {
                proof {
                    assert forall|ii: int| 0 <= ii < i implies (#[trigger] all[ii])@ != o@ by {
                        let w = choose|jj: int|
                            0 <= jj < counted@.len() && (#[trigger] counted@[jj]).0@ == all[ii]@;
                        assert(counted@[w].0@ != o@);
                    }
                    lemma_count_model_absent(all.take(i as int), o@);
                }
                let ghost before = counted@;
                counted.push((o, 1));
                proof {
                    assert forall|ii: int| 0 <= ii < i + 1 implies covers(
                        counted@,
                        (#[trigger] all[ii])@,
                    ) by {
                        if ii < i {
                            let w = choose|j2: int|
                                0 <= j2 < before.len() && (#[trigger] before[j2]).0@ == all[ii]@;
                            assert(counted@[w].0@ == before[w].0@);
                        } else {
                            assert(counted@[before.len() as int].0@ == o@);
                        }
                    }
                }
            }
            i = i + 1;
        }
        proof {
            assert(all.take(all.len() as int) =~= all);
            assert forall|ii: int| 0 <= ii < outcomes@.len() implies covers(
                counted@,
                (#[trigger] outcomes@[ii])@,
            ) by {
                assert(all[ii] == outcomes@[ii]);
                assert(covers(counted@, all[ii]@));
            }
        }
        counted
    }
}

/// Relies on rayon's parallel iterators: evaluate one run per sub-seed
/// across the thread pool and collect the outcomes in seed order. Each
/// run is an independent unit of pure work, so the collected outcomes do
/// not depend on the degree of parallelism. Every element is a result
/// of the verified `run_once`, so it carries that function's
/// postcondition.
#[verifier::external_body]
fn run_seeds_parallel<B: Ballot, P: Preference<B>, T: Tactic<B>, M: Method<Ballot = B>>(
    election: &Election<B, P, T, M>,
    seeds: &Vec<u64>,
) -> (r: Vec<M::Winner>)
    requires
        election.wf(),
    ensures
        r@.len() == seeds@.len(),
        forall|i: int| 0 <= i < r@.len() ==> election.possible_outcome((#[trigger] r@[i])@),
{
    seeds.par_iter().map(|s| election.run_once(*s)).collect()
}

} // verus!
