//! Tests for the election orchestrator: construction errors, profile
//! sizes, strategies, tabulation, and seed-reproducible runs.

use kingmaker::ballot::{Ordinal, Profile};
use kingmaker::candidate::{Candidate, ConfigError};
use kingmaker::election::Election;
use kingmaker::methods::{Plurality, IRV, STV};
use kingmaker::outcome::SingleWinner;
use kingmaker::preferences::{Mallows, Manual};
use kingmaker::tactics::{Burial, Compromise, Identity, TacticChoice};
use kingmaker::voting_bloc::{VotingBloc, VotingBlocBuilder};
use rand::rngs::StdRng;
use rand::SeedableRng;

fn candidates() -> Vec<Candidate> {
    vec![
        Candidate::new(0, "Alice".to_string(), Some("DEM".to_string()), None).unwrap(),
        Candidate::new(1, "Bliar".to_string(), Some("REP".to_string()), None).unwrap(),
        Candidate::new(2, "Cybil".to_string(), None, None).unwrap(),
    ]
}

/// The fixed-point decay table `exp(-phi * d)` scaled by two to the
/// thirty-second power, one entry per possible distance.
fn mallows_decay(phi: f64, n: usize) -> Vec<u64> {
    let max_inv = n * (n - 1) / 2;
    let scale = 4294967296.0f64;
    let mut decay = Vec::new();
    for d in 0..=max_inv {
        decay.push(((-phi * d as f64).exp() * scale) as u64);
    }
    decay
}

/// Three blocs clustered around different reference rankings: two
/// mostly bury their opposition, one mostly votes honestly and
/// sometimes compromises.
fn blocs() -> Vec<VotingBloc<Ordinal, Mallows, TacticChoice>> {
    vec![
        VotingBloc::builder(Mallows::new(vec![0, 2, 1], mallows_decay(1.4, 3)), 40)
            .add_tactic(TacticChoice::Burying(Burial::new(vec![1])), 8)
            .add_tactic(TacticChoice::Honest(Identity), 2)
            .build(),
        VotingBloc::builder(Mallows::new(vec![1, 2, 0], mallows_decay(1.0, 3)), 45)
            .add_tactic(TacticChoice::Burying(Burial::new(vec![0])), 8)
            .add_tactic(TacticChoice::Honest(Identity), 2)
            .build(),
        VotingBloc::builder(Mallows::new(vec![2, 0, 1], mallows_decay(1.2, 3)), 15)
            .add_tactic(TacticChoice::Honest(Identity), 8)
            .add_tactic(TacticChoice::Compromising(Compromise::new(vec![0])), 2)
            .build(),
    ]
}

#[test]
fn duplicate_candidate_ids_are_refused() {
    let twins = vec![
        Candidate::new(0, "A".to_string(), None, None).unwrap(),
        Candidate::new(0, "B".to_string(), None, None).unwrap(),
    ];
    match Election::new(twins, blocs(), IRV) {
        Ok(_) => panic!("duplicate ids must be refused"),
        Err(e) => assert_eq!(e, ConfigError::DuplicateCandidateId),
    }
}

#[test]
fn too_many_seats_are_refused() {
    match Election::new(candidates(), blocs(), STV::new(5)) {
        Ok(_) => panic!("five seats for three candidates must be refused"),
        Err(e) => assert_eq!(e, ConfigError::TooManySeats),
    }
}

#[test]
fn weightless_strategies_are_refused() {
    let bad = vec![
        VotingBloc::builder(Mallows::new(vec![0, 1, 2], mallows_decay(1.0, 3)), 10)
            .add_tactic(TacticChoice::Burying(Burial::new(vec![1])), 0)
            .build(),
    ];
    match Election::new(candidates(), bad, IRV) {
        Ok(_) => panic!("an all-zero strategy must be refused"),
        Err(e) => assert_eq!(e, ConfigError::InvalidWeights),
    }
}

#[test]
fn misfitting_reference_rankings_are_refused() {
    let bad = vec![
        VotingBloc::builder(Mallows::new(vec![0, 1], mallows_decay(1.0, 3)), 10)
            .add_tactic(TacticChoice::Honest(Identity), 1)
            .build(),
    ];
    match Election::new(candidates(), bad, IRV) {
        Ok(_) => panic!("a short reference ranking must be refused"),
        Err(e) => assert_eq!(e, ConfigError::InvalidWeights),
    }
}

#[test]
fn nan_positions_are_refused() {
    let bad = Candidate::new(3, "D".to_string(), None, Some(vec![f32::NAN.to_bits()]));
    match bad {
        Ok(_) => panic!("a non-finite position must be refused"),
        Err(e) => assert_eq!(e, ConfigError::InvalidPosition),
    }
    let good = Candidate::new(3, "D".to_string(), None, Some(vec![1.5f32.to_bits()]));
    assert!(good.is_ok());
}

#[test]
fn profiles_hold_one_ballot_per_member() {
    let election = Election::new(candidates(), blocs(), Plurality).unwrap();
    let mut rng = StdRng::seed_from_u64(42);
    let honest = election.realize(&mut rng);
    assert_eq!(honest.len(), 100);
    let mut rng = StdRng::seed_from_u64(42);
    let strategic = election.vote(&mut rng);
    assert_eq!(strategic.len(), 100);
}

#[test]
fn runs_are_reproducible_for_a_fixed_seed() {
    let election = Election::new(candidates(), blocs(), IRV).unwrap();
    let first = election.run_once(17);
    let second = election.run_once(17);
    assert_eq!(first, second);
    let many_one = election.run_many(40, 3);
    let many_two = election.run_many(40, 3);
    assert_eq!(many_one.len(), 40);
    assert_eq!(many_one, many_two);
}

#[test]
fn a_single_tactic_is_always_applied() {
    let fixed = Manual::new(Profile::new(vec![Ordinal(vec![0, 1, 2])])).unwrap();
    let bloc = VotingBloc::builder(fixed, 20).add_tactic(Burial::new(vec![0]), 5).build();
    let election = Election::new(candidates(), vec![bloc], Plurality).unwrap();
    let mut rng = StdRng::seed_from_u64(8);
    let profile = election.vote(&mut rng);
    assert_eq!(profile.len(), 20);
    for ballot in profile.iter() {
        assert_eq!(ballot, &Ordinal(vec![1, 2, 0]));
    }
}

// With two burial arms, every cast ballot is the honest draw with one
// of the two targets moved to the end.
#[test]
fn every_ballot_comes_from_one_weighted_tactic() {
    let fixed = Manual::new(Profile::new(vec![Ordinal(vec![0, 1, 2])])).unwrap();
    let bloc = VotingBloc::builder(fixed, 30)
        .add_tactic(Burial::new(vec![0]), 1)
        .add_tactic(Burial::new(vec![1]), 1)
        .build();
    let election = Election::new(candidates(), vec![bloc], Plurality).unwrap();
    let mut rng = StdRng::seed_from_u64(21);
    let profile = election.vote(&mut rng);
    let buried_first = Ordinal(vec![1, 2, 0]);
    let buried_second = Ordinal(vec![0, 2, 1]);
    let mut saw_first = false;
    let mut saw_second = false;
    for ballot in profile.iter() {
        assert!(ballot == &buried_first || ballot == &buried_second);
        saw_first = saw_first || ballot == &buried_first;
        saw_second = saw_second || ballot == &buried_second;
    }
    assert!(saw_first && saw_second);
}

#[test]
fn builders_accumulate_tactics() {
    let builder: VotingBlocBuilder<Ordinal, Mallows, Burial> =
        VotingBlocBuilder::new(Mallows::new(vec![0, 1, 2], mallows_decay(0.5, 3)), 7);
    let bloc = builder.add_tactic(Burial::new(vec![2]), 3).build();
    let mixed = VotingBloc::builder(Mallows::new(vec![0, 1, 2], mallows_decay(0.5, 3)), 3)
        .add_tactic(TacticChoice::Honest(Identity), 1)
        .add_tactic(TacticChoice::Burying(Burial::new(vec![0])), 1)
        .build();
    assert_eq!(mixed.strategy().len(), 2);
    assert_eq!(bloc.members(), 7);
    assert_eq!(bloc.strategy().len(), 1);
}

#[test]
fn tabulate_counts_identical_outcomes() {
    let candidates = candidates();
    let election = Election::new(candidates.clone(), blocs(), Plurality).unwrap();
    let outcomes = vec![
        SingleWinner::win(&candidates, 0),
        SingleWinner::win(&candidates, 1),
        SingleWinner::win(&candidates, 0),
        SingleWinner::none(),
        SingleWinner::win(&candidates, 0),
    ];
    let counted = election.tabulate(outcomes);
    assert_eq!(counted.len(), 3);
    let mut seen = 0;
    for (outcome, count) in counted.iter() {
        if *outcome == SingleWinner::win(&candidates, 0) {
            assert_eq!(*count, 3);
            seen += 1;
        } else if *outcome == SingleWinner::win(&candidates, 1) {
            assert_eq!(*count, 1);
            seen += 1;
        } else if *outcome == SingleWinner::none() {
            assert_eq!(*count, 1);
            seen += 1;
        }
    }
    assert_eq!(seen, 3);
}

#[test]
fn candidate_records_keep_their_fields() {
    let c = Candidate::new(
        4,
        "Dana".to_string(),
        Some("IND".to_string()),
        Some(vec![0.25f32.to_bits(), 2.0f32.to_bits()]),
    )
    .unwrap();
    assert_eq!(c.id(), 4);
    assert_eq!(c.name(), "Dana");
    assert_eq!(c.party(), &Some("IND".to_string()));
    assert_eq!(
        c.positions(),
        &Some(vec![0.25f32.to_bits(), 2.0f32.to_bits()])
    );
}

#[test]
fn oversized_mallows_rankings_are_refused() {
    let mut many = Vec::new();
    let mut reference = Vec::new();
    for id in 0..21u16 {
        many.push(Candidate::new(id, format!("c{id}"), None, None).unwrap());
        reference.push(id);
    }
    let bloc = VotingBloc::builder(Mallows::new(reference, mallows_decay(1.0, 21)), 5)
        .add_tactic(TacticChoice::Honest(Identity), 1)
        .build();
    match Election::new(many, vec![bloc], Plurality) {
        Ok(_) => panic!("more than twenty candidates must be refused"),
        Err(e) => assert_eq!(e, ConfigError::InvalidWeights),
    }
}
