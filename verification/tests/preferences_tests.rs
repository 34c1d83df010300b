//! Tests for the preference models: profile sizes, score ranges, and
//! the shape of the Mallows distribution.

use kingmaker::ballot::{Cardinal, Nominal, Ordinal, Profile};
use kingmaker::candidate::{Candidate, ConfigError};
use kingmaker::preference::Preference;
use kingmaker::preferences::{Impartial, Mallows, Manual, PlackettLuce};
use rand::rngs::StdRng;
use rand::SeedableRng;

fn candidates() -> Vec<Candidate> {
    vec![
        Candidate::new(0, "A".to_string(), Some("DEM".to_string()), None).unwrap(),
        Candidate::new(1, "B".to_string(), Some("REP".to_string()), None).unwrap(),
        Candidate::new(2, "C".to_string(), None, None).unwrap(),
    ]
}

/// The fixed-point decay table `exp(-phi * d)` scaled by two to the
/// thirty-second power, one entry per possible distance.
fn mallows_decay(phi: f64, n: usize) -> Vec<u64> {
    let max_inv = n * (n - 1) / 2;
    let scale = 4294967296.0f64;
    let mut decay = Vec::new();
    for d in 0..=max_inv {
        decay.push(((-phi * d as f64).exp() * scale) as u64);
    }
    decay
}

#[test]
fn impartial_profile() {
    let candidates = candidates();
    let impartial = Impartial;
    let mut rng = StdRng::seed_from_u64(0);
    let profile: Profile<Ordinal> = impartial.sample(&candidates, 100, &mut rng);
    assert_eq!(profile.len(), 100);
}

#[test]
fn manual_profile() {
    let candidates = candidates();
    let profile: Profile<Ordinal> = Profile::new(vec![
        Ordinal(vec![0, 1, 2]),
        Ordinal(vec![1, 2, 0]),
        Ordinal(vec![2, 0, 1]),
        Ordinal(vec![0, 2, 1]),
        Ordinal(vec![1, 0, 2]),
    ]);
    let manual = Manual::new(profile).unwrap();
    let mut rng = StdRng::seed_from_u64(0);
    let profile: Profile<Ordinal> = manual.sample(&candidates, 100, &mut rng);
    assert_eq!(profile.len(), 100);
}

#[test]
fn plackett_luce_profile() {
    let candidates = candidates();
    let weights = vec![(0, 10), (1, 11), (2, 10)];
    let plackett_luce = PlackettLuce::new(weights);
    let mut rng = StdRng::seed_from_u64(0);
    let profile: Profile<Ordinal> = plackett_luce.sample(&candidates, 100, &mut rng);
    assert_eq!(profile.len(), 100);
}

#[test]
fn mallows_profile() {
    let candidates = candidates();
    let mallows = Mallows::new(vec![0, 1, 2], mallows_decay(0.5, 3));
    let mut rng = StdRng::seed_from_u64(0);
    let profile: Profile<Ordinal> = mallows.sample(&candidates, 100, &mut rng);
    assert_eq!(profile.len(), 100);
}

// With no dispersion every permutation is equally likely: over many
// draws each of the six rankings of three candidates appears a fair
// share of the time.
#[test]
fn mallows_without_dispersion_is_nearly_uniform() {
    let candidates = candidates();
    let mallows = Mallows::new(vec![0, 1, 2], mallows_decay(0.0, 3));
    let mut rng = StdRng::seed_from_u64(11);
    let perms = vec![
        vec![0, 1, 2],
        vec![0, 2, 1],
        vec![1, 0, 2],
        vec![1, 2, 0],
        vec![2, 0, 1],
        vec![2, 1, 0],
    ];
    let mut counts = vec![0usize; 6];
    for _ in 0..600 {
        let b = mallows.draw(&candidates, &mut rng);
        let at = perms.iter().position(|p| *p == b.0).expect("a permutation");
        counts[at] += 1;
    }
    for c in counts {
        assert!(c >= 50, "a permutation appeared only {} times", c);
    }
}

// With strong dispersion the overwhelming majority of draws equal the
// reference ranking exactly.
#[test]
fn mallows_with_strong_dispersion_hugs_the_reference() {
    let candidates = candidates();
    let mallows = Mallows::new(vec![1, 2, 0], mallows_decay(8.0, 3));
    let mut rng = StdRng::seed_from_u64(5);
    let mut hits = 0usize;
    for _ in 0..200 {
        let b = mallows.draw(&candidates, &mut rng);
        if b.0 == vec![1, 2, 0] {
            hits += 1;
        }
    }
    assert!(hits >= 180, "only {} of 200 draws matched the reference", hits);
}

#[test]
fn impartial_scores_stay_in_range() {
    let candidates = candidates();
    let impartial = Impartial;
    let mut rng = StdRng::seed_from_u64(3);
    let profile: Profile<Cardinal> = impartial.sample(&candidates, 50, &mut rng);
    for ballot in profile.iter() {
        assert_eq!(ballot.0.len(), 3);
        for (_, score) in ballot.0.iter() {
            assert!(*score <= 5);
        }
    }
}

#[test]
fn impartial_rankings_are_permutations() {
    let candidates = candidates();
    let impartial = Impartial;
    let mut rng = StdRng::seed_from_u64(4);
    let profile: Profile<Ordinal> = impartial.sample(&candidates, 50, &mut rng);
    for ballot in profile.iter() {
        let mut ids = ballot.0.clone();
        ids.sort();
        assert_eq!(ids, vec![0, 1, 2]);
    }
}

#[test]
fn plackett_luce_single_candidate_is_deterministic() {
    let candidates = vec![Candidate::new(7, "G".to_string(), None, None).unwrap()];
    let plackett_luce = PlackettLuce::new(vec![(7, 3)]);
    let mut rng = StdRng::seed_from_u64(9);
    let b = plackett_luce.draw(&candidates, &mut rng);
    assert_eq!(b.0, vec![7]);
}

#[test]
fn empty_manual_profile_is_refused() {
    let empty: Profile<Ordinal> = Profile::new(vec![]);
    match Manual::new(empty) {
        Ok(_) => panic!("an empty profile must be refused"),
        Err(e) => assert_eq!(e, ConfigError::EmptyManualProfile),
    }
}

#[test]
fn impartial_approvals_hold_known_ids() {
    let candidates = candidates();
    let impartial = Impartial;
    let mut rng = StdRng::seed_from_u64(6);
    let profile: Profile<Nominal> = impartial.sample(&candidates, 50, &mut rng);
    let mut approved = 0usize;
    for ballot in profile.iter() {
        approved += ballot.0.len();
        for id in ballot.0.iter() {
            assert!(*id <= 2);
        }
    }
    assert!(approved > 0);
}
