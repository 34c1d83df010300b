//! Tests for the tactics: each one rewrites a ranking exactly as
//! documented.

use kingmaker::ballot::{Nominal, Ordinal};
use kingmaker::tactic::Tactic;
use kingmaker::tactics::{Burial, Compromise, Identity, Pushover, TacticChoice};

#[test]
fn identity_tactic() {
    let identity = Identity;
    let nominal = Nominal(vec![]);
    assert_eq!(identity.apply(nominal.clone()), nominal);
}

#[test]
fn compromise_tactic() {
    let compromise = Compromise::new(vec![2]);
    let ordinal = Ordinal(vec![0, 2, 1]);
    assert_eq!(compromise.apply(ordinal), Ordinal(vec![2, 0, 1]))
}

#[test]
fn burial_tactic() {
    let burial = Burial::new(vec![2]);
    let ordinal = Ordinal(vec![0, 2, 1]);
    assert_eq!(burial.apply(ordinal), Ordinal(vec![0, 1, 2]))
}

#[test]
fn pushover_tactic() {
    let pushover = Pushover::new(vec![0], vec![2]);
    let ordinal = Ordinal(vec![0, 1, 2]);
    assert_eq!(pushover.apply(ordinal), Ordinal(vec![0, 2, 1]))
}

#[test]
fn identity_keeps_every_shape() {
    let identity = Identity;
    let ordinal = Ordinal(vec![3, 1, 4]);
    assert_eq!(identity.apply(ordinal.clone()), ordinal);
}

#[test]
fn compromise_applied_twice_is_applied_once() {
    let compromise = Compromise::new(vec![2, 1]);
    let once = compromise.apply(Ordinal(vec![0, 2, 1]));
    let twice = compromise.apply(once.clone());
    assert_eq!(twice, once);
}

#[test]
fn compromise_ignores_absent_targets() {
    let compromise = Compromise::new(vec![9, 2]);
    let ordinal = Ordinal(vec![0, 2, 1]);
    assert_eq!(compromise.apply(ordinal), Ordinal(vec![2, 0, 1]));
}

#[test]
fn burial_ignores_absent_targets() {
    let burial = Burial::new(vec![9, 0]);
    let ordinal = Ordinal(vec![0, 2, 1]);
    assert_eq!(burial.apply(ordinal), Ordinal(vec![2, 1, 0]));
}

#[test]
fn burial_without_targets_is_the_identity() {
    let burial = Burial::new(vec![]);
    let ordinal = Ordinal(vec![0, 2, 1]);
    assert_eq!(burial.apply(ordinal.clone()), ordinal);
}

#[test]
fn tactic_family_acts_like_its_members() {
    let ordinal = Ordinal(vec![0, 2, 1]);
    let honest = TacticChoice::Honest(Identity);
    assert_eq!(honest.apply(ordinal.clone()), ordinal);
    let compromising = TacticChoice::Compromising(Compromise::new(vec![2]));
    assert_eq!(compromising.apply(ordinal.clone()), Ordinal(vec![2, 0, 1]));
    let burying = TacticChoice::Burying(Burial::new(vec![2]));
    assert_eq!(burying.apply(ordinal.clone()), Ordinal(vec![0, 1, 2]));
    let pushing = TacticChoice::PushingOver(Pushover::new(vec![1], vec![2]));
    assert_eq!(pushing.apply(ordinal), Ordinal(vec![1, 2, 0]));
}

#[test]
fn pushover_keeps_remainder_order() {
    let pushover = Pushover::new(vec![3], vec![1]);
    let ordinal = Ordinal(vec![0, 1, 2, 3, 4]);
    assert_eq!(pushover.apply(ordinal), Ordinal(vec![3, 1, 0, 2, 4]));
}
