//! Tests for the voting methods, on fixed profiles with known results.

use kingmaker::ballot::{Cardinal, Nominal, Ordinal, Profile};
use kingmaker::candidate::Candidate;
use kingmaker::method::Method;
use kingmaker::methods::{Approval, Borda, Plurality, RandomDictator, Star, IRV, STV};
use kingmaker::outcome::{MultiWinner, Outcome, SingleWinner};

fn candidates() -> Vec<Candidate> {
    vec![
        Candidate::new(0, "A".to_string(), Some("DEM".to_string()), None).unwrap(),
        Candidate::new(1, "B".to_string(), Some("REP".to_string()), None).unwrap(),
        Candidate::new(2, "C".to_string(), None, None).unwrap(),
    ]
}

fn nominal_ballots() -> Profile<Nominal> {
    Profile::new(vec![
        Nominal(vec![]),
        Nominal(vec![]),
        Nominal(vec![0, 1]),
        Nominal(vec![1]),
        Nominal(vec![2]),
    ])
}

fn ordinal_ballots() -> Profile<Ordinal> {
    Profile::new(vec![
        Ordinal(vec![0, 1, 2]),
        Ordinal(vec![1, 0, 2]),
        Ordinal(vec![2, 1, 0]),
        Ordinal(vec![2, 0, 1]),
        Ordinal(vec![0, 1, 2]),
        Ordinal(vec![2, 1, 0]),
    ])
}

fn cardinal_ballots() -> Profile<Cardinal> {
    Profile::new(vec![
        Cardinal(vec![(0, 4), (1, 3), (2, 4)]),
        Cardinal(vec![(0, 4), (1, 1), (2, 2)]),
        Cardinal(vec![(0, 0), (1, 5), (2, 0)]),
        Cardinal(vec![(0, 0), (1, 2), (2, 1)]),
        Cardinal(vec![(0, 4), (1, 3), (2, 0)]),
    ])
}

#[test]
fn random_dictator_outcome() {
    let candidates = candidates();
    let ballots: Profile<Ordinal> = ordinal_ballots();
    let outcome = RandomDictator.outcome(&candidates, ballots);
    assert_eq!(outcome, SingleWinner::win(&candidates, 0));
}

#[test]
fn plurality_outcome() {
    let candidates = candidates();
    let ballots = ordinal_ballots();
    let outcome = Plurality.outcome(&candidates, ballots);
    assert_eq!(outcome, SingleWinner::win(&candidates, 2));
}

#[test]
fn approval_outcome() {
    let candidates = candidates();
    let ballots = nominal_ballots();
    let outcome = Approval.outcome(&candidates, ballots);
    assert_eq!(outcome, SingleWinner::win(&candidates, 1));
}

#[test]
fn borda_outcome() {
    let candidates = candidates();
    let ballots = ordinal_ballots();
    let outcome = Borda.outcome(&candidates, ballots);
    assert_eq!(outcome, SingleWinner::tie(&candidates, &vec![0, 1, 2]));
}

#[test]
fn star_outcome() {
    let candidates = candidates();
    let ballots = cardinal_ballots();
    let outcome = Star.outcome(&candidates, ballots);
    assert_eq!(outcome, SingleWinner::win(&candidates, 0));
}

#[test]
fn instant_runoff_outcome() {
    let candidates = candidates();
    let ballots = ordinal_ballots();
    let outcome = IRV.outcome(&candidates, ballots);
    assert_eq!(outcome, SingleWinner::tie(&candidates, &vec![0, 2]));
}

#[test]
fn single_transferable_vote_outcome() {
    let candidates = candidates();
    let ballots = ordinal_ballots();
    let outcome = STV::new(2).outcome(&candidates, ballots);
    assert_eq!(outcome, MultiWinner::seats(&candidates, &vec![1, 2]));
}

// candidates A, B, C; five rankings. Plurality gives A and C two first
// places each and B one, a tie between A and C.
#[test]
fn plurality_majority_example() {
    let candidates = candidates();
    let ballots = Profile::new(vec![
        Ordinal(vec![0, 1, 2]),
        Ordinal(vec![1, 0, 2]),
        Ordinal(vec![2, 0, 1]),
        Ordinal(vec![2, 0, 1]),
        Ordinal(vec![0, 1, 2]),
    ]);
    let outcome = Plurality.outcome(&candidates, ballots);
    assert_eq!(outcome, SingleWinner::tie(&candidates, &vec![0, 2]));
}

// On the same profile, instant runoff eliminates B (one first place),
// B's ballot passes to A, and A holds three of five first places, a
// majority.
#[test]
fn instant_runoff_majority_example() {
    let candidates = candidates();
    let ballots = Profile::new(vec![
        Ordinal(vec![0, 1, 2]),
        Ordinal(vec![1, 0, 2]),
        Ordinal(vec![2, 0, 1]),
        Ordinal(vec![2, 0, 1]),
        Ordinal(vec![0, 1, 2]),
    ]);
    let outcome = IRV.outcome(&candidates, ballots);
    assert_eq!(outcome, SingleWinner::win(&candidates, 0));
}

#[test]
fn stv_fills_every_seat_on_an_empty_profile() {
    let candidates = candidates();
    let outcome = STV::new(2).outcome(&candidates, Profile::new(vec![]));
    match outcome {
        MultiWinner::Elected(ws) => assert_eq!(ws.len(), 2),
        MultiWinner::NoWinner => panic!("no winners elected"),
    }
}

#[test]
fn plurality_of_nothing_elects_nobody() {
    let candidates = candidates();
    let outcome = Plurality.outcome(&candidates, Profile::new(vec![]));
    assert_eq!(outcome, SingleWinner::none());
}

#[test]
fn tie_collects_each_candidate_once_in_id_order() {
    let candidates = candidates();
    let tie = SingleWinner::tie(&candidates, &vec![2, 0, 2]);
    assert_eq!(tie, SingleWinner::tie(&candidates, &vec![0, 2]));
    match tie {
        SingleWinner::Tie(cs) => {
            assert_eq!(cs.len(), 2);
            assert_eq!(cs[0].id(), 0);
            assert_eq!(cs[1].id(), 2);
        },
        _ => panic!("expected a tie"),
    }
}

#[test]
fn winners_report_names() {
    let candidates = candidates();
    let win = SingleWinner::win(&candidates, 1);
    assert_eq!(win.winners(), vec!["B".to_string()]);
    let tie = SingleWinner::tie(&candidates, &vec![2, 0]);
    assert_eq!(tie.winners(), vec!["A".to_string(), "C".to_string()]);
    assert_eq!(SingleWinner::none().winners(), Vec::<String>::new());
}

// A and B are tied at the minimum and maximum at once, but C still
// stands: both are eliminated together, their votes transfer, and C
// collects every ballot.
#[test]
fn instant_runoff_transfers_past_a_paired_tie() {
    let candidates = candidates();
    let ballots = Profile::new(vec![
        Ordinal(vec![0, 2]),
        Ordinal(vec![0, 2]),
        Ordinal(vec![1, 2]),
        Ordinal(vec![1, 2]),
    ]);
    let outcome = IRV.outcome(&candidates, ballots);
    assert_eq!(outcome, SingleWinner::win(&candidates, 2));
}

// A single ranking of length three awards three, two, and one points.
#[test]
fn borda_awards_points_by_rank() {
    let candidates = candidates();
    let ballots = Profile::new(vec![Ordinal(vec![2, 1, 0]), Ordinal(vec![2, 0, 1])]);
    let outcome = Borda.outcome(&candidates, ballots);
    // C earns six, A and B earn three each
    assert_eq!(outcome, SingleWinner::win(&candidates, 2));
}
