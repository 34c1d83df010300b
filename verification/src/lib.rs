//! A social-choice library for the simulation and analysis of strategic
//! voting: preference models draw ballots for blocs of voters, tactics
//! distort them, and voting methods tabulate the resulting profile into an
//! election outcome.

pub mod ballot;
pub mod candidate;
pub mod election;
pub mod method;
pub mod methods;
pub mod outcome;
pub mod preference;
pub mod preferences;
pub mod ranking;
pub mod rng;
pub mod tactic;
pub mod tactics;
pub mod tally;
pub mod voting_bloc;
