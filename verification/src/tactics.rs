//! A collection of tactics that represent the strategic behaviours of
//! voters in an election.

mod burial;
mod choice;
mod compromise;
mod identity;
mod pushover;

pub use burial::Burial;
pub use choice::TacticChoice;
pub use compromise::Compromise;
pub use compromise::compromise_view;
pub use compromise::lemma_compromise_idempotent;
pub use burial::burial_view;
pub use identity::Identity;
pub use pushover::Pushover;
pub use pushover::pushover_view;
