//! A collection of preference models that represent the preferences of
//! voters in an election.

mod impartial;
mod mallows;
mod manual;
mod plackett_luce;

pub use impartial::Impartial;
pub use mallows::Mallows;
pub use mallows::fact;
pub use mallows::inv_count;
pub use mallows::inv_count_sum;
pub use mallows::lemma_inv_count_le_fact;
pub use manual::Manual;
pub use plackett_luce::PlackettLuce;
