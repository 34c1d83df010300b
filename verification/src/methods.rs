//! A collection of voting methods that tabulate the results of an
//! election.

mod approval;
mod borda;
mod instant_runoff;
mod plurality;
mod random_dictator;
mod single_transferable_vote;
mod star;

pub use approval::Approval;
pub use approval::approval_count;
pub use approval::approval_counts;
pub use approval::count_occurrences;
pub use borda::Borda;
pub use instant_runoff::IRV;
pub use instant_runoff::irv_post;
pub use instant_runoff::irv_winner_ids;
pub use borda::borda_counts;
pub use borda::borda_points;
pub use borda::borda_points_upto;
pub use borda::borda_score;
pub use plurality::Plurality;
pub use plurality::first_choice_count;
pub use random_dictator::RandomDictator;
pub use single_transferable_vote::STV;
pub use single_transferable_vote::stv_rounds;
pub use single_transferable_vote::elect_pick;
pub use single_transferable_vote::eliminate_pick;
pub use single_transferable_vote::lemma_stv_seats;
pub use star::Star;
pub use star::score_of;
pub use star::star_counts;
pub use star::star_post;
pub use star::star_scan;
pub use star::runoff_count;
pub use star::total_score;
pub use star::score_points_upto;
pub use plurality::plurality_counts;
pub use plurality::lemma_first_choice_positive;
pub use plurality::tally_first_choices;
