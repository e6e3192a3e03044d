//! A pairwise skill-rating engine: given the finishing ranks of the
//! participants of one match, it appends an updated rating to every
//! participant's rating history.
//!
//! Ratings are integers.  The logistic expected-score curve is evaluated in
//! fixed-point arithmetic (32 fractional bits), so every result is exact and
//! fully specified; see [`fixed`] for the arithmetic and [`mmr`] for the
//! engine itself.

pub mod fixed;
pub mod mmr;
pub mod roster;

pub use mmr::Match;
pub use mmr::MatchError;
pub use mmr::Player;
pub use mmr::calculate_match;
pub use roster::MMRApp;
