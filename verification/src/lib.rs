//! Cribbage hand scoring and discard search.
//!
//! The crate models cards, scores a four-card hand against a starter card
//! under the standard cribbage rules (fifteens, pairs, runs, flushes and
//! "one for his nob"), and ranks the possible four-card keeps from a larger
//! dealt set by their total score over every remaining starter.

pub mod bounds;
pub mod cards;
pub mod deck;
pub mod errors;
pub mod laws;
pub mod parse;
pub mod score;
pub mod search;

pub use cards::Card;
pub use cards::Hand;
pub use cards::Number;
pub use cards::Suit;
pub use deck::Deck;
pub use errors::CribleError;
pub use parse::parse_cards;
pub use search::best_hands;
pub use search::score_starters;
pub use search::sort_cards;
pub use search::Scores;
