//! Estimation of poker hand category probabilities for a partially drawn
//! hand: a bit-parallel hand classifier, a reservoir sampler over a deck,
//! a saturating binomial helper, a generic Monte Carlo driver, and a
//! strategy that picks exhaustive enumeration or sampling per workload.

pub mod card;
pub mod deck;
pub mod discarder;
pub mod hand_spec;
pub mod monte_carlo;
pub mod poker_hand;
pub mod poker_hands_count;
pub mod poker_hand_resolver;
pub mod rank;
pub mod rng;
pub mod suit;
pub mod utils;
