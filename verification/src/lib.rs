//! Diceware-style passphrase generation: uniformly random words drawn from a
//! fixed word list, joined by a delimiter, with the size of the search space
//! reported as an order of magnitude.

pub mod math;
pub mod output;
pub mod passphrase;
pub mod random;
pub mod render;
