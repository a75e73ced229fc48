//! Parallel search over the seed space of a xorshift128+ generator for seeds
//! whose first bounded draw is followed by a long run of equal draws, and a
//! compact base-35 token for each seed found.

pub mod generator;
pub mod probe;
pub mod partition;
pub mod token;
