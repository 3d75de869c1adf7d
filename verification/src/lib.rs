//! A grid-based evolutionary-algorithm engine.
//!
//! A population of candidate solutions lives on a toroidal 2D grid.  Each
//! generation, every cell is refilled from its five-cell neighbourhood by
//! selection, crossover and mutation, and its fitness is recomputed.  The
//! engine is generic over the individual representation, which is supplied
//! through the [`evo_individual::EvoIndividual`] trait.

pub mod basic_individual;
pub mod evo_individual;
pub mod population;
mod rng;
pub mod social_distance;
pub mod testing;
pub mod utils;
