//! The capability set an individual representation must supply to the
//! population engine.
//!
//! Fitness is an `i64`; higher is better throughout.  Each individual caches
//! its fitness, and the engine keeps the cache consistent: after every
//! generation, every individual's cached fitness equals the fitness function
//! of its current genome (`fitness_spec == fitness_of`).

use vstd::prelude::*;

verus! {

/// Shared, read-only, problem-specific parameters.  The engine never mutates
/// the data; it only hands it to the individual operations.
pub trait EvoIndividualData: Sized {
    /// Well-formedness of the shared data (bounds on sizes and the like).
    spec fn valid(&self) -> bool;
}

/// One candidate solution plus its cached fitness.
///
/// `valid` is the structural invariant an individual keeps with respect to
/// the shared data; every operation below preserves it.  `fitness_of` is the
/// problem's fitness function of the current genome; `count_fitness` stores
/// it into the cache read back by `get_fitness`.
pub trait EvoIndividual<Data: EvoIndividualData>: Sized {
    /// Structural well-formedness with respect to the shared data.
    spec fn valid(&self, data: &Data) -> bool;

    /// The cached fitness score.
    spec fn fitness_spec(&self) -> i64;

    /// The fitness that `count_fitness` computes from the current genome.
    spec fn fitness_of(&self, data: &Data) -> i64;

    /// The two visual scalars reported to the diversity visualiser.
    spec fn visuals_spec(&self, data: &Data) -> (i64, i64);

    /// A blank individual, used to fill the scratch buffer at construction.
    fn new(data: &Data) -> (r: Self)
        requires
            data.valid(),
        ensures
            r.valid(data),
    ;

    /// A randomised individual; its fitness cache is not yet meaningful
    /// until `count_fitness` runs.
    fn new_randomised(data: &Data, rng: &mut rand::rngs::SmallRng) -> (r: Self)
        requires
            data.valid(),
        ensures
            r.valid(data),
    ;

    /// Overwrite `ind` with a copy of `self`: afterwards the two are
    /// indistinguishable to every observer the engine has — validity,
    /// cached fitness, genome fitness and visuals, under any shared data.
    fn copy_to(&self, ind: &mut Self)
        ensures
            final(ind).fitness_spec() == self.fitness_spec(),
            forall|d: Data| #[trigger] final(ind).valid(&d) == self.valid(&d),
            forall|d: Data| #[trigger] final(ind).fitness_of(&d) == self.fitness_of(&d),
            forall|d: Data| #[trigger] final(ind).visuals_spec(&d) == self.visuals_spec(&d),
    ;

    /// Mutate the genome in place.  `mut_prob` is a probability in parts of
    /// [`crate::population::PROB_SCALE`]; `mut_amount` is a problem-specific
    /// magnitude.
    fn mutate(
        &mut self,
        data: &Data,
        rng: &mut rand::rngs::SmallRng,
        mut_prob: u32,
        mut_amount: u32,
    )
        requires
            data.valid(),
            old(self).valid(data),
        ensures
            final(self).valid(data),
    ;

    /// A child whose genome combines `self` and `other`.
    fn crossover(&self, other: &Self, data: &Data, rng: &mut rand::rngs::SmallRng) -> (r: Self)
        requires
            data.valid(),
            self.valid(data),
            other.valid(data),
        ensures
            r.valid(data),
    ;

    /// Recompute the fitness of the current genome and store it in the
    /// cache, leaving the genome itself alone.
    fn count_fitness(&mut self, data: &Data)
        requires
            data.valid(),
            old(self).valid(data),
        ensures
            final(self).valid(data),
            final(self).fitness_spec() == old(self).fitness_of(data),
            final(self).fitness_of(data) == old(self).fitness_of(data),
            final(self).visuals_spec(data) == old(self).visuals_spec(data),
    ;

    /// Read the cached fitness.
    fn get_fitness(&self) -> (f: i64)
        ensures
            f == self.fitness_spec(),
    ;

    /// Read the two visual scalars of the current genome.
    fn get_visuals(&self, data: &Data) -> (v: (i64, i64))
        requires
            data.valid(),
            self.valid(data),
        ensures
            v == self.visuals_spec(data),
    ;
}

} // verus!
