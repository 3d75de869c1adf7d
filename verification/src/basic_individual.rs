//! The simplest possible individual: one scalar genome whose fitness is
//! its own value.  It shows what an implementation of the individual
//! contract looks like and gives the engine something to climb.

use vstd::prelude::*;

use crate::evo_individual::{EvoIndividual, EvoIndividualData};
use crate::population::PROB_SCALE;
use crate::rng::rng_below;

verus! {

/// The genome never leaves this band, so mutation arithmetic stays easily
/// inside `i64`.
pub const BASIC_VALUE_LIMIT: i64 = 0x4000_0000_0000_0000;

#[derive(Clone, Copy, Debug)]
pub struct BasicIndividualData {
    pub value: i64,
}

impl EvoIndividualData for BasicIndividualData {
    /// The base value leaves room for the randomised offset.
    open spec fn valid(&self) -> bool {
        -BASIC_VALUE_LIMIT < self.value < BASIC_VALUE_LIMIT - 10
    }
}

impl Default for BasicIndividualData {
    fn default() -> (r: Self)
        ensures
            r == (BasicIndividualData { value: 0int as i64 }),
            r.valid(),
    {
        BasicIndividualData { value: 0 }
    }
}

#[derive(Clone, Copy, Debug)]
pub struct BasicIndividual {
    pub fitness: i64,
    pub value: i64,
}

impl EvoIndividual<BasicIndividualData> for BasicIndividual {
    open spec fn valid(&self, data: &BasicIndividualData) -> bool {
        -BASIC_VALUE_LIMIT <= self.value <= BASIC_VALUE_LIMIT
    }

    open spec fn fitness_spec(&self) -> i64 {
        self.fitness
    }

    open spec fn fitness_of(&self, data: &BasicIndividualData) -> i64 {
        self.value
    }

    open spec fn visuals_spec(&self, data: &BasicIndividualData) -> (i64, i64) {
        (self.value, self.value)
    }

    fn new(data: &BasicIndividualData) -> (r: Self) {
        BasicIndividual { fitness: 0, value: data.value }
    }

    /// Starts at the base value plus a uniform offset below ten.
    fn new_randomised(data: &BasicIndividualData, rng: &mut rand::rngs::SmallRng) -> (r: Self) {
        let offset = rng_below(rng, 10) as i64;
        BasicIndividual { fitness: 0, value: data.value + offset }
    }

    fn copy_to(&self, ind: &mut Self) {
        ind.fitness = self.fitness;
        ind.value = self.value;
    }

    /// With probability `mut_prob`, move the genome by a uniform step in
    /// `-mut_amount..=mut_amount`, stopping at the value band.
    fn mutate(
        &mut self,
        data: &BasicIndividualData,
        rng: &mut rand::rngs::SmallRng,
        mut_prob: u32,
        mut_amount: u32,
    ) {
        let roll = rng_below(rng, PROB_SCALE as u64);
        if roll < mut_prob as u64 {
            let span: u64 = 2 * (mut_amount as u64) + 1;
            let step = rng_below(rng, span) as i128 - mut_amount as i128;
            let mut moved: i128 = self.value as i128 + step;
            if moved < -BASIC_VALUE_LIMIT as i128 {
                moved = -BASIC_VALUE_LIMIT as i128;
            }
            if moved > BASIC_VALUE_LIMIT as i128 {
                moved = BASIC_VALUE_LIMIT as i128;
            }
            self.value = moved as i64;
        }
    }

    /// A uniform convex mix of the two parent genomes, in thousandths.
    fn crossover(
        &self,
        another_ind: &Self,
        data: &BasicIndividualData,
        rng: &mut rand::rngs::SmallRng,
    ) -> (r: Self) {
        let ratio = rng_below(rng, 1001) as i128;
        proof {
            assert(-0x4000_0000_0000_0000i128 * 1000 <= (self.value as i128) * ratio
                <= 0x4000_0000_0000_0000i128 * 1000 && -0x4000_0000_0000_0000i128 * 1000 <= (
            another_ind.value as i128) * (1000 - ratio) <= 0x4000_0000_0000_0000i128 * 1000
                && -0x4000_0000_0000_0000i128 * 1000 <= (self.value as i128) * ratio + (
            another_ind.value as i128) * (1000 - ratio) <= 0x4000_0000_0000_0000i128 * 1000)
                by (nonlinear_arith)
                requires
                    0 <= ratio <= 1000,
                    -0x4000_0000_0000_0000i128 <= self.value as i128 <= 0x4000_0000_0000_0000i128,
                    -0x4000_0000_0000_0000i128 <= another_ind.value as i128
                        <= 0x4000_0000_0000_0000i128,
            ;
        }
        let num = (self.value as i128) * ratio + (another_ind.value as i128) * (1000 - ratio);
        proof {
            assert(-0x4000_0000_0000_0000i128 <= num / 1000 <= 0x4000_0000_0000_0000i128)
                by (nonlinear_arith)
                requires
                    -0x4000_0000_0000_0000i128 * 1000 <= num <= 0x4000_0000_0000_0000i128 * 1000,
            ;
        }
        let mixed = num / 1000;
        BasicIndividual { fitness: 0, value: mixed as i64 }
    }

    fn count_fitness(&mut self, data: &BasicIndividualData) {
        self.fitness = self.value;
    }

    fn get_fitness(&self) -> (f: i64) {
        self.fitness
    }

    fn get_visuals(&self, data: &BasicIndividualData) -> (v: (i64, i64)) {
        (self.value, self.value)
    }
}

} // verus!
