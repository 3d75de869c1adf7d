//! A deterministic mock individual for exercising the engine: its genome is
//! one scalar, mutation increments it, crossover averages it, and its
//! fitness is the scalar itself.

use vstd::prelude::*;

use crate::evo_individual::{EvoIndividual, EvoIndividualData};

verus! {

#[derive(Clone)]
pub struct MockIndividualData {}

impl EvoIndividualData for MockIndividualData {
    open spec fn valid(&self) -> bool {
        true
    }
}

#[derive(Clone, Copy, Debug)]
pub struct MockIndividual {
    pub fitness: i64,
    pub visuals: (i64, i64),
    pub value: i64,
}

impl EvoIndividual<MockIndividualData> for MockIndividual {
    open spec fn valid(&self, data: &MockIndividualData) -> bool {
        true
    }

    open spec fn fitness_spec(&self) -> i64 {
        self.fitness
    }

    open spec fn fitness_of(&self, data: &MockIndividualData) -> i64 {
        self.value
    }

    open spec fn visuals_spec(&self, data: &MockIndividualData) -> (i64, i64) {
        self.visuals
    }

    fn new(data: &MockIndividualData) -> (r: Self)
        ensures
            r == (MockIndividual { fitness: 0, visuals: (0, 0), value: 0 }),
    {
        MockIndividual { fitness: 0, visuals: (0, 0), value: 0 }
    }

    fn new_randomised(data: &MockIndividualData, rng: &mut rand::rngs::SmallRng) -> (r: Self)
        ensures
            r == (MockIndividual { fitness: 0, visuals: (0, 0), value: 0 }),
    {
        MockIndividual { fitness: 0, visuals: (0, 0), value: 0 }
    }

    fn copy_to(&self, ind: &mut Self) {
        ind.fitness = self.fitness;
        ind.visuals = self.visuals;
        ind.value = self.value;
    }

    /// The mock mutation ignores the probability and the amount: it always
    /// increments the scalar by one (saturating at the top of `i64`).
    fn mutate(
        &mut self,
        data: &MockIndividualData,
        rng: &mut rand::rngs::SmallRng,
        mut_prob: u32,
        mut_amount: u32,
    )
        ensures
            final(self).value == if old(self).value == i64::MAX {
                i64::MAX as int
            } else {
                old(self).value + 1
            },
            final(self).fitness == old(self).fitness,
            final(self).visuals == old(self).visuals,
    {
        if self.value < i64::MAX {
            self.value = self.value + 1;
        }
    }

    /// The mock crossover averages the two scalars, rounding toward zero.
    fn crossover(
        &self,
        another_ind: &Self,
        data: &MockIndividualData,
        rng: &mut rand::rngs::SmallRng,
    ) -> (r: Self)
        ensures
            r.fitness == 0 && r.visuals == (0int as i64, 0int as i64),
            self.value >= 0 && another_ind.value >= 0 ==> r.value == (self.value
                + another_ind.value) / 2,
    {
        let mid = ((self.value as i128 + another_ind.value as i128) / 2) as i64;
        MockIndividual { fitness: 0, visuals: (0, 0), value: mid }
    }

    fn count_fitness(&mut self, data: &MockIndividualData)
        ensures
            *final(self) == (MockIndividual {
                fitness: old(self).value,
                ..*old(self)
            }),
    {
        self.fitness = self.value;
    }

    fn get_fitness(&self) -> (f: i64) {
        self.fitness
    }

    fn get_visuals(&self, data: &MockIndividualData) -> (v: (i64, i64)) {
        self.visuals
    }
}

} // verus!
