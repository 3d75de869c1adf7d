use rand::rngs::SmallRng;
use rand::SeedableRng;

use revo::basic_individual::{BasicIndividual, BasicIndividualData};
use revo::evo_individual::EvoIndividual;
use revo::population::{Population, PopulationParams, SelectionStrategyType};

#[test]
fn test_basic_individual_fitness_is_its_value() {
    let data = BasicIndividualData::default();
    let mut rng = SmallRng::from_entropy();
    let mut ind =
        <BasicIndividual as EvoIndividual<BasicIndividualData>>::new_randomised(&data, &mut rng);
    // The randomised start is the base value plus an offset below ten.
    assert!(0 <= ind.value && ind.value < 10);
    ind.count_fitness(&data);
    assert_eq!(ind.get_fitness(), ind.value);
    assert_eq!(ind.get_visuals(&data), (ind.value, ind.value));
}

#[test]
fn test_basic_individual_mutate_and_crossover() {
    let data = BasicIndividualData { value: 40 };
    let mut rng = SmallRng::from_entropy();
    let mut ind = <BasicIndividual as EvoIndividual<BasicIndividualData>>::new(&data);
    assert_eq!(ind.value, 40);
    // Zero probability: the genome never moves.
    ind.mutate(&data, &mut rng, 0, 5);
    assert_eq!(ind.value, 40);
    // Certain mutation with amplitude five stays within five of the start.
    ind.mutate(&data, &mut rng, 1_000_000, 5);
    assert!(35 <= ind.value && ind.value <= 45);
    // A convex mix of identical parents is the parent itself.
    let other = BasicIndividual { fitness: 0, value: ind.value };
    let child = ind.crossover(&other, &data, &mut rng);
    assert_eq!(child.value, ind.value);
}

#[test]
fn test_engine_runs_on_basic_individuals() {
    let params = PopulationParams {
        pop_width: 6,
        pop_height: 4,
        mut_prob: 800_000,
        mut_amount: 2,
        crossover_prob: 200_000,
        selection_strategy: SelectionStrategyType::Tournament,
    };
    let mut pop: Population<BasicIndividual, BasicIndividualData> =
        Population::new(&params, BasicIndividualData::default());
    for _ in 0..10 {
        pop.next_gen();
    }
    assert_eq!(pop.get_generation(), 10);
    // All genomes started below ten and each generation moves a genome by
    // at most two, so the best can have climbed to at most 30.
    assert!(pop.get_best().get_fitness() <= 30);
}
