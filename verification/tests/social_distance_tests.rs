use rand::rngs::SmallRng;
use rand::SeedableRng;

use revo::evo_individual::EvoIndividual;
use revo::population::{Population, PopulationParams, SelectionStrategyType};
use revo::social_distance::{DistanceIndividual, DistanceIndividualData};

fn small_data() -> DistanceIndividualData {
    DistanceIndividualData::new(400, 400, 2, 20)
}

#[test]
fn test_distance_individual_data_new() {
    let data = small_data();
    assert_eq!(data.screen_width, 400);
    assert_eq!(data.screen_height, 400);
    assert_eq!(data.n_points, 2);
    assert_eq!(data.required_distance, 20);
}

#[test]
fn test_count_fitness_exact_value() {
    let data = small_data();
    let mut ind = <DistanceIndividual as EvoIndividual<DistanceIndividualData>>::new(&data);
    ind.count_fitness(&data);
    // Both points sit at the origin.  Per point: the nearest neighbour is
    // at squared distance 0, missing the required squared distance 400 by
    // 400, scaled by the 2 points; the squared distance to the centre
    // (200, 200) is 80_000.  The penalty is 2 * (400 * 2 + 80_000).
    assert_eq!(ind.get_fitness(), -161_600);
    assert_eq!(ind.get_visuals(&data), (0, 0));
}

#[test]
fn test_randomised_points_stay_on_screen() {
    let data = DistanceIndividualData::new(100, 50, 30, 10);
    let mut rng = SmallRng::from_entropy();
    for _ in 0..20 {
        let ind = <DistanceIndividual as EvoIndividual<DistanceIndividualData>>::new_randomised(
            &data, &mut rng,
        );
        let (a, b) = ind.get_visuals(&data);
        // Each of the 30 coordinates lies in 5..=95 horizontally and
        // 5..=45 vertically.
        assert!(30 * 5 <= a && a <= 30 * 95);
        assert!(30 * 5 <= b && b <= 30 * 45);
    }
}

#[test]
fn test_mutate_keeps_points_on_screen() {
    let data = DistanceIndividualData::new(64, 64, 16, 8);
    let mut rng = SmallRng::from_entropy();
    let mut ind = <DistanceIndividual as EvoIndividual<DistanceIndividualData>>::new_randomised(
        &data, &mut rng,
    );
    for _ in 0..50 {
        ind.mutate(&data, &mut rng, 1_000_000, 10_000);
        let (a, b) = ind.get_visuals(&data);
        assert!(0 <= a && a <= 16 * 64);
        assert!(0 <= b && b <= 16 * 64);
    }
}

#[test]
fn test_crossover_mixes_parents() {
    let data = small_data();
    let mut rng = SmallRng::from_entropy();
    let zero = <DistanceIndividual as EvoIndividual<DistanceIndividualData>>::new(&data);
    let other = zero.clone();
    let mut child = zero.crossover(&other, &data, &mut rng);
    // A convex mix of identical parents is that parent again.
    child.count_fitness(&data);
    assert_eq!(child.get_fitness(), -161_600);
    assert_eq!(child.get_visuals(&data), (0, 0));
}

#[test]
fn test_copy_to_preserves_fitness_and_visuals() {
    let data = small_data();
    let mut rng = SmallRng::from_entropy();
    let mut a = <DistanceIndividual as EvoIndividual<DistanceIndividualData>>::new_randomised(
        &data, &mut rng,
    );
    a.count_fitness(&data);
    let mut b = <DistanceIndividual as EvoIndividual<DistanceIndividualData>>::new(&data);
    a.copy_to(&mut b);
    assert_eq!(a.get_fitness(), b.get_fitness());
    assert_eq!(a.get_visuals(&data), b.get_visuals(&data));
}

#[test]
fn test_engine_runs_on_distance_individuals() {
    let params = PopulationParams {
        pop_width: 4,
        pop_height: 4,
        mut_prob: 500_000,
        mut_amount: 5,
        crossover_prob: 300_000,
        selection_strategy: SelectionStrategyType::Roulette,
    };
    let data = DistanceIndividualData::new(64, 64, 8, 12);
    let mut pop: Population<DistanceIndividual, DistanceIndividualData> =
        Population::new(&params, data);
    let mut last_best = pop.get_best().get_fitness();
    for _ in 0..10 {
        pop.next_gen();
        let best = pop.get_best().get_fitness();
        // Fitness is always a negated penalty.
        assert!(best <= 0);
        last_best = last_best.max(best);
    }
    assert_eq!(pop.get_generation(), 10);
}
