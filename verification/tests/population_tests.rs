use rand::rngs::SmallRng;
use rand::SeedableRng;

use revo::evo_individual::EvoIndividual;
use revo::population::{
    Population, PopulationParams, SelectionStrategyType, DEFAULT_CROSSOVER_PROB,
    DEFAULT_MUT_AMOUNT, DEFAULT_MUT_PROB, DEFAULT_POP_HEIGHT, DEFAULT_POP_WIDTH, MAX_NEIGHBOURS,
};
use revo::testing::{MockIndividual, MockIndividualData};
use revo::utils::LabData;

pub type TestPopulation = Population<MockIndividual, MockIndividualData>;

fn mock_params(
    pop_width: usize,
    pop_height: usize,
    mut_prob: u32,
    crossover_prob: u32,
    selection_strategy: SelectionStrategyType,
) -> PopulationParams {
    PopulationParams {
        pop_width,
        pop_height,
        mut_prob,
        mut_amount: 1,
        crossover_prob,
        selection_strategy,
    }
}

fn mock_grid(n: usize) -> Vec<MockIndividual> {
    let mut vec_ind = Vec::new();
    for i in 0..n {
        vec_ind.push(MockIndividual {
            fitness: i as i64,
            visuals: (i as i64, i as i64),
            value: i as i64,
        });
    }
    vec_ind
}

#[test]
fn test_l5_selection() {
    let mut neigh_buf = [0usize; MAX_NEIGHBOURS];
    let pop_width = 5;
    let pop_height = 5;

    // indices goes like [middle, left, right, up, down]
    // Test top-left corner
    let i = 0;
    let n_neigh = TestPopulation::_l5_selection(i, pop_width, pop_height, &mut neigh_buf);
    let neighbors = &neigh_buf[..n_neigh];
    assert_eq!(neighbors, [0, 4, 1, 20, 5]);

    // Test top-right corner
    let i = 4;
    let n_neigh = TestPopulation::_l5_selection(i, pop_width, pop_height, &mut neigh_buf);
    let neighbors = &neigh_buf[..n_neigh];
    assert_eq!(neighbors, [4, 3, 0, 24, 9]);

    // Test bottom-left corner
    let i = 20;
    let n_neigh = TestPopulation::_l5_selection(i, pop_width, pop_height, &mut neigh_buf);
    let neighbors = &neigh_buf[..n_neigh];
    assert_eq!(neighbors, [20, 24, 21, 15, 0]);

    // Test bottom-right corner
    let i = 24;
    let n_neigh = TestPopulation::_l5_selection(i, pop_width, pop_height, &mut neigh_buf);
    let neighbors = &neigh_buf[..n_neigh];
    assert_eq!(neighbors, [24, 23, 20, 19, 4]);

    // Test middle element
    let i = 12;
    let n_neigh = TestPopulation::_l5_selection(i, pop_width, pop_height, &mut neigh_buf);
    let neighbors = &neigh_buf[..n_neigh];
    assert_eq!(neighbors, [12, 11, 13, 7, 17]);

    // Test bottom-middle element
    let i = 22;
    let n_neigh = TestPopulation::_l5_selection(i, pop_width, pop_height, &mut neigh_buf);
    let neighbors = &neigh_buf[..n_neigh];
    assert_eq!(neighbors, [22, 21, 23, 17, 2]);
}

#[test]
fn test_single_tournament() {
    let mut rng = SmallRng::from_entropy();
    let mut vec_ind = Vec::new();
    for i in 0..6 {
        vec_ind.push(MockIndividual {
            fitness: i as i64,
            visuals: (0, 0),
            value: 0,
        });
    }

    let res = TestPopulation::_single_tournament(&mut rng, &vec![0, 3, 2, 1], &mut vec_ind);
    assert_eq!(res, 3);

    let res = TestPopulation::_single_tournament(&mut rng, &vec![3, 0, 2, 4], &mut vec_ind);
    assert_eq!(res, 4);
}

#[test]
fn test_dual_tournament() {
    let mut vec_ind = Vec::new();
    for i in 0..6 {
        vec_ind.push(MockIndividual {
            fitness: i as i64,
            visuals: (0, 0),
            value: 0,
        });
    }

    let res = TestPopulation::_dual_tournament(&vec![0, 3, 2, 1], &mut vec_ind);
    assert_eq!(res, (3, 2));

    let res = TestPopulation::_dual_tournament(&vec![3, 0, 2, 4], &mut vec_ind);
    assert_eq!(res, (4, 3));
}

#[test]
fn test_population() {
    let params = mock_params(3, 3, 1_000_000, 0, SelectionStrategyType::Tournament);
    let mut pop = TestPopulation::new(&params, MockIndividualData {});

    // Fill the population with mock individuals
    let vec_ind = mock_grid(9);
    pop.set_individuals(vec_ind.clone());

    // Test get_best
    let res = pop.get_best();
    // Pop should return the best individual - the one with the highest
    // fitness value (last in the vector)
    assert_eq!(res.value, vec_ind[8].value);

    // Test get_at
    assert_eq!(pop.get_at(1, 2).value, 7);
    assert_eq!(pop.get_at(2, 0).value, 2);

    // Test next_gen
    assert_eq!(pop.get_generation(), 0);
    pop.next_gen();
    assert_eq!(pop.get_at(0, 0).value, 7);
    assert_eq!(pop.get_at(1, 0).value, 8);
    assert_eq!(pop.get_at(2, 0).value, 9);

    assert_eq!(pop.get_at(0, 1).value, 7);
    assert_eq!(pop.get_at(1, 1).value, 8);
    assert_eq!(pop.get_at(2, 1).value, 9);

    assert_eq!(pop.get_at(0, 2).value, 9);
    assert_eq!(pop.get_at(1, 2).value, 9);
    assert_eq!(pop.get_at(2, 2).value, 9);

    assert_eq!(pop.get_generation(), 1);

    // Test _prepare_pop_lab_data
    let lab_data = pop._prepare_pop_lab_data();
    assert_eq!(lab_data.len(), 9);
    assert_eq!(lab_data[0].data, LabData { l: 7, a: 6, b: 6 });
    assert_eq!(lab_data[1].data, LabData { l: 8, a: 7, b: 7 });
    assert_eq!(lab_data[2].data, LabData { l: 9, a: 8, b: 8 });

    assert_eq!(lab_data[3].data, LabData { l: 7, a: 6, b: 6 });
    assert_eq!(lab_data[4].data, LabData { l: 8, a: 7, b: 7 });
    assert_eq!(lab_data[5].data, LabData { l: 9, a: 8, b: 8 });

    assert_eq!(lab_data[6].data, LabData { l: 9, a: 8, b: 8 });
    assert_eq!(lab_data[7].data, LabData { l: 9, a: 8, b: 8 });
    assert_eq!(lab_data[8].data, LabData { l: 9, a: 8, b: 8 });
}

#[test]
fn test_params_default() {
    let params = PopulationParams::default();
    assert_eq!(params.pop_width, DEFAULT_POP_WIDTH);
    assert_eq!(params.pop_height, DEFAULT_POP_HEIGHT);
    assert_eq!(params.mut_prob, DEFAULT_MUT_PROB);
    assert_eq!(params.mut_amount, DEFAULT_MUT_AMOUNT);
    assert_eq!(params.crossover_prob, DEFAULT_CROSSOVER_PROB);
    assert!(matches!(
        params.selection_strategy,
        SelectionStrategyType::Tournament
    ));
    assert_eq!(DEFAULT_POP_WIDTH, 128);
    assert_eq!(DEFAULT_POP_HEIGHT, 128);
}

#[test]
fn test_generation_counts_up_and_size_is_stable() {
    let params = mock_params(4, 3, DEFAULT_MUT_PROB, DEFAULT_CROSSOVER_PROB,
        SelectionStrategyType::Tournament);
    let mut pop = TestPopulation::new(&params, MockIndividualData {});
    assert_eq!(pop.get_width(), 4);
    assert_eq!(pop.get_height(), 3);
    for round in 0..5 {
        assert_eq!(pop.get_generation(), round);
        pop.next_gen();
        assert_eq!(pop.get_width(), 4);
        assert_eq!(pop.get_height(), 3);
    }
    assert_eq!(pop.get_generation(), 5);
}

#[test]
fn test_crossover_path_is_dual_tournament() {
    // With crossover probability one, every cell is the crossover of the
    // two tournament-best neighbours; the mock crossover averages values.
    let params = mock_params(2, 1, 0, 1_000_000, SelectionStrategyType::Tournament);
    let mut pop = TestPopulation::new(&params, MockIndividualData {});
    let vec_ind = mock_grid(2);
    pop.set_individuals(vec_ind);
    pop.next_gen();
    // Each cell's five candidates are the indices 0 and 1 with
    // repetitions, and in both scans the runner-up slot ends on the fitter
    // index 1 as well, so each child averages value 1 with itself.
    assert_eq!(pop.get_at(0, 0).value, 1);
    assert_eq!(pop.get_at(1, 0).value, 1);
}

#[test]
fn test_roulette_strategy_never_picks_zero_mass() {
    // With two candidate fitness values 0 and 5, roulette mass lies
    // entirely on the fitter one, so the mutation path always copies it.
    let params = mock_params(2, 1, 1_000_000, 0, SelectionStrategyType::Roulette);
    let mut pop = TestPopulation::new(&params, MockIndividualData {});
    pop.set_individuals(vec![
        MockIndividual { fitness: 0, visuals: (0, 0), value: 0 },
        MockIndividual { fitness: 5, visuals: (0, 0), value: 5 },
    ]);
    pop.next_gen();
    // Both cells select the value-5 parent and the mock mutation adds one.
    assert_eq!(pop.get_at(0, 0).value, 6);
    assert_eq!(pop.get_at(1, 0).value, 6);
}

#[test]
fn test_roulette_pick_walks_cumulative_mass() {
    let mut vec_ind = Vec::new();
    for f in [0i64, 5, 10] {
        vec_ind.push(MockIndividual { fitness: f, visuals: (0, 0), value: 0 });
    }
    let indices = vec![0usize, 1, 2];
    // Shifted masses are [0, 5, 10]; total 15.
    assert_eq!(TestPopulation::_roulette_pick(&indices, &vec_ind, 0), 1);
    assert_eq!(TestPopulation::_roulette_pick(&indices, &vec_ind, 4), 1);
    assert_eq!(TestPopulation::_roulette_pick(&indices, &vec_ind, 5), 2);
    assert_eq!(TestPopulation::_roulette_pick(&indices, &vec_ind, 14), 2);
}

#[test]
fn test_roulette_selection_stays_in_candidate_set() {
    let mut rng = SmallRng::from_entropy();
    let vec_ind = mock_grid(6);
    let indices = vec![2usize, 4, 5];
    for _ in 0..50 {
        let res = TestPopulation::_roulette_selection(&mut rng, &indices, &vec_ind);
        assert!(indices.contains(&res));
        // Candidate 2 is the strict minimum of the set: zero mass.
        assert_ne!(res, 2);
    }
}

#[test]
fn test_dual_rulette_picks_two_distinct() {
    let mut rng = SmallRng::from_entropy();
    let vec_ind = mock_grid(6);
    let indices = vec![0usize, 3, 2, 1];
    for _ in 0..50 {
        let (first, second) = TestPopulation::_dual_rulette(&mut rng, &indices, &vec_ind);
        assert!(indices.contains(&first));
        assert!(indices.contains(&second));
        assert_ne!(first, second);
    }
}

#[test]
fn test_get_best_is_idempotent() {
    let params = mock_params(3, 2, DEFAULT_MUT_PROB, DEFAULT_CROSSOVER_PROB,
        SelectionStrategyType::Tournament);
    let mut pop = TestPopulation::new(&params, MockIndividualData {});
    pop.set_individuals(mock_grid(6));
    let first = pop.get_best().value;
    let second = pop.get_best().value;
    assert_eq!(first, second);
    assert_eq!(first, 5);
}

#[test]
fn test_get_best_first_max_wins() {
    let params = mock_params(2, 2, DEFAULT_MUT_PROB, DEFAULT_CROSSOVER_PROB,
        SelectionStrategyType::Tournament);
    let mut pop = TestPopulation::new(&params, MockIndividualData {});
    pop.set_individuals(vec![
        MockIndividual { fitness: 3, visuals: (10, 0), value: 3 },
        MockIndividual { fitness: 7, visuals: (11, 0), value: 7 },
        MockIndividual { fitness: 7, visuals: (12, 0), value: 7 },
        MockIndividual { fitness: 1, visuals: (13, 0), value: 1 },
    ]);
    // Two individuals share the top fitness; the first-seen one wins.
    assert_eq!(pop.get_best().visuals.0, 11);
}
