use revo::population::{
    Population, PopulationParams, SelectionStrategyType, LAB_AB_MAX, LAB_AB_MIN, LAB_L_MAX,
    LAB_L_MIN,
};
use revo::testing::{MockIndividual, MockIndividualData};
use revo::utils::{IndexedLabData, LabChannel};

type TestPopulation = Population<MockIndividual, MockIndividualData>;

fn records(values: &[i64]) -> Vec<IndexedLabData> {
    let mut data = Vec::new();
    for (i, v) in values.iter().enumerate() {
        data.push(IndexedLabData::new(*v, 0, 0, i));
    }
    data
}

#[test]
fn test_normalize_component_ranks_and_ties() {
    // Values [5, 5, 7]: the tied pair collapses onto the range start; the
    // distinct value lands at rank 2 of 2, the end of the range.
    let mut data = records(&[5, 5, 7]);
    TestPopulation::_normalize_component(&mut data, LabChannel::L, 10_000, 90_000);
    assert_eq!(data[0].data.l, 10_000);
    assert_eq!(data[1].data.l, 10_000);
    assert_eq!(data[2].data.l, 90_000);
    // The other channels and the indices stay alone.
    assert_eq!(data[0].data.a, 0);
    assert_eq!(data[2].data.b, 0);
    assert_eq!(data[2].index, 2);
}

#[test]
fn test_normalize_component_is_order_preserving() {
    let values = [40i64, -3, 40, 17, 99, -3];
    let mut data = records(&values);
    TestPopulation::_normalize_component(&mut data, LabChannel::L, 0, 1_000);
    for i in 0..values.len() {
        for j in 0..values.len() {
            if values[i] == values[j] {
                assert_eq!(data[i].data.l, data[j].data.l);
            }
            if values[i] < values[j] {
                assert!(data[i].data.l < data[j].data.l);
            }
        }
    }
}

#[test]
fn test_normalize_component_degenerate_inputs() {
    // All equal: every record collapses onto the start of the range.
    let mut data = records(&[4, 4, 4, 4]);
    TestPopulation::_normalize_component(&mut data, LabChannel::L, 10_000, 90_000);
    for rec in &data {
        assert_eq!(rec.data.l, 10_000);
    }
    // A single record maps to the start of the range.
    let mut one = records(&[123]);
    TestPopulation::_normalize_component(&mut one, LabChannel::L, -500, 500);
    assert_eq!(one[0].data.l, -500);
    // An empty input stays empty.
    let mut empty = records(&[]);
    TestPopulation::_normalize_component(&mut empty, LabChannel::L, 0, 1);
    assert_eq!(empty.len(), 0);
}

#[test]
fn test_normalize_lab_data_rank_based_all_channels() {
    let mut data = Vec::new();
    data.push(IndexedLabData::new(1, 3, 10, 0));
    data.push(IndexedLabData::new(2, 1, 10, 1));
    let out = TestPopulation::_normalize_lab_data_rank_based(data);
    assert_eq!(out.len(), 2);
    // Lightness: ranks 0 and 1 of denominator 1.
    assert_eq!(out[0].data.l, LAB_L_MIN);
    assert_eq!(out[1].data.l, LAB_L_MAX);
    // First visual: 3 outranks 1.
    assert_eq!(out[0].data.a, LAB_AB_MAX);
    assert_eq!(out[1].data.a, LAB_AB_MIN);
    // Second visual: a tie collapses onto the range start.
    assert_eq!(out[0].data.b, LAB_AB_MIN);
    assert_eq!(out[1].data.b, LAB_AB_MIN);
}

#[test]
fn test_visualise_raster() {
    let params = PopulationParams {
        pop_width: 2,
        pop_height: 1,
        mut_prob: 0,
        mut_amount: 1,
        crossover_prob: 0,
        selection_strategy: SelectionStrategyType::Tournament,
    };
    let mut pop = TestPopulation::new(&params, MockIndividualData {});
    pop.set_individuals(vec![
        MockIndividual { fitness: 1, visuals: (3, 4), value: 1 },
        MockIndividual { fitness: 2, visuals: (1, 2), value: 2 },
    ]);
    let raster = pop.visualise();
    assert_eq!(raster.len(), 2);
    assert_eq!(raster[0].index, 0);
    assert_eq!(raster[1].index, 1);
    assert_eq!(raster[0].data.l, LAB_L_MIN);
    assert_eq!(raster[1].data.l, LAB_L_MAX);
    assert_eq!(raster[0].data.a, LAB_AB_MAX);
    assert_eq!(raster[1].data.a, LAB_AB_MIN);
    assert_eq!(raster[0].data.b, LAB_AB_MAX);
    assert_eq!(raster[1].data.b, LAB_AB_MIN);
}
