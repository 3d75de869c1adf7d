use revo::utils::{Coord, IndexedLabData, LabChannel, LabData};

#[test]
fn test_distance_euclid() {
    let first = Coord { x: 0, y: 0 };
    let second = Coord { x: 3, y: 4 };
    assert_eq!(Coord::distance_euclid(&first, &second), 25);
}

#[test]
fn test_distance_manhattan() {
    let first = Coord { x: 0, y: 0 };
    let second = Coord { x: 3, y: 4 };
    assert_eq!(Coord::distance_manhattan(&first, &second), 7);
}

#[test]
fn test_distances_with_negative_coordinates() {
    let first = Coord { x: -2, y: 1 };
    let second = Coord { x: 1, y: -3 };
    assert_eq!(Coord::distance_euclid(&first, &second), 25);
    assert_eq!(Coord::distance_manhattan(&first, &second), 7);
    assert_eq!(Coord::distance_euclid(&first, &first), 0);
    assert_eq!(Coord::distance_manhattan(&first, &first), 0);
}

#[test]
fn test_indexed_lab_data_new() {
    let rec = IndexedLabData::new(1, -2, 3, 7);
    assert_eq!(rec.index, 7);
    assert_eq!(rec.data, LabData { l: 1, a: -2, b: 3 });
    assert!(matches!(LabChannel::L, LabChannel::L));
}
