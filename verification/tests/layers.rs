use pixel_pal::error::ConfigError;
use pixel_pal::layers::LayerTable;

fn halves() -> LayerTable {
    LayerTable::new(vec![0, 500, 1000, 1500, 2000]).unwrap()
}

#[test]
fn sample_on_a_bound_belongs_to_the_layer_that_starts_there() {
    let table = halves();
    assert_eq!(table.classify(500), 1);
    assert_eq!(table.classify(499), 0);
    assert_eq!(table.classify(1000), 2);
    assert_eq!(table.classify(1500), 3);
}

#[test]
fn sample_on_the_ceiling_falls_into_the_last_layer() {
    let table = halves();
    assert_eq!(table.classify(2000), 3);
    assert_eq!(table.classify(1999), 3);
    assert_eq!(table.classify(u32::MAX), 3);
}

#[test]
fn sample_on_the_floor_is_level_zero() {
    let table = halves();
    assert_eq!(table.classify(0), 0);
}

#[test]
fn sample_below_the_first_bound_falls_into_the_last_layer() {
    let table = LayerTable::new(vec![100, 200, 300]).unwrap();
    assert_eq!(table.classify(99), 1);
    assert_eq!(table.classify(100), 0);
    assert_eq!(table.classify(200), 1);
    assert_eq!(table.classify(300), 1);
}

#[test]
fn table_has_one_level_per_pair_of_bounds() {
    assert_eq!(halves().level_count(), 4);
    assert_eq!(LayerTable::new(vec![0, 1]).unwrap().level_count(), 1);
    let wide = LayerTable::new(vec![0, 300_000, 600_000, 650_000, 1_200_000, 1_600_000, 2_000_000])
        .unwrap();
    assert_eq!(wide.level_count(), 6);
}

#[test]
fn table_with_one_bound_is_rejected() {
    assert_eq!(LayerTable::new(vec![]).err(), Some(ConfigError::TooFewThresholds));
    assert_eq!(LayerTable::new(vec![7]).err(), Some(ConfigError::TooFewThresholds));
}

#[test]
fn table_that_does_not_ascend_is_rejected() {
    assert_eq!(LayerTable::new(vec![0, 500, 500]).err(), Some(ConfigError::ThresholdsNotAscending));
    assert_eq!(LayerTable::new(vec![0, 900, 800, 1000]).err(), Some(ConfigError::ThresholdsNotAscending));
    assert_eq!(LayerTable::new(vec![5, 4]).err(), Some(ConfigError::ThresholdsNotAscending));
}

#[test]
fn every_sample_of_a_layer_gets_its_index() {
    let table = LayerTable::new(vec![0, 800, 900, 1100, 1250, 1400, 1600, 1800, 2000]).unwrap();
    let expected = [(0, 0), (799, 0), (800, 1), (899, 1), (900, 2), (1099, 2), (1100, 3), (1250, 4),
        (1400, 5), (1600, 6), (1799, 6), (1800, 7), (2000, 7)];
    for (sample, level) in expected {
        assert_eq!(table.classify(sample), level);
    }
}
