use chart_trends::error::TrendError;
use chart_trends::extrema::{peaks, valleys, Extremum};

fn at(value: i64, index: usize) -> Extremum {
    Extremum { value, index }
}

#[test]
fn peaks_of_a_zigzag() {
    let prices = vec![1, 3, 1, 4, 1, 5, 1];
    let found = peaks(&prices, 1, 0).unwrap();
    assert_eq!(found, vec![at(3, 1), at(4, 3), at(5, 5)]);
}

#[test]
fn peaks_pruned_to_the_highest() {
    let prices = vec![1, 3, 1, 4, 1, 5, 1];
    let found = peaks(&prices, 1, 3).unwrap();
    assert_eq!(found, vec![at(5, 5)]);
}

#[test]
fn valleys_of_a_zigzag() {
    let prices = vec![9, 3, 9, 2, 9, 1, 9];
    assert_eq!(valleys(&prices, 1, 0).unwrap(), vec![at(3, 1), at(2, 3), at(1, 5)]);
    assert_eq!(valleys(&prices, 1, 3).unwrap(), vec![at(1, 5)]);
}

#[test]
fn distance_one_merges_nothing() {
    let prices = vec![1, 3, 3, 1, 4, 1];
    let none = peaks(&prices, 1, 0).unwrap();
    let one = peaks(&prices, 1, 1).unwrap();
    assert_eq!(none, vec![at(3, 1), at(3, 2), at(4, 4)]);
    assert_eq!(one, none);
}

#[test]
fn tie_keeps_the_earlier() {
    let prices = vec![1, 3, 3, 1, 4, 1];
    assert_eq!(peaks(&prices, 1, 2).unwrap(), vec![at(3, 1), at(4, 4)]);
}

#[test]
fn lower_neighbour_is_dropped() {
    let prices = vec![0, 9, 0, 5, 0, 7, 0];
    // 5 is within 3 of 9 and lower; 7 is 4 away from 9 and stays.
    assert_eq!(peaks(&prices, 1, 3).unwrap(), vec![at(9, 1), at(7, 5)]);
}

#[test]
fn greater_distance_never_reports_more() {
    let prices = vec![5, 9, 2, 8, 3, 7, 1, 9, 4, 6, 2, 8, 3, 3, 9, 1, 2, 1, 5, 0];
    let mut before = peaks(&prices, 1, 0).unwrap().len();
    for distance in 1..25 {
        let now = peaks(&prices, 1, distance).unwrap().len();
        assert!(now <= before);
        before = now;
    }
    let mut before = valleys(&prices, 1, 0).unwrap().len();
    for distance in 1..25 {
        let now = valleys(&prices, 1, distance).unwrap().len();
        assert!(now <= before);
        before = now;
    }
}

#[test]
fn reported_extrema_keep_their_distance() {
    let prices = vec![5, 9, 2, 8, 3, 7, 1, 9, 4, 6, 2, 8, 3, 3, 9, 1, 2, 1, 5, 0];
    for distance in 0..8 {
        let found = peaks(&prices, 1, distance).unwrap();
        for pair in found.windows(2) {
            assert!(pair[1].index - pair[0].index >= distance);
            assert!(pair[0].index < pair[1].index);
        }
        for e in &found {
            assert_eq!(prices[e.index], e.value);
        }
    }
}

#[test]
fn wider_window_needs_both_sides() {
    let prices = vec![1, 2, 9, 2, 1, 8, 1];
    // Index 2 has two neighbours on each side; index 5 has only one after it.
    assert_eq!(peaks(&prices, 2, 0).unwrap(), vec![at(9, 2)]);
}

#[test]
fn short_series_has_no_extrema() {
    assert_eq!(peaks(&[], 1, 0).unwrap(), vec![]);
    assert_eq!(peaks(&[4], 1, 0).unwrap(), vec![]);
    assert_eq!(peaks(&[4, 5], 1, 0).unwrap(), vec![]);
    assert_eq!(valleys(&[4, 5, 6], 3, 0).unwrap(), vec![]);
    assert_eq!(peaks(&[1, 2, 1], usize::MAX, 0).unwrap(), vec![]);
}

#[test]
fn zero_period_is_refused() {
    assert_eq!(peaks(&[1, 2, 1], 0, 0), Err(TrendError::InvalidInput));
    assert_eq!(valleys(&[1, 2, 1], 0, 3), Err(TrendError::InvalidInput));
}

#[test]
fn plateau_points_are_all_extrema() {
    let prices = vec![5, 5, 5, 5];
    assert_eq!(peaks(&prices, 1, 0).unwrap(), vec![at(5, 1), at(5, 2)]);
    assert_eq!(valleys(&prices, 1, 0).unwrap(), vec![at(5, 1), at(5, 2)]);
}
