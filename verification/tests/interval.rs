use vanrijn::util::Interval;

#[test]
fn never_constructed_empty() {
    let target1 = Interval::new(5i64, 10i64);
    assert!(!target1.is_empty());
    let target2 = Interval::new(10i64, 5i64);
    assert!(!target2.is_empty());
    let target1 = Interval::new(5i64, -10i64);
    assert!(!target1.is_empty());
    let target2 = Interval::new(10i64, -5i64);
    assert!(!target2.is_empty());
    let target1 = Interval::new(-5i64, 10i64);
    assert!(!target1.is_empty());
    let target2 = Interval::new(-10i64, 5i64);
    assert!(!target2.is_empty());
    let target1 = Interval::new(-5i64, -10i64);
    assert!(!target1.is_empty());
    let target2 = Interval::new(-10i64, -5i64);
    assert!(!target2.is_empty());
}

#[test]
fn empty_is_empty() {
    let target: Interval<i64> = Interval::empty();
    assert!(target.is_empty());
}

#[test]
fn empty_when_min_greater_than_max() {
    let target = Interval { min: 10i64, max: 5i64 };
    assert!(target.is_empty());
}

#[test]
fn empty_when_min_greater_than_max_with_negative_values() {
    let target = Interval { min: -5i64, max: -10i64 };
    assert!(target.is_empty());
}

#[test]
fn empty_when_min_greater_than_max_with_mixed_signs() {
    let target = Interval { min: 5i64, max: -10i64 };
    assert!(target.is_empty());
}

#[test]
fn empty_is_not_degenerate() {
    let target = Interval { min: 10i64, max: 5i64 };
    assert!(!target.is_degenerate());
}

#[test]
fn empty_is_not_degenerate_with_negative_values() {
    let target = Interval { min: -5i64, max: -10i64 };
    assert!(!target.is_degenerate());
}

#[test]
fn empty_is_not_degenerate_with_mixed_signs() {
    let target = Interval { min: -5i64, max: 10i64 };
    assert!(!target.is_degenerate());
}

#[test]
fn no_value_is_in_interval_returned_by_emtpy() {
    for &value in &[i64::MIN, -1000, -1, 0, 1, 5, 1000, i64::MAX] {
        assert!(!Interval::empty().contains_value(value));
    }
}

#[test]
fn identical_min_max_yields_degenerate() {
    let target = Interval { min: 5i64, max: 5i64 };
    assert!(target.is_degenerate());
}

#[test]
fn degenerate_is_degenerate() {
    let target = Interval::degenerate(5i64);
    assert!(target.is_degenerate());
}

#[test]
fn degenerate_is_not_empty() {
    let target = Interval { min: 5i64, max: 5i64 };
    assert!(target.is_degenerate());
}

#[test]
fn degenerate_is_degenerate_with_negative_value() {
    let target = Interval { min: -5i64, max: -5i64 };
    assert!(target.is_degenerate());
}

#[test]
fn degenerate_is_not_empty_with_negative_value() {
    let target = Interval { min: -5i64, max: -5i64 };
    assert!(target.is_degenerate());
}

#[test]
fn degenerate_contains_expected_value() {
    let target = Interval::degenerate(5i64);
    assert!(target.contains_value(5));
}

#[test]
fn degenerate_does_not_contain_any_values_othter_than_expected_value() {
    for &value in &[i64::MIN, -5, 0, 4, 5, 6, 1000, i64::MAX] {
        let target_value = if value == 5 { 6 } else { 5 };
        let target = Interval::degenerate(target_value);
        assert!(!target.contains_value(value));
    }
}

#[test]
fn intersection_with_infinite_is_self() {
    let target = Interval::new(5i32, 10i32);
    let result = target.intersection(Interval::infinite());
    assert!(target.min == result.min);
    assert!(target.max == result.max);
}

#[test]
fn union_with_self_yields_self() {
    for &(a, b) in &[(1i64, 2i64), (2, 1), (-7, 7), (3, 3), (i64::MIN, i64::MAX)] {
        let target = Interval::new(a, b);
        let result = target.union(target);
        assert!(result.min == target.min && result.max == target.max);
    }
}

#[test]
fn union_yields_min_and_max() {
    for &(a, b, c, d) in &[
        (1i64, 2i64, 3i64, 4i64),
        (4, 3, 2, 1),
        (-5, 10, 0, 3),
        (0, 0, 0, 0),
        (7, -7, 100, -100),
    ] {
        let values = [a, b, c, d];
        let min = *values.iter().min().unwrap();
        let max = *values.iter().max().unwrap();
        let target1 = Interval::new(a, b);
        let target2 = Interval::new(c, d);
        let result = target1.union(target2);
        assert!(result.min == min && result.max == max);
    }
}

#[test]
fn union_with_empty_interval_is_correct() {
    let empty = Interval { min: 1i64, max: -1i64 };
    let not_empty = Interval { min: 5i64, max: 10i64 };
    let union1 = not_empty.union(empty);
    assert!(union1.min == 5);
    assert!(union1.max == 10);
    let union2 = empty.union(not_empty);
    assert!(union2.min == 5);
    assert!(union2.max == 10);
}

#[test]
fn union_with_empty_interval_is_correct_when_empty_interval_produced_by_intersection() {
    let empty = Interval { min: 1i64, max: -1i64 };
    let not_empty = Interval { min: 5i64, max: 10i64 };
    let union1 = not_empty.union(empty);
    assert!(union1.min == 5);
    assert!(union1.max == 10);
    let union2 = empty.union(not_empty);
    assert!(union2.min == 5);
    assert!(union2.max == 10);
}

#[test]
fn expand_to_value_creates_interval_that_includes_value() {
    for &(min, max, value) in &[(0i64, 10i64, 5i64), (0, 10, 20), (0, 10, -20), (10, 0, 3), (5, 5, 5)] {
        let interval1 = Interval { min, max };
        let interval2 = interval1.expand_to_value(value);
        assert!(interval2.contains_value(value));
    }
}

#[test]
fn expand_to_value_creates_interval_that_includes_the_interval() {
    for &(b, a, value) in &[(0i64, 10i64, 5i64), (0, 10, 20), (10, 0, -20), (3, 3, 3), (-4, 4, 100)] {
        let interval1 = Interval::new(a, b);
        let interval2 = interval1.expand_to_value(value);
        let interval3 = interval2.intersection(interval1);
        assert!(interval1.min == interval3.min && interval1.max == interval3.max);
    }
}

#[test]
fn expand_empty_interval_gives_degenerate_interval() {
    let target: Interval<i64> = Interval::empty();
    let result = target.expand_to_value(-3);
    assert!(result.is_degenerate());
    assert_eq!(result.get_min(), -3);
    assert_eq!(result.get_max(), -3);
}

#[test]
fn intersection_of_disjoint_intervals_is_empty() {
    let result = Interval::new(0i64, 3).intersection(Interval::new(5, 9));
    assert!(result.is_empty());
    assert_eq!(result.get_min(), 5);
    assert_eq!(result.get_max(), 3);
}

#[test]
fn new_orders_its_ends() {
    let target = Interval::new(9i64, -2i64);
    assert_eq!(target.get_min(), -2);
    assert_eq!(target.get_max(), 9);
    assert!(target.contains_value(0));
    assert!(!target.contains_value(10));
}

#[test]
fn infinite_contains_extremes() {
    let target: Interval<i32> = Interval::infinite();
    assert!(target.contains_value(i32::MIN));
    assert!(target.contains_value(i32::MAX));
    assert!(!target.is_empty());
}
