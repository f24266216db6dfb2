use vanrijn::util::{BoundingBox, Interval};

#[test]
fn from_corners_with_same_point_yields_degenerate_intervals() {
    let test_point = [0i64, 1i64, 2i64];
    let target = BoundingBox::from_corners(test_point, test_point);
    assert!(target.bounds.iter().all(|e| e.is_degenerate()));
}

#[test]
fn from_corners_yields_same_result_with_any_oposite_corners() {
    let corner_000 = [0i64, 0, 0];
    let corner_001 = [0i64, 0, 1];
    let corner_010 = [0i64, 1, 0];
    let corner_011 = [0i64, 1, 1];
    let corner_100 = [1i64, 0, 0];
    let corner_101 = [1i64, 0, 1];
    let corner_110 = [1i64, 1, 0];
    let corner_111 = [1i64, 1, 1];

    let test_inputs: Vec<([i64; 3], [i64; 3])> = vec![
        (corner_000, corner_111),
        (corner_001, corner_110),
        (corner_010, corner_101),
        (corner_011, corner_100),
        (corner_100, corner_011),
        (corner_101, corner_010),
        (corner_110, corner_001),
        (corner_111, corner_000),
    ];
    for (a, b) in test_inputs {
        let target = BoundingBox::from_corners(a, b);
        assert!(target
            .bounds
            .iter()
            .all(|bounds| bounds.get_min() == 0 && bounds.get_max() == 1));
    }
}

#[test]
fn box_union_with_self_yields_self() {
    for &(a, b) in &[([0i64, 5, -3], [2i64, -5, 8]), ([1, 1, 1], [1, 1, 1])] {
        let target = BoundingBox::from_corners(a, b);
        let result = target.union(&target);
        assert!(target
            .bounds
            .iter()
            .zip(result.bounds.iter())
            .all(|(a, b)| a.get_min() == b.get_min() && a.get_max() == b.get_max()));
    }
}

#[test]
fn union_yields_full_ranges() {
    let target1 = BoundingBox::from_corners([0i64, 10, -4], [3, 7, -1]);
    let target2 = BoundingBox::from_corners([-2i64, 8, 5], [1, 20, 6]);
    let result = target1.union(&target2);
    assert!(result
        .bounds
        .iter()
        .zip(target1.bounds.iter().zip(target2.bounds.iter()))
        .all(|(r, (t1, t2))| {
            r.get_min() <= t1.get_min()
                && r.get_min() <= t2.get_min()
                && r.get_max() >= t1.get_max()
                && r.get_max() >= t2.get_max()
        }));
}

#[test]
fn empty_box_contains_no_points() {
    for &p in &[[0i64, 0, 0], [i64::MIN, i64::MAX, 0], [i64::MAX, i64::MAX, i64::MAX]] {
        let target: BoundingBox<i64> = BoundingBox::empty();
        assert!(!target.contains_point(p));
    }
}

fn bounded_by(points: &[[i64; 3]], p: [i64; 3]) -> bool {
    (0..3).all(|d| points.iter().any(|e| e[d] >= p[d]) && points.iter().any(|e| e[d] <= p[d]))
}

#[test]
fn from_points_produces_box_that_contains_only_points_bounded_by_inputs_on_all_axes() {
    let points = vec![[0i64, 0, 0], [4, -2, 1], [-3, 5, 2], [1, 1, -6], [2, 3, 4]];
    let target = BoundingBox::from_points(&points);
    for x in -5..6 {
        for y in -4..7 {
            for z in -7..6 {
                let p = [x, y, z];
                assert_eq!(target.contains_point(p), bounded_by(&points, p));
            }
        }
    }
}

#[test]
fn from_points_of_no_points_is_empty() {
    let target: BoundingBox<i64> = BoundingBox::from_points(&[]);
    assert!(target.bounds.iter().all(|e| e.is_empty()));
}

#[test]
fn no_dimension_is_larger_than_largest_dimension() {
    let cases: [[(i64, i64); 3]; 8] = [
        [(3, 1), (2, 2), (3, 1)],
        [(3, 1), (3, 1), (7, 7)],
        [(0, 1), (0, 5), (2, 4)],
        [(0, 9), (0, 5), (2, 4)],
        [(0, 1), (0, 5), (-20, 4)],
        [(3, 1), (0, 5), (2, 4)],
        [(3, 1), (6, 5), (2, 1)],
        [(0, 4), (1, 5), (2, 6)],
    ];
    for case in cases.iter() {
        let target = BoundingBox {
            bounds: [
                if case[0].0 > case[0].1 { Interval::empty() } else { Interval::new(case[0].0, case[0].1) },
                if case[1].0 > case[1].1 { Interval::empty() } else { Interval::new(case[1].0, case[1].1) },
                if case[2].0 > case[2].1 { Interval::empty() } else { Interval::new(case[2].0, case[2].1) },
            ],
        };
        let largest_dimension = target.largest_dimension();
        let largest_bounds = target.bounds[largest_dimension];
        if largest_bounds.is_empty() {
            assert!(target.bounds.iter().all(|elem| elem.is_empty()));
        } else {
            let largest_size = largest_bounds.get_max() - largest_bounds.get_min();
            assert!(target
                .bounds
                .iter()
                .all(|elem| elem.is_empty() || !(largest_size < elem.get_max() - elem.get_min())));
        }
    }
}

#[test]
fn largest_dimension_takes_first_of_equal_widths() {
    let target = BoundingBox::from_corners([0i64, 0, 0], [2, 5, 5]);
    assert_eq!(target.largest_dimension(), 1);
}

#[test]
fn largest_dimension_ignores_degenerate_axes() {
    let target = BoundingBox::from_corners([0i64, 0, 0], [0, 0, 0]);
    assert_eq!(target.largest_dimension(), 0);
    let target = BoundingBox::from_corners([0i64, 0, 3], [0, 0, 4]);
    assert_eq!(target.largest_dimension(), 2);
}

#[test]
fn largest_dimension_picks_a_non_empty_axis_when_no_axis_is_wider_than_a_point() {
    let target = BoundingBox {
        bounds: [Interval::empty(), Interval::degenerate(4i64), Interval::empty()],
    };
    assert_eq!(target.largest_dimension(), 1);
    let target = BoundingBox {
        bounds: [Interval::empty(), Interval::empty(), Interval::degenerate(-2i64)],
    };
    assert_eq!(target.largest_dimension(), 2);
    let target: BoundingBox<i64> = BoundingBox::empty();
    assert_eq!(target.largest_dimension(), 0);
}

#[test]
fn expand_to_point_and_from_point() {
    let target = BoundingBox::from_point([1i64, 2, 3]);
    assert!(target.contains_point([1, 2, 3]));
    assert!(!target.contains_point([1, 2, 4]));
    let target = target.expand_to_point(&[-1, 5, 3]);
    assert!(target.contains_point([0, 4, 3]));
    assert_eq!(target.bounds[0].get_min(), -1);
    assert_eq!(target.bounds[1].get_max(), 5);
}

#[test]
fn works_over_i32_too() {
    let target = BoundingBox::from_corners([i32::MIN, 0, 0], [i32::MAX, 1, 1]);
    assert_eq!(target.largest_dimension(), 0);
}
