use vanrijn::raycasting::{BoundingVolumeHierarchy, HasBoundingBox};
use vanrijn::util::BoundingBox;

fn cube(x: i64, y: i64, z: i64, size: i64) -> BoundingBox<i64> {
    BoundingBox::from_corners([x, y, z], [x + size, y + size, z + size])
}

fn leaf_count(tree: &BoundingVolumeHierarchy<i64, BoundingBox<i64>>) -> usize {
    match tree {
        BoundingVolumeHierarchy::Node { left, right, .. } => leaf_count(left) + leaf_count(right),
        BoundingVolumeHierarchy::Leaf { .. } => 1,
    }
}

fn collect_minima(tree: &BoundingVolumeHierarchy<i64, BoundingBox<i64>>, out: &mut Vec<i64>) {
    match tree {
        BoundingVolumeHierarchy::Node { left, right, .. } => {
            collect_minima(left, out);
            collect_minima(right, out);
        }
        BoundingVolumeHierarchy::Leaf { primitives, .. } => {
            for p in primitives {
                out.push(p.bounds[0].get_min());
            }
        }
    }
}

fn root_bounds(tree: &BoundingVolumeHierarchy<i64, BoundingBox<i64>>) -> BoundingBox<i64> {
    match tree {
        BoundingVolumeHierarchy::Node { bounds, .. } => *bounds,
        BoundingVolumeHierarchy::Leaf { bounds, .. } => *bounds,
    }
}

#[test]
fn no_primitives_give_an_empty_leaf() {
    let mut primitives: Vec<BoundingBox<i64>> = vec![];
    let tree = BoundingVolumeHierarchy::build(&mut primitives);
    match tree {
        BoundingVolumeHierarchy::Leaf { bounds, primitives } => {
            assert!(primitives.is_empty());
            assert!(bounds.bounds.iter().all(|interval| interval.is_empty()));
        }
        BoundingVolumeHierarchy::Node { .. } => panic!("expected a leaf"),
    }
}

#[test]
fn one_primitive_gives_a_leaf_with_its_box() {
    let mut primitives = vec![cube(1, 2, 3, 4)];
    let tree = BoundingVolumeHierarchy::build(&mut primitives);
    match tree {
        BoundingVolumeHierarchy::Leaf { bounds, primitives } => {
            assert_eq!(primitives.len(), 1);
            assert_eq!(bounds.bounds[0].get_min(), 1);
            assert_eq!(bounds.bounds[0].get_max(), 5);
            assert_eq!(bounds.bounds[2].get_min(), 3);
            assert_eq!(bounds.bounds[2].get_max(), 7);
        }
        BoundingVolumeHierarchy::Node { .. } => panic!("expected a leaf"),
    }
}

#[test]
fn root_box_covers_every_primitive() {
    let mut primitives = vec![
        cube(10, 0, 0, 1),
        cube(-4, 3, 0, 2),
        cube(0, -7, 5, 1),
        cube(2, 2, -9, 3),
        cube(6, 1, 1, 1),
    ];
    let tree = BoundingVolumeHierarchy::build(&mut primitives);
    let bounds = root_bounds(&tree);
    assert_eq!(bounds.bounds[0].get_min(), -4);
    assert_eq!(bounds.bounds[0].get_max(), 11);
    assert_eq!(bounds.bounds[1].get_min(), -7);
    assert_eq!(bounds.bounds[1].get_max(), 5);
    assert_eq!(bounds.bounds[2].get_min(), -9);
    assert_eq!(bounds.bounds[2].get_max(), 6);
    assert_eq!(leaf_count(&tree), 5);
}

#[test]
fn primitives_are_split_by_centre_along_the_widest_axis() {
    let mut primitives = vec![
        cube(30, 0, 0, 1),
        cube(0, 0, 0, 1),
        cube(20, 0, 0, 1),
        cube(10, 0, 0, 1),
    ];
    let tree = BoundingVolumeHierarchy::build(&mut primitives);
    let mut minima = Vec::new();
    collect_minima(&tree, &mut minima);
    assert_eq!(minima, vec![0, 10, 20, 30]);
    let reordered: Vec<i64> = primitives.iter().map(|p| p.bounds[0].get_min()).collect();
    assert_eq!(reordered, minima);
    match tree {
        BoundingVolumeHierarchy::Node { left, right, .. } => {
            assert_eq!(leaf_count(&left), 2);
            assert_eq!(leaf_count(&right), 2);
            assert_eq!(root_bounds(&left).bounds[0].get_max(), 11);
            assert_eq!(root_bounds(&right).bounds[0].get_min(), 20);
        }
        BoundingVolumeHierarchy::Leaf { .. } => panic!("expected a node"),
    }
}

#[test]
fn odd_count_puts_the_smaller_half_on_the_left() {
    let mut primitives = vec![cube(0, 40, 0, 1), cube(0, 0, 0, 1), cube(0, 20, 0, 1)];
    let tree = BoundingVolumeHierarchy::build(&mut primitives);
    assert_eq!(primitives[0].bounds[1].get_min(), 0);
    match tree {
        BoundingVolumeHierarchy::Node { left, right, .. } => {
            assert_eq!(leaf_count(&left), 1);
            assert_eq!(leaf_count(&right), 2);
            assert_eq!(root_bounds(&left).bounds[1].get_min(), 0);
        }
        BoundingVolumeHierarchy::Leaf { .. } => panic!("expected a node"),
    }
}

#[test]
fn primitives_are_left_in_leaf_order() {
    let mut primitives = vec![
        cube(5, 50, 0, 1),
        cube(1, 10, 0, 1),
        cube(4, 40, 0, 1),
        cube(2, 20, 0, 1),
        cube(3, 30, 0, 1),
    ];
    let tree = BoundingVolumeHierarchy::build(&mut primitives);
    let mut minima = Vec::new();
    collect_minima(&tree, &mut minima);
    let reordered: Vec<i64> = primitives.iter().map(|p| p.bounds[0].get_min()).collect();
    assert_eq!(reordered, minima);
    let mut sorted = minima.clone();
    sorted.sort();
    assert_eq!(sorted, vec![1, 2, 3, 4, 5]);
    assert_eq!(leaf_count(&tree), 5);
}

#[test]
fn hierarchy_box_is_its_root_box() {
    let mut primitives = vec![cube(0, 0, 0, 2), cube(10, -3, 4, 1)];
    let tree = BoundingVolumeHierarchy::build(&mut primitives);
    let bounds = tree.bounding_box();
    assert_eq!(bounds.bounds[0].get_min(), 0);
    assert_eq!(bounds.bounds[0].get_max(), 11);
    assert_eq!(bounds.bounds[1].get_min(), -3);
    assert_eq!(bounds.bounds[2].get_max(), 5);
}
