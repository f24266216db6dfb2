use vanrijn::util::{Tile, TileIterator};

fn all_tiles(width: usize, height: usize, tile_size: usize) -> Vec<Tile> {
    let mut target = TileIterator::new(width, height, tile_size);
    let mut tiles = Vec::new();
    while let Some(tile) = target.next() {
        tiles.push(tile);
    }
    tiles
}

#[test]
fn iterator_has_correct_number_of_tiles_when_dimensions_are_multiple_of_tile_size() {
    let target = TileIterator::new(20, 15, 5);
    assert!(target.count() == 12);
}

#[test]
fn iterator_has_correct_number_of_tiles_when_width_is_one_under_multiple_of_tile_size() {
    let target = TileIterator::new(19, 15, 5);
    assert!(target.count() == 12);
}

#[test]
fn iterator_has_correct_number_of_tiles_when_width_is_one_over_multiple_of_tile_size() {
    let target = TileIterator::new(21, 15, 5);
    assert!(target.count() == 15);
}

#[test]
fn iterator_has_correct_number_of_tiles_when_height_is_one_under_multiple_of_tile_size() {
    let target = TileIterator::new(20, 14, 5);
    assert!(target.count() == 12);
}

#[test]
fn iterator_has_correct_number_of_tiles_when_height_is_one_over_multiple_of_tile_size() {
    let target = TileIterator::new(20, 16, 5);
    assert!(target.count() == 16);
}

fn tiles_fit(width: usize, height: usize, tile_size: usize) -> bool {
    all_tiles(width, height, tile_size).iter().all(|tile| {
        tile.end_column - tile.start_column <= tile_size
            && tile.end_row - tile.start_row <= tile_size
    })
}

#[test]
fn tiles_are_expected_size() {
    for &(width, height, tile_size) in &[
        (20, 15, 5),
        (19, 14, 5),
        (1, 1, 1),
        (100, 3, 7),
        (3, 100, 7),
        (64, 64, 32),
        (0, 10, 3),
        (10, 0, 3),
        (7, 9, 100),
    ] {
        assert!(tiles_fit(width, height, tile_size));
    }
}

fn covers_each_coordinate_once(width: usize, height: usize, tile_size: usize) -> bool {
    let mut index_counts = vec![0; width * height];
    let mut total_count = 0;
    for tile in all_tiles(width, height, tile_size) {
        for column in tile.start_column..tile.end_column {
            for row in tile.start_row..tile.end_row {
                index_counts[row * width + column] += 1;
                total_count += 1;
                if total_count > width * height {
                    return false;
                }
            }
        }
    }
    index_counts.iter().all(|&elem| elem == 1)
}

#[test]
fn iterator_includes_all_coordinates_exactly_once() {
    for &(width, height, tile_size) in &[
        (20, 15, 5),
        (19, 14, 5),
        (21, 16, 5),
        (1, 1, 1),
        (100, 3, 7),
        (3, 100, 7),
        (64, 64, 32),
        (7, 9, 100),
        (0, 10, 3),
        (10, 0, 3),
        (97, 89, 10),
    ] {
        assert!(covers_each_coordinate_once(width, height, tile_size));
    }
}

#[test]
fn tiles_come_in_row_major_order() {
    let tiles = all_tiles(5, 3, 2);
    let expected = [
        (0, 2, 0, 2),
        (2, 4, 0, 2),
        (4, 5, 0, 2),
        (0, 2, 2, 3),
        (2, 4, 2, 3),
        (4, 5, 2, 3),
    ];
    assert_eq!(tiles.len(), expected.len());
    for (tile, &(start_column, end_column, start_row, end_row)) in tiles.iter().zip(expected.iter()) {
        assert_eq!(tile.start_column, start_column);
        assert_eq!(tile.end_column, end_column);
        assert_eq!(tile.start_row, start_row);
        assert_eq!(tile.end_row, end_row);
        assert_eq!(tile.width(), end_column - start_column);
        assert_eq!(tile.height(), end_row - start_row);
    }
}

#[test]
fn zero_height_yields_no_tiles() {
    assert_eq!(TileIterator::new(10, 0, 4).count(), 0);
}

#[test]
fn zero_width_yields_one_empty_tile_per_tile_row() {
    let tiles = all_tiles(0, 10, 4);
    assert_eq!(tiles.len(), 3);
    assert!(tiles.iter().all(|tile| tile.width() == 0 && tile.height() > 0));
}

#[test]
fn iterator_stays_exhausted() {
    let mut target = TileIterator::new(3, 3, 2);
    for _ in 0..4 {
        assert!(target.next().is_some());
    }
    assert!(target.next().is_none());
    assert!(target.next().is_none());
}

#[test]
fn clone_continues_from_the_same_tile() {
    let mut target = TileIterator::new(6, 6, 3);
    target.next();
    let copy = target.clone();
    assert_eq!(copy.count(), 3);
    assert_eq!(target.count(), 3);
}

#[test]
fn large_image_near_the_top_of_the_range_does_not_overflow() {
    let tile_size = usize::MAX / 4;
    let mut target = TileIterator::new(usize::MAX, 1, tile_size);
    let mut last_end = 0;
    while let Some(tile) = target.next() {
        assert_eq!(tile.start_column, last_end);
        last_end = tile.end_column;
    }
    assert_eq!(last_end, usize::MAX);
}
