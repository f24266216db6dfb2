use vanrijn::util::Array2D;

#[test]
fn default_u8_is_all_zeros() {
    let target: Array2D<u8> = Array2D::new(10, 12);
    for i in 0..10 {
        for j in 0..12 {
            assert!(target[i][j] == 0);
        }
    }
}

#[test]
#[should_panic]
fn panics_if_row_outside_bounds() {
    let target: Array2D<u8> = Array2D::new(10, 12);
    assert!(target[10][6] == 0);
}

#[test]
#[should_panic]
fn panics_if_column_outside_bounds() {
    let target: Array2D<u8> = Array2D::new(10, 12);
    assert!(target[5][12] == 0);
}

#[test]
fn write_and_read_all_preserves_values() {
    let mut target: Array2D<u8> = Array2D::new(10, 12);
    for i in 0..10 {
        for j in 0..12 {
            target[i][j] = (i * 10 + j) as u8;
        }
    }
    for i in 0..10 {
        for j in 0..12 {
            assert!(target[i][j] == (i * 10 + j) as u8);
        }
    }
}

#[test]
fn update_block_writes_expected_values_in_block() {
    let mut target: Array2D<u8> = Array2D::new(10, 12);
    let mut source: Array2D<u8> = Array2D::new(2, 3);
    for i in 0..2 {
        for j in 0..3 {
            source[i][j] = (i * 3 + j) as u8;
        }
    }
    target.update_block(4, 5, &source);
    for i in 0..2 {
        for j in 0..3 {
            assert!(target[4 + i][5 + j] == source[i][j]);
        }
    }
}

#[test]
fn update_block_leaves_cells_outside_block_unchanged() {
    let mut target: Array2D<u8> = Array2D::from_elem(4, 5, 7);
    let source: Array2D<u8> = Array2D::from_elem(2, 2, 9);
    target.update_block(1, 3, &source);
    for i in 0..4 {
        for j in 0..5 {
            let inside = (1..3).contains(&i) && (3..5).contains(&j);
            assert_eq!(target[i][j], if inside { 9 } else { 7 });
        }
    }
}

#[test]
fn update_block_with_empty_source_changes_nothing() {
    let mut target: Array2D<u8> = Array2D::from_elem(3, 3, 1);
    let source: Array2D<u8> = Array2D::new(0, 0);
    target.update_block(3, 3, &source);
    assert!(target.as_slice().iter().all(|&e| e == 1));
}

#[test]
fn dimensions_are_kept() {
    let target: Array2D<u32> = Array2D::new(3, 7);
    assert_eq!(target.get_height(), 3);
    assert_eq!(target.get_width(), 7);
    assert_eq!(target.as_slice().len(), 21);
}

#[test]
fn as_slice_is_row_major() {
    let mut target: Array2D<u32> = Array2D::new(2, 3);
    target.set(1, 0, 5);
    target.set(0, 2, 4);
    assert_eq!(target.as_slice(), &[0, 0, 4, 5, 0, 0]);
    assert_eq!(*target.get(1, 0), 5);
    assert_eq!(*target.get(0, 2), 4);
    assert_eq!(*target.get(1, 2), 0);
}

#[test]
fn set_changes_only_one_cell() {
    let mut target: Array2D<i64> = Array2D::from_elem(3, 4, -1);
    target.set(2, 1, 42);
    for i in 0..3 {
        for j in 0..4 {
            assert_eq!(*target.get(i, j), if (i, j) == (2, 1) { 42 } else { -1 });
        }
    }
}

#[test]
fn clear_resets_to_defaults_and_keeps_dimensions() {
    let mut target: Array2D<u8> = Array2D::from_elem(3, 4, 200);
    target.clear();
    assert_eq!(target.get_height(), 3);
    assert_eq!(target.get_width(), 4);
    assert_eq!(target.as_slice().len(), 12);
    assert!(target.as_slice().iter().all(|&e| e == 0));
}

#[test]
fn from_elem_fills_every_cell() {
    let target: Array2D<u16> = Array2D::from_elem(2, 2, 513);
    assert_eq!(target.as_slice(), &[513, 513, 513, 513]);
}
