use hexarray::topology::is_shifted;
use hexarray::HexArray;

fn sorted(mut cells: Vec<(usize, usize)>) -> Vec<(usize, usize)> {
    cells.sort();
    cells
}

#[test]
fn odd_columns_are_shifted() {
    assert!(!is_shifted(0));
    assert!(is_shifted(1));
    assert!(!is_shifted(2));
    assert!(is_shifted(3));
    assert!(is_shifted(usize::MAX));
    assert!(!is_shifted(usize::MAX - 1));
}

#[test]
fn named_neighbor_sets() {
    let grid = HexArray::new(4, 4, 0);
    assert_eq!(sorted(grid.adjacent(0, 0)), vec![(0, 1), (1, 0)]);
    assert_eq!(
        sorted(grid.adjacent(1, 1)),
        vec![(0, 1), (0, 2), (1, 0), (1, 2), (2, 1), (2, 2)]
    );
    assert_eq!(sorted(grid.adjacent(3, 3)), vec![(2, 3), (3, 2)]);
}

#[test]
fn neighbor_counts_of_a_square_grid() {
    let grid = HexArray::new(4, 4, ());
    let expected = [[2, 4, 4, 3], [5, 6, 6, 3], [3, 6, 6, 5], [3, 4, 4, 2]];
    for x in 0..4 {
        for y in 0..4 {
            assert_eq!(grid.adjacent(x, y).len(), expected[x][y], "at ({x}, {y})");
        }
    }
}

#[test]
fn interior_cells_have_six_neighbors() {
    let grid = HexArray::new(6, 7, 0u8);
    for x in 1..5 {
        for y in 1..6 {
            assert_eq!(grid.adjacent(x, y).len(), 6);
        }
    }
    assert_eq!(
        sorted(grid.adjacent(2, 3)),
        vec![(1, 2), (1, 3), (2, 2), (2, 4), (3, 2), (3, 3)]
    );
    assert_eq!(
        sorted(grid.adjacent(3, 3)),
        vec![(2, 3), (2, 4), (3, 2), (3, 4), (4, 3), (4, 4)]
    );
}

#[test]
fn neighbors_are_cells_and_never_repeated() {
    for (height, width) in [(4, 4), (2, 5), (5, 2), (1, 6), (6, 1), (1, 1), (3, 3)] {
        let grid = HexArray::new(height, width, 0u8);
        for x in 0..height {
            for y in 0..width {
                let found = grid.adjacent(x, y);
                assert!(found.len() <= 6);
                for (i, cell) in found.iter().enumerate() {
                    assert!(cell.0 < height && cell.1 < width);
                    assert_ne!(*cell, (x, y));
                    assert!(!found[..i].contains(cell));
                }
            }
        }
    }
}

#[test]
fn adjacency_is_symmetric_within_the_grid() {
    for (height, width) in [(4, 4), (2, 5), (5, 2), (1, 6), (6, 1), (3, 7), (7, 3)] {
        let grid = HexArray::new(height, width, 0u8);
        for x in 0..height {
            for y in 0..width {
                for (a, b) in grid.adjacent(x, y) {
                    assert!(
                        grid.adjacent(a, b).contains(&(x, y)),
                        "({a}, {b}) is next to ({x}, {y}) but not the other way round"
                    );
                }
            }
        }
    }
}

#[test]
fn each_axis_is_held_to_its_own_bound() {
    let tall = HexArray::new(5, 2, 0u8);
    assert_eq!(sorted(tall.adjacent(3, 1)), vec![(2, 1), (3, 0), (4, 1)]);
    assert_eq!(sorted(tall.adjacent(4, 0)), vec![(3, 0), (4, 1)]);
    assert_eq!(
        sorted(tall.adjacent(2, 1)),
        vec![(1, 0), (1, 1), (2, 0), (3, 0), (3, 1)]
    );
    let wide = HexArray::new(2, 5, 0u8);
    assert_eq!(
        sorted(wide.adjacent(1, 3)),
        vec![(0, 3), (0, 4), (1, 2), (1, 4)]
    );
    assert_eq!(sorted(wide.adjacent(0, 4)), vec![(0, 3), (1, 3), (1, 4)]);
    assert_eq!(sorted(wide.adjacent(1, 4)), vec![(0, 4), (1, 3)]);
}

#[test]
fn single_row_and_single_column() {
    let column = HexArray::new(1, 4, 0u8);
    assert_eq!(sorted(column.adjacent(0, 0)), vec![(0, 1)]);
    assert_eq!(sorted(column.adjacent(0, 2)), vec![(0, 1), (0, 3)]);
    let row = HexArray::new(4, 1, 0u8);
    assert_eq!(sorted(row.adjacent(0, 0)), vec![(1, 0)]);
    assert_eq!(sorted(row.adjacent(2, 0)), vec![(1, 0), (3, 0)]);
    let single = HexArray::new(1, 1, 0u8);
    assert_eq!(single.adjacent(0, 0), vec![]);
}

#[test]
fn empty_grid_has_no_neighbors() {
    for (height, width) in [(0, 0), (0, 3), (3, 0)] {
        let grid = HexArray::new(height, width, 0u8);
        for x in 0..4 {
            for y in 0..4 {
                assert_eq!(grid.adjacent(x, y), vec![]);
            }
        }
    }
}

#[test]
fn positions_outside_the_grid_list_the_cells_they_touch() {
    let grid = HexArray::new(4, 4, 0u8);
    // just past the last column
    assert_eq!(sorted(grid.adjacent(4, 2)), vec![(3, 1), (3, 2)]);
    // just past the last row
    assert_eq!(sorted(grid.adjacent(1, 4)), vec![(1, 3)]);
    assert_eq!(sorted(grid.adjacent(2, 4)), vec![(1, 3), (2, 3), (3, 3)]);
    // far away
    assert_eq!(grid.adjacent(10, 1), vec![]);
    assert_eq!(grid.adjacent(usize::MAX, usize::MAX), vec![]);
    assert_eq!(grid.adjacent(usize::MAX, 0), vec![]);
    assert_eq!(grid.adjacent(0, usize::MAX), vec![]);
}

#[test]
fn stored_values_do_not_change_adjacency() {
    let mut grid = HexArray::new(4, 4, 0);
    let before = sorted(grid.adjacent(2, 1));
    grid.set(2, 1, 5);
    grid.set(1, 1, 6);
    assert_eq!(sorted(grid.adjacent(2, 1)), before);
}
