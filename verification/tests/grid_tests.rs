use radarc::error::DemError;
use radarc::grid::{far_corner, flatten_rows, GridCursor};

#[test]
fn flattens_rows_in_row_major_order() {
    let g = flatten_rows(vec![vec![1, 2, 3], vec![4, 5, 6]]).expect("grid");
    assert_eq!(g.height, 2);
    assert_eq!(g.width, 3);
    assert_eq!(g.values, vec![1, 2, 3, 4, 5, 6]);
}

#[test]
fn single_cell_grid_is_accepted() {
    let g = flatten_rows(vec![vec![7u8]]).expect("grid");
    assert_eq!((g.height, g.width), (1, 1));
    assert_eq!(g.values, vec![7u8]);
}

#[test]
fn empty_grids_are_rejected() {
    assert!(matches!(flatten_rows::<i32>(vec![]), Err(DemError::Empty)));
    assert!(matches!(flatten_rows::<i32>(vec![vec![]]), Err(DemError::Empty)));
    assert!(matches!(flatten_rows::<i32>(vec![vec![], vec![1]]), Err(DemError::Empty)));
}

#[test]
fn ragged_grids_are_rejected() {
    assert!(matches!(flatten_rows(vec![vec![1, 2], vec![3]]), Err(DemError::NonRectangular)));
    assert!(matches!(flatten_rows(vec![vec![1], vec![2], vec![3, 4]]), Err(DemError::NonRectangular)));
}

#[test]
fn cursor_walks_every_cell_once_row_by_row() {
    let mut cursor = GridCursor::new(3, 2);
    let mut seen = Vec::new();
    while let Some(cell) = cursor.next_cell() {
        seen.push(cell);
    }
    assert_eq!(seen, vec![(0, 0), (0, 1), (0, 2), (1, 0), (1, 1), (1, 2)]);
    assert_eq!(cursor.next_cell(), None);
    assert_eq!(cursor.next_cell(), None);
}

#[test]
fn cursor_over_single_column() {
    let mut cursor = GridCursor::new(1, 3);
    assert_eq!(cursor.next_cell(), Some((0, 0)));
    assert_eq!(cursor.next_cell(), Some((1, 0)));
    assert_eq!(cursor.next_cell(), Some((2, 0)));
    assert_eq!(cursor.next_cell(), None);
}

#[test]
fn cursor_over_grid_without_rows() {
    let mut cursor = GridCursor::new(4, 0);
    assert_eq!(cursor.next_cell(), None);
}

#[test]
fn far_corner_steps_and_clamps() {
    assert_eq!(far_corner(0, 0, 5, 5), (1, 1));
    assert_eq!(far_corner(4, 2, 5, 5), (4, 3));
    assert_eq!(far_corner(3, 4, 5, 5), (4, 4));
    assert_eq!(far_corner(0, 0, 1, 1), (0, 0));
}
