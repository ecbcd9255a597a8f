use grud::{Grid, GridError};

fn letters() -> Grid<&'static str> {
    Grid::from_matrix(vec![vec!["A", "B"], vec!["C", "D"]]).unwrap()
}

#[test]
fn new_grid() {
    let grid = Grid::new(2, 3, " ");

    assert_eq!(grid.area(), 6);
    assert_eq!(grid.width(), 2);
    assert_eq!(grid.height(), 3);
    assert_eq!(grid.as_vec(), &vec![" ", " ", " ", " ", " ", " "]);
}

#[test]
fn new_grid_of_width_to_matrix() {
    let grid = Grid::with_width(2, vec!["A", "B", "C", "D"]).unwrap();

    assert_eq!(grid.to_matrix(), vec![vec!["A", "B"], vec!["C", "D"]])
}

#[test]
fn new_grid_of_width_not_divisible() {
    let r = Grid::with_width(2, vec![1, 2, 3]);
    assert_eq!(r.unwrap_err(), GridError::InvalidShape);
}

#[test]
fn grid_from_matrix() {
    let grid = letters();

    assert_eq!(grid.as_vec(), &vec!["A", "B", "C", "D"]);
}

#[test]
fn grid_from_matrix_not_consistent() {
    let r = Grid::from_matrix(vec![vec!["A"], vec!["B", "C"]]);
    assert_eq!(r.unwrap_err(), GridError::InvalidShape);
}

#[test]
fn grid_clone() {
    let a = letters();
    let b = a.clone();

    assert_eq!(a.as_vec(), b.as_vec());
}

#[test]
fn grid_debug() {
    let a = letters();
    let a = format!("{:?}", a);

    assert_eq!(
        a,
        "Grid { data: [\"A\", \"B\", \"C\", \"D\"], width: 2, height: 2 }"
    );
}

#[test]
fn grid_display() {
    let a = letters();
    let a = a.to_text();

    assert_eq!(a, "AB\nCD\n");
}

#[test]
fn grid_iter() {
    let a = letters();
    let v = a
        .iter()
        .map(|i| i.to_ascii_lowercase())
        .collect::<Vec<String>>();

    assert_eq!(v, vec!["a", "b", "c", "d"]);
}

#[test]
fn grid_iter_mut() {
    let mut a = Grid::from_matrix(vec![vec![1, 2], vec![3, 4]]).unwrap();
    a.update_each(|i| *i + 1);

    assert_eq!(a.as_vec(), &vec![2, 3, 4, 5]);
}

#[test]
fn grid_index() {
    let grid = letters();

    assert_eq!(grid.index(0), Ok(&"A"));
    assert_eq!(grid.index(1), Ok(&"B"));
    assert_eq!(grid.index(2), Ok(&"C"));
    assert_eq!(grid.index(3), Ok(&"D"));
}

#[test]
fn grid_index_out_of_bounds() {
    let grid: Grid<()> = Grid::from_matrix(vec![]).unwrap();

    assert_eq!(grid.index(0), Err(GridError::OutOfBounds));
}

#[test]
fn grid_mut_index() {
    let mut grid = letters();

    assert_eq!(grid.set(0, "a"), Ok(()));
    assert_eq!(grid.index(0), Ok(&"a"));
    assert_eq!(grid.index(1), Ok(&"B"));
    assert_eq!(grid.index(2), Ok(&"C"));
    assert_eq!(grid.index(3), Ok(&"D"));
}

#[test]
fn grid_mut_index_out_of_bounds() {
    let mut grid: Grid<()> = Grid::from_matrix(vec![]).unwrap();

    assert_eq!(grid.set(0, ()), Err(GridError::OutOfBounds));
}

#[test]
fn grid_index_point() {
    let grid = letters();

    assert_eq!(grid.index_point((0, 0)), Ok(&"A"));
    assert_eq!(grid.index_point((1, 0)), Ok(&"B"));
    assert_eq!(grid.index_point((0, 1)), Ok(&"C"));
    assert_eq!(grid.index_point((1, 1)), Ok(&"D"));
}

#[test]
fn grid_mut_index_point() {
    let mut grid = letters();

    grid.set_point((0, 0), "a").unwrap();
    grid.set_point((1, 0), "b").unwrap();
    grid.set_point((0, 1), "c").unwrap();
    grid.set_point((1, 1), "d").unwrap();

    assert_eq!(grid.as_vec(), &vec!["a", "b", "c", "d"]);
}

#[test]
fn new_grid_with_no_columns_or_rows_is_empty() {
    let a = Grid::new(0, 3, 7u8);
    assert_eq!((a.width(), a.height(), a.area()), (0, 3, 0));
    assert!(a.as_vec().is_empty());
    let b = Grid::new(4, 0, 7u8);
    assert_eq!((b.width(), b.height(), b.area()), (4, 0, 0));
    assert_eq!(b.index(0), Err(GridError::OutOfBounds));
}

#[test]
fn new_grid_fills_every_cell() {
    let g = Grid::new(3, 2, 9u32);
    assert_eq!(g.as_vec(), &vec![9; 6]);
}

#[test]
fn with_width_keeps_data_and_infers_height() {
    let g = Grid::with_width(2, vec![1, 2, 3, 4, 5, 6]).unwrap();
    assert_eq!(g.width(), 2);
    assert_eq!(g.height(), 3);
    assert_eq!(g.area(), 6);
    assert_eq!(g.as_vec(), &vec![1, 2, 3, 4, 5, 6]);
    assert_eq!(g.to_matrix(), vec![vec![1, 2], vec![3, 4], vec![5, 6]]);
}

#[test]
fn with_width_zero() {
    assert_eq!(
        Grid::with_width(0, vec![1]).unwrap_err(),
        GridError::InvalidShape
    );
    let g = Grid::<u8>::with_width(0, vec![]).unwrap();
    assert_eq!((g.width(), g.height(), g.area()), (0, 0, 0));
}

#[test]
fn from_empty_matrix() {
    let g: Grid<u8> = Grid::from_matrix(vec![]).unwrap();
    assert_eq!((g.width(), g.height(), g.area()), (0, 0, 0));
    assert_eq!(g.to_matrix(), Vec::<Vec<u8>>::new());
}

#[test]
fn matrix_round_trip() {
    let m = vec![vec![1, 2, 3], vec![4, 5, 6]];
    let g = Grid::from_matrix(m.clone()).unwrap();
    assert_eq!((g.width(), g.height()), (3, 2));
    assert_eq!(g.to_matrix(), m);

    let rows = vec![vec![String::from("x")], vec![String::from("y")]];
    let g = Grid::from_matrix(rows.clone()).unwrap();
    assert_eq!(g.to_matrix(), rows);
}

#[test]
fn matrix_of_empty_rows() {
    let g: Grid<u8> = Grid::from_matrix(vec![vec![], vec![]]).unwrap();
    assert_eq!((g.width(), g.height(), g.area()), (0, 2, 0));
    assert_eq!(g.to_matrix(), vec![Vec::<u8>::new(), Vec::new()]);
}

#[test]
fn matrix_with_longer_later_row_fails() {
    let r = Grid::from_matrix(vec![vec![1, 2], vec![3, 4], vec![5, 6, 7]]);
    assert_eq!(r.unwrap_err(), GridError::InvalidShape);
}

#[test]
fn point_and_linear_index_agree() {
    let g = Grid::with_width(3, (0..12).collect::<Vec<u32>>()).unwrap();
    for y in 0..4usize {
        for x in 0..3usize {
            let i = y * 3 + x;
            assert_eq!(g.index_point((x, y)), g.index(i));
            assert_eq!(g.index_point([x, y]), g.index(i));
        }
    }
}

#[test]
fn point_past_row_end_projects_into_next_row() {
    let g = letters();
    assert_eq!(g.index_point((3, 0)), Ok(&"D"));
    assert_eq!(g.index_point((4, 0)), Err(GridError::OutOfBounds));
}

#[test]
fn point_out_of_area_fails() {
    let g = letters();
    assert_eq!(g.index_point((0, 2)), Err(GridError::OutOfBounds));
    assert_eq!(g.index_point([usize::MAX, 1]), Err(GridError::OutOfBounds));
    assert_eq!(g.index_point((1, usize::MAX)), Err(GridError::OutOfBounds));
    assert_eq!(g.index(4), Err(GridError::OutOfBounds));
}

#[test]
fn failed_writes_leave_grid_unchanged() {
    let mut g = letters();
    assert_eq!(g.set(4, "z"), Err(GridError::OutOfBounds));
    assert_eq!(g.set_point([2, 1], "z"), Err(GridError::OutOfBounds));
    assert_eq!(g.set_point((usize::MAX, usize::MAX), "z"), Err(GridError::OutOfBounds));
    assert_eq!(g.as_vec(), &vec!["A", "B", "C", "D"]);
}

#[test]
fn write_then_read_changes_one_cell() {
    let mut g = Grid::new(3, 3, 0i32);
    g.set_point([2, 1], 8).unwrap();
    assert_eq!(g.index(5), Ok(&8));
    g.set(0, 4).unwrap();
    assert_eq!(g.index_point((0, 0)), Ok(&4));
    assert_eq!(g.as_vec(), &vec![4, 0, 0, 0, 0, 8, 0, 0, 0]);
}

#[test]
fn single_cell_write_through_point() {
    let mut g = Grid::new(1, 1, "X");
    g.set_point((0, 0), "Y").unwrap();
    assert_eq!(g.index(0), Ok(&"Y"));
}

#[test]
fn letters_by_point() {
    let g = letters();
    assert_eq!(g.as_vec(), &vec!["A", "B", "C", "D"]);
    assert_eq!(g.index_point((1, 0)), Ok(&"B"));
    assert_eq!(g.index_point((0, 1)), Ok(&"C"));
}

#[test]
fn iteration_is_row_major_and_restartable() {
    let g = Grid::with_width(3, vec![1, 2, 3, 4, 5, 6]).unwrap();
    let first: Vec<i32> = g.iter().copied().collect();
    let second: Vec<i32> = g.iter().copied().collect();
    assert_eq!(first, vec![1, 2, 3, 4, 5, 6]);
    assert_eq!(first, second);
    assert_eq!(g.iter().count(), g.area());
    let empty: Grid<i32> = Grid::new(0, 0, 1);
    assert_eq!(empty.iter().count(), 0);
}

#[test]
fn update_each_visits_every_cell_once_in_order() {
    let mut g = Grid::with_width(2, vec![10, 20, 30, 40]).unwrap();
    g.update_each(|v| *v + 1);
    assert_eq!(g.as_vec(), &vec![11, 21, 31, 41]);
    let mut s = Grid::with_width(2, vec![String::new(); 4]).unwrap();
    s.set(2, String::from("c")).unwrap();
    s.update_each(|v| format!("{}!", v));
    assert_eq!(s.as_vec(), &vec!["!", "!", "c!", "!"]);
    assert_eq!((s.width(), s.height()), (2, 2));
}

#[test]
fn text_has_one_line_per_row() {
    let g = Grid::with_width(3, vec![1, 2, 3, 4, 5, 6, 7, 8, 9]).unwrap();
    assert_eq!(g.to_text(), "123\n456\n789\n");
    let tall = Grid::new(0, 2, 1);
    assert_eq!(tall.to_text(), "\n\n");
    let empty: Grid<u8> = Grid::from_matrix(vec![]).unwrap();
    assert_eq!(empty.to_text(), "");
    let wide = Grid::with_width(2, vec![10, 200]).unwrap();
    assert_eq!(wide.to_text(), "10200\n");
}
