use table_rs::ext::{Clamp, ExtError, Table, Zip};

fn grid(rows: &[&[&str]]) -> Vec<Vec<String>> {
    rows.iter().map(|r| r.iter().map(|c| c.to_string()).collect()).collect()
}

fn value_error_msg(e: ExtError) -> String {
    match e {
        ExtError::ValueError(m) => m,
        ExtError::IndexError(m) => panic!("expected ValueError, got IndexError: {}", m),
    }
}

fn index_error_msg(e: ExtError) -> String {
    match e {
        ExtError::IndexError(m) => m,
        ExtError::ValueError(m) => panic!("expected IndexError, got ValueError: {}", m),
    }
}

#[test]
fn create_fills_with_empty_cells() {
    let t = Table::Table(3, 4).unwrap();
    assert_eq!(t.GetLength(), 3);
    assert_eq!(t.GetWidth(), 4);
    for i in 0..3 {
        for j in 0..4 {
            assert_eq!(t.Get(i, j).unwrap(), "");
        }
    }
}

#[test]
fn create_rejects_zero_dimensions() {
    assert_eq!(
        value_error_msg(Table::Table(0, 0).unwrap_err()),
        "Cannot create a table with 0 cells."
    );
    assert_eq!(
        value_error_msg(Table::Table(2, 0).unwrap_err()),
        "Cannot create a table with 0 columns."
    );
    assert_eq!(
        value_error_msg(Table::Table(0, 2).unwrap_err()),
        "Cannot create a table with 0 rows."
    );
}

#[test]
fn parse_adopts_rectangular_grid() {
    let t = Table::Parse(grid(&[&["a", "b"], &["c", "d"]])).unwrap();
    assert_eq!(t.GetLength(), 2);
    assert_eq!(t.GetWidth(), 2);
    assert_eq!(t.Get(0, 0).unwrap(), "a");
    assert_eq!(t.Get(0, 1).unwrap(), "b");
    assert_eq!(t.Get(1, 0).unwrap(), "c");
    assert_eq!(t.Get(1, 1).unwrap(), "d");
}

#[test]
fn parse_rejects_ragged_grid() {
    let e = Table::Parse(grid(&[&["a", "b"], &["c", "d", "e"]])).unwrap_err();
    assert_eq!(value_error_msg(e), "Row 1 has 3 column, expected 2.");
}

#[test]
fn parse_rejects_empty_grids() {
    let e = Table::Parse(Vec::new()).unwrap_err();
    assert_eq!(value_error_msg(e), "Cannot create a table with 0 rows.");
    let e = Table::Parse(vec![Vec::new(), vec!["a".to_string()]]).unwrap_err();
    assert_eq!(value_error_msg(e), "Cannot create a table with 0 columns.");
}

#[test]
fn add_row_inserts_consecutively() {
    let mut t = Table::Parse(grid(&[&["a"], &["b"]])).unwrap();
    t.AddRow(1, 2).unwrap();
    assert_eq!(t.GetLength(), 4);
    assert_eq!(t.Get(0, 0).unwrap(), "a");
    assert_eq!(t.Get(1, 0).unwrap(), "");
    assert_eq!(t.Get(2, 0).unwrap(), "");
    assert_eq!(t.Get(3, 0).unwrap(), "b");
}

#[test]
fn add_row_clamps_out_of_range_index() {
    let mut t = Table::Parse(grid(&[&["a"]])).unwrap();
    t.AddRow(10, 1).unwrap();
    assert_eq!(t.GetLength(), 2);
    assert_eq!(t.Get(0, 0).unwrap(), "a");
    assert_eq!(t.Get(1, 0).unwrap(), "");
}

#[test]
fn add_row_rejects_zero_count() {
    let mut t = Table::Table(1, 1).unwrap();
    let e = t.AddRow(0, 0).unwrap_err();
    assert_eq!(value_error_msg(e), "count must be more than 0.");
    assert_eq!(t.GetLength(), 1);
}

#[test]
fn add_column_inserts_in_every_row() {
    let mut t = Table::Parse(grid(&[&["a", "b"], &["c", "d"]])).unwrap();
    t.AddColumn(1, 1).unwrap();
    assert_eq!(t.GetWidth(), 3);
    assert_eq!(t.GetRow(0).unwrap(), vec!["a", "", "b"]);
    assert_eq!(t.GetRow(1).unwrap(), vec!["c", "", "d"]);
}

#[test]
fn add_column_rejects_out_of_range_index() {
    let mut t = Table::Table(2, 2).unwrap();
    let e = t.AddColumn(3, 1).unwrap_err();
    assert_eq!(index_error_msg(e), "Column index 3 is out of bounds.");
    assert_eq!(t.GetWidth(), 2);
}

#[test]
fn add_column_rejects_zero_count() {
    let mut t = Table::Table(1, 1).unwrap();
    let e = t.AddColumn(0, 0).unwrap_err();
    assert_eq!(value_error_msg(e), "count must be more than 0.");
    assert_eq!(t.GetWidth(), 1);
}

#[test]
fn delete_row_removes_the_addressed_row() {
    let mut t = Table::Parse(grid(&[&["a"], &["b"], &["c"]])).unwrap();
    t.DeleteRow(1).unwrap();
    assert_eq!(t.GetLength(), 2);
    assert_eq!(t.Get(0, 0).unwrap(), "a");
    assert_eq!(t.Get(1, 0).unwrap(), "c");
}

#[test]
fn delete_row_refuses_the_last_row() {
    let mut t = Table::Parse(grid(&[&["x", "y"]])).unwrap();
    let e = t.DeleteRow(0).unwrap_err();
    assert_eq!(value_error_msg(e), "Cannot remove the last row of the table.");
    assert_eq!(t.GetLength(), 1);
    assert_eq!(t.GetWidth(), 2);
    assert_eq!(t.Get(0, 0).unwrap(), "x");
    assert_eq!(t.Get(0, 1).unwrap(), "y");
}

#[test]
fn delete_row_rejects_out_of_range_index() {
    let mut t = Table::Table(2, 1).unwrap();
    let e = t.DeleteRow(7).unwrap_err();
    assert_eq!(index_error_msg(e), "Row index 7 is out of bounds.");
    assert_eq!(t.GetLength(), 2);
}

#[test]
fn delete_column_removes_in_every_row() {
    let mut t = Table::Parse(grid(&[&["a", "b"], &["c", "d"]])).unwrap();
    t.DeleteColumn(0).unwrap();
    assert_eq!(t.GetWidth(), 1);
    assert_eq!(t.Get(0, 0).unwrap(), "b");
    assert_eq!(t.Get(1, 0).unwrap(), "d");
}

#[test]
fn delete_column_refuses_the_last_column() {
    let mut t = Table::Parse(grid(&[&["a"], &["b"]])).unwrap();
    let e = t.DeleteColumn(0).unwrap_err();
    assert_eq!(value_error_msg(e), "Cannot remove the last column of the table.");
    assert_eq!(t.GetWidth(), 1);
    assert_eq!(t.Get(0, 0).unwrap(), "a");
}

#[test]
fn delete_column_rejects_out_of_range_index() {
    let mut t = Table::Table(1, 2).unwrap();
    let e = t.DeleteColumn(9).unwrap_err();
    assert_eq!(index_error_msg(e), "Column index 9 is out of bounds.");
    assert_eq!(t.GetWidth(), 2);
}

#[test]
fn set_overwrites_one_cell() {
    let mut t = Table::Table(2, 2).unwrap();
    t.SetCell("hello".to_string(), 1, 0).unwrap();
    assert_eq!(t.Get(1, 0).unwrap(), "hello");
    assert_eq!(t.Get(0, 0).unwrap(), "");
    assert_eq!(t.Get(1, 1).unwrap(), "");
}

#[test]
fn set_and_get_reject_out_of_range_indexes() {
    let mut t = Table::Table(1, 1).unwrap();
    let e = t.SetCell("x".to_string(), 1, 0).unwrap_err();
    assert_eq!(index_error_msg(e), "Row index 1 is out of bounds.");
    let e = t.SetCell("x".to_string(), 0, 4).unwrap_err();
    assert_eq!(index_error_msg(e), "Column index 4 is out of bounds.");
    let e = t.Get(3, 0).unwrap_err();
    assert_eq!(index_error_msg(e), "Row index 3 is out of bounds.");
    let e = t.Get(0, 3).unwrap_err();
    assert_eq!(index_error_msg(e), "Column index 3 is out of bounds.");
}

#[test]
fn get_row_and_column_copy_the_line() {
    let t = Table::Parse(grid(&[&["a", "b"], &["c", "d"]])).unwrap();
    assert_eq!(t.GetRow(1).unwrap(), vec!["c", "d"]);
    assert_eq!(t.GetColumn(1).unwrap(), vec!["b", "d"]);
    let e = t.GetRow(2).unwrap_err();
    assert_eq!(index_error_msg(e), "Row index 2 is out of bounds.");
    let e = t.GetColumn(2).unwrap_err();
    assert_eq!(index_error_msg(e), "Column index 2 is out of bounds.");
}

#[test]
fn mutation_sequence_keeps_the_table_rectangular() {
    let mut t = Table::Parse(grid(&[&["a", "b"], &["c", "d"]])).unwrap();
    t.AddRow(1, 2).unwrap();
    t.AddColumn(0, 1).unwrap();
    t.DeleteRow(0).unwrap();
    t.DeleteColumn(2).unwrap();
    let rows = t.GetLength();
    let width = t.GetWidth();
    assert!(rows >= 1);
    assert!(width >= 1);
    for i in 0..rows {
        assert_eq!(t.GetRow(i).unwrap().len(), width);
    }
}

#[test]
fn transpose_swaps_rows_and_columns() {
    let z = Zip(&grid(&[&["a", "b"], &["c", "d"]]));
    assert_eq!(z, grid(&[&["a", "c"], &["b", "d"]]));
    let empty: Vec<Vec<String>> = Vec::new();
    assert_eq!(Zip(&empty), empty);
}

#[test]
fn clamp_holds_a_number_into_a_range() {
    assert_eq!(Clamp(5, 0, 3), 3);
    assert_eq!(Clamp(1, 2, 9), 2);
    assert_eq!(Clamp(4, 2, 9), 4);
}

#[test]
fn describe_names_the_error_kind() {
    let e = Table::Table(0, 0).unwrap_err();
    assert_eq!(e.describe(), "ValueError: Cannot create a table with 0 cells.");
    let t = Table::Table(1, 1).unwrap();
    let e = t.Get(5, 0).unwrap_err();
    assert_eq!(e.describe(), "IndexError: Row index 5 is out of bounds.");
}
