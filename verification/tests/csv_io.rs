use table_rs::csv::{split_char, trim_exec, CSVParse};
use table_rs::ext::Table;

#[test]
fn csv_parse_splits_rows_and_cells() {
    let g = CSVParse("a,b\nc,d".to_string());
    assert_eq!(g, vec![vec!["a", "b"], vec!["c", "d"]]);
}

#[test]
fn csv_round_trip_is_the_identity() {
    let g = CSVParse("a,b\nc,d".to_string());
    let t = Table::Parse(g).unwrap();
    assert_eq!(t.CSVify(), "a,b\nc,d");
}

#[test]
fn csv_parse_trims_each_row() {
    let g = CSVParse("x, y\n z,w ".to_string());
    assert_eq!(g, vec![vec!["x", " y"], vec!["z", "w"]]);
}

#[test]
fn csv_parse_keeps_empty_cells_and_rows() {
    let g = CSVParse("a,,c\n\nd".to_string());
    assert_eq!(g, vec![vec!["a", "", "c"], vec![""], vec!["d"]]);
}

#[test]
fn split_char_keeps_every_piece() {
    let parts = split_char("a,b,,c", ',');
    assert_eq!(parts, vec!["a", "b", "", "c"]);
    assert_eq!(split_char("", ','), vec![""]);
    assert_eq!(split_char(",", ','), vec!["", ""]);
}

#[test]
fn csv_parse_strips_carriage_returns_at_row_ends() {
    let g = CSVParse("a,b\r\nc,d".to_string());
    assert_eq!(g, vec![vec!["a", "b"], vec!["c", "d"]]);
}

#[test]
fn trim_strips_both_ends_only() {
    assert_eq!(trim_exec("  a b\t"), "a b");
    assert_eq!(trim_exec("\r\n"), "");
    assert_eq!(trim_exec("x"), "x");
    assert_eq!(trim_exec(""), "");
}
