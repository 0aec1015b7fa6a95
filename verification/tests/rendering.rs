use table_rs::ext::{ExtError, Table};
use table_rs::render::Alignment;

fn grid(rows: &[&[&str]]) -> Vec<Vec<String>> {
    rows.iter().map(|r| r.iter().map(|c| c.to_string()).collect()).collect()
}

fn sample() -> Table {
    Table::Parse(grid(&[&["a", "bb"], &["ccc", "d"]])).unwrap()
}

#[test]
fn stringify_left_draws_the_expected_box() {
    let out = sample().Stringify("Left".to_string()).unwrap();
    let expected = "┌─────┬────┐\n\
                    │ a   │ bb │\n\
                    ├─────┼────┤\n\
                    │ ccc │ d  │\n\
                    └─────┴────┘";
    assert_eq!(out, expected);
}

#[test]
fn stringify_right_justifies_into_the_column_width() {
    let out = sample().Stringify("R".to_string()).unwrap();
    let expected = "┌─────┬────┐\n\
                    │   a │ bb │\n\
                    ├─────┼────┤\n\
                    │ ccc │  d │\n\
                    └─────┴────┘";
    assert_eq!(out, expected);
}

#[test]
fn stringify_center_gives_the_odd_space_to_the_right() {
    let out = sample().Stringify("Center".to_string()).unwrap();
    let expected = "┌─────┬────┐\n\
                    │  a  │ bb │\n\
                    ├─────┼────┤\n\
                    │ ccc │ d  │\n\
                    └─────┴────┘";
    assert_eq!(out, expected);
}

#[test]
fn stringify_accepts_the_one_letter_spellings() {
    let long = sample().Stringify("Left".to_string()).unwrap();
    let short = sample().Stringify("L".to_string()).unwrap();
    assert_eq!(long, short);
    assert_eq!(
        sample().Stringify("Center".to_string()).unwrap(),
        sample().Stringify("C".to_string()).unwrap()
    );
}

#[test]
fn stringify_rejects_an_unknown_alignment() {
    let e = sample().Stringify("Bogus".to_string()).unwrap_err();
    match e {
        ExtError::ValueError(m) => assert_eq!(m, "Unknow alignment: Bogus."),
        ExtError::IndexError(m) => panic!("expected ValueError, got IndexError: {}", m),
    }
}

#[test]
fn stringify_renders_a_single_empty_cell() {
    let t = Table::Table(1, 1).unwrap();
    let out = t.Stringify("L".to_string()).unwrap();
    assert_eq!(out, "┌──┐\n│  │\n└──┘");
}

#[test]
fn alignment_tokens_parse_once_at_the_boundary() {
    assert_eq!(Alignment::from_token("Left"), Some(Alignment::Left));
    assert_eq!(Alignment::from_token("R"), Some(Alignment::Right));
    assert_eq!(Alignment::from_token("C"), Some(Alignment::Center));
    assert_eq!(Alignment::from_token("left"), None);
    assert_eq!(Alignment::from_token(""), None);
}

#[test]
fn csvify_joins_cells_and_rows() {
    let t = sample();
    assert_eq!(t.CSVify(), "a,bb\nccc,d");
    let single = Table::Parse(grid(&[&["only"]])).unwrap();
    assert_eq!(single.CSVify(), "only");
}

#[test]
fn csvify_keeps_empty_cells() {
    let t = Table::Table(2, 3).unwrap();
    assert_eq!(t.CSVify(), ",,\n,,");
}
