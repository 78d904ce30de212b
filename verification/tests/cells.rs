use xlsx2csv::cell::{column_index, copy_cells, place_cell, row_is_blank, trim_trailing};

fn row(cells: &[&str]) -> Vec<String> {
    cells.iter().map(|c| c.to_string()).collect()
}

#[test]
fn column_index_reads_the_letter_prefix() {
    assert_eq!(column_index("A1"), Some(0));
    assert_eq!(column_index("Z1"), Some(25));
    assert_eq!(column_index("AA1"), Some(26));
    assert_eq!(column_index("B3"), Some(1));
    assert_eq!(column_index("C7"), Some(2));
    assert_eq!(column_index("AZ9"), Some(51));
    assert_eq!(column_index("BA9"), Some(52));
    assert_eq!(column_index("ZZ1"), Some(701));
    assert_eq!(column_index("AAA1"), Some(702));
    assert_eq!(column_index("XFD1048576"), Some(16383));
}

#[test]
fn column_index_takes_letters_of_either_case() {
    assert_eq!(column_index("c7"), Some(2));
    assert_eq!(column_index("aA1"), Some(26));
}

#[test]
fn column_index_without_leading_letters_is_none() {
    assert_eq!(column_index("17"), None);
    assert_eq!(column_index(""), None);
    assert_eq!(column_index("$A1"), None);
    assert_eq!(column_index("1A"), None);
}

#[test]
fn column_index_stops_at_the_first_other_character() {
    assert_eq!(column_index("A"), Some(0));
    assert_eq!(column_index("A1B"), Some(0));
    assert_eq!(column_index("B$3"), Some(1));
}

#[test]
fn column_index_of_an_overlong_name_is_capped() {
    assert_eq!(column_index("ZZZZZZZZZZZZZZZZZZZZZZZZ1"), Some(usize::MAX - 1));
}

#[test]
fn place_cell_fills_gaps_with_empty_strings() {
    let mut r: Vec<String> = Vec::new();
    place_cell(&mut r, Some(2), "c".to_string());
    assert_eq!(r, row(&["", "", "c"]));
    place_cell(&mut r, None, "d".to_string());
    assert_eq!(r, row(&["", "", "c", "d"]));
    place_cell(&mut r, Some(0), "a".to_string());
    assert_eq!(r, row(&["a", "", "c", "d"]));
    place_cell(&mut r, Some(3), "D".to_string());
    assert_eq!(r, row(&["a", "", "c", "D"]));
    place_cell(&mut r, Some(4), "e".to_string());
    assert_eq!(r, row(&["a", "", "c", "D", "e"]));
}

#[test]
fn row_length_is_one_past_the_highest_column() {
    let mut r: Vec<String> = Vec::new();
    place_cell(&mut r, Some(5), "x".to_string());
    assert_eq!(r.len(), 6);
    place_cell(&mut r, Some(1), "y".to_string());
    assert_eq!(r.len(), 6);
}

#[test]
fn blank_rows_hold_only_empty_strings() {
    assert!(row_is_blank(&row(&[])));
    assert!(row_is_blank(&row(&["", ""])));
    assert!(!row_is_blank(&row(&["", " ", " "])));
    assert!(!row_is_blank(&row(&["", "a"])));
}

#[test]
fn trimming_removes_only_trailing_empty_cells() {
    assert_eq!(trim_trailing(&row(&["a", "", "b", "", ""])), row(&["a", "", "b"]));
    assert_eq!(trim_trailing(&row(&["", "", ""])), row(&[]));
    assert_eq!(trim_trailing(&row(&["", "a"])), row(&["", "a"]));
    assert_eq!(trim_trailing(&row(&["a", " "])), row(&["a", " "]));
    assert_eq!(trim_trailing(&row(&[])), row(&[]));
}

#[test]
fn copies_a_prefix_of_a_row() {
    assert_eq!(copy_cells(&row(&["a", "b", "c"]), 2), row(&["a", "b"]));
    assert_eq!(copy_cells(&row(&["a", "b", "c"]), 0), row(&[]));
    assert_eq!(copy_cells(&row(&["a", "b", "c"]), 3), row(&["a", "b", "c"]));
}
