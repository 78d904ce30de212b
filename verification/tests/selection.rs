use xlsx2csv::error::{Error, ErrorKind};
use xlsx2csv::package::SheetDescriptor;
use xlsx2csv::select::{first_invalid, select_sheets, Selection};

fn sheets(names: &[&str]) -> Vec<SheetDescriptor> {
    names
        .iter()
        .enumerate()
        .map(|(i, n)| SheetDescriptor {
            name: n.to_string(),
            internal_path: format!("xl/worksheets/sheet{}.xml", i + 1),
        })
        .collect()
}

fn first_only() -> Selection {
    Selection {
        sheet_name: None,
        sheet_index: None,
        all_sheets: false,
        including: Vec::new(),
        excluding: Vec::new(),
    }
}

fn names(chosen: Result<Vec<SheetDescriptor>, Error>) -> Vec<String> {
    chosen.ok().unwrap().iter().map(|s| s.name.clone()).collect()
}

fn strings(items: &[&str]) -> Vec<String> {
    items.iter().map(|s| s.to_string()).collect()
}

#[test]
fn the_default_selection_names_nothing() {
    let selection = Selection::default();
    assert!(selection.sheet_name.is_none());
    assert!(selection.sheet_index.is_none());
    assert!(!selection.all_sheets);
    assert!(selection.including.is_empty());
    assert!(selection.excluding.is_empty());
}

#[test]
fn the_first_sheet_is_the_default() {
    let all = sheets(&["A", "B", "C"]);
    let chosen = select_sheets(&all, &first_only()).ok().unwrap();
    assert_eq!(chosen.len(), 1);
    assert_eq!(chosen[0].name, "A");
    assert_eq!(chosen[0].internal_path, "xl/worksheets/sheet1.xml");
}

#[test]
fn all_sheets_come_in_workbook_order() {
    let all = sheets(&["A", "B", "C"]);
    let selection = Selection { all_sheets: true, ..first_only() };
    assert_eq!(names(select_sheets(&all, &selection)), strings(&["A", "B", "C"]));
}

#[test]
fn a_sheet_is_found_by_its_exact_name() {
    let all = sheets(&["Data", "data", "Data2", "Data"]);
    let selection = Selection { sheet_name: Some("Data".to_string()), ..first_only() };
    let chosen = select_sheets(&all, &selection).ok().unwrap();
    assert_eq!(chosen.len(), 2);
    assert_eq!(chosen[0].internal_path, "xl/worksheets/sheet1.xml");
    assert_eq!(chosen[1].internal_path, "xl/worksheets/sheet4.xml");
}

#[test]
fn a_name_that_no_sheet_has_fails() {
    let all = sheets(&["A", "B"]);
    let selection = Selection { sheet_name: Some("C".to_string()), ..first_only() };
    let error = select_sheets(&all, &selection).err().unwrap();
    assert_eq!(error.kind(), ErrorKind::SheetNotFound);
    assert!(matches!(&error, Error::SheetNotFound(n) if n == "C"));
    assert_eq!(error.message(), "cannot find sheet C");
}

#[test]
fn a_sheet_is_found_by_its_position() {
    let all = sheets(&["A", "B", "C"]);
    for (index, name) in [(1, "A"), (2, "B"), (3, "C")] {
        let selection = Selection { sheet_index: Some(index), ..first_only() };
        assert_eq!(names(select_sheets(&all, &selection)), strings(&[name]));
    }
}

#[test]
fn index_two_of_a_single_sheet_is_out_of_range() {
    let all = sheets(&["Only"]);
    let selection = Selection { sheet_index: Some(2), ..first_only() };
    let error = select_sheets(&all, &selection).err().unwrap();
    assert_eq!(error.kind(), ErrorKind::SheetIndexOutOfRange);
    assert!(matches!(error, Error::SheetIndexOutOfRange { index: 2, count: 1 }));
    assert_eq!(error.message(), "sheet index 2 is out of range 1-1");
    assert!(error.message().contains("1-1"));
}

#[test]
fn index_zero_is_out_of_range() {
    let all = sheets(&["A", "B"]);
    let selection = Selection { sheet_index: Some(0), ..first_only() };
    let error = select_sheets(&all, &selection).err().unwrap();
    assert!(matches!(error, Error::SheetIndexOutOfRange { index: 0, count: 2 }));
}

#[test]
fn a_name_decides_before_an_index_and_patterns() {
    let all = sheets(&["A", "B"]);
    let selection = Selection {
        sheet_name: Some("B".to_string()),
        sheet_index: Some(7),
        all_sheets: true,
        including: strings(&["("]),
        excluding: strings(&["B"]),
    };
    assert_eq!(names(select_sheets(&all, &selection)), strings(&["B"]));
}

#[test]
fn an_index_decides_before_patterns() {
    let all = sheets(&["A", "B"]);
    let selection = Selection {
        sheet_index: Some(2),
        all_sheets: true,
        excluding: strings(&["B", "("]),
        ..first_only()
    };
    assert_eq!(names(select_sheets(&all, &selection)), strings(&["B"]));
}

#[test]
fn patterns_choose_among_all_sheets() {
    let all = sheets(&["Q1", "Q2", "Summary"]);
    let selection = Selection { all_sheets: true, including: strings(&["^Q[0-9]"]), ..first_only() };
    assert_eq!(names(select_sheets(&all, &selection)), strings(&["Q1", "Q2"]));
}

#[test]
fn patterns_match_anywhere_in_the_name() {
    let all = sheets(&["Summary", "Q1 summary", "Q2"]);
    let selection = Selection { all_sheets: true, including: strings(&["mm"]), ..first_only() };
    assert_eq!(names(select_sheets(&all, &selection)), strings(&["Summary", "Q1 summary"]));
}

#[test]
fn one_matching_pattern_is_enough() {
    let all = sheets(&["Q1", "Q2", "Summary", "Notes"]);
    let selection =
        Selection { all_sheets: true, including: strings(&["^Q1$", "^S"]), ..first_only() };
    assert_eq!(names(select_sheets(&all, &selection)), strings(&["Q1", "Summary"]));
}

#[test]
fn excluded_sheets_are_dropped() {
    let all = sheets(&["Q1", "Q2", "Summary"]);
    let selection = Selection { all_sheets: true, excluding: strings(&["2", "^S"]), ..first_only() };
    assert_eq!(names(select_sheets(&all, &selection)), strings(&["Q1"]));
    let both = Selection {
        all_sheets: true,
        including: strings(&["^Q"]),
        excluding: strings(&["1"]),
        ..first_only()
    };
    assert_eq!(names(select_sheets(&all, &both)), strings(&["Q2"]));
}

#[test]
fn patterns_also_judge_the_first_sheet() {
    let all = sheets(&["Q1", "Summary"]);
    let selection = Selection { including: strings(&["^Q"]), ..first_only() };
    assert_eq!(names(select_sheets(&all, &selection)), strings(&["Q1"]));
    let selection = Selection { including: strings(&["^S"]), ..first_only() };
    assert_eq!(select_sheets(&all, &selection).err().map(|e| e.kind()), Some(ErrorKind::NoMatch));
}

#[test]
fn a_selection_that_leaves_nothing_fails() {
    let all = sheets(&["Q1", "Q2"]);
    let selection = Selection { all_sheets: true, including: strings(&["^S"]), ..first_only() };
    assert_eq!(select_sheets(&all, &selection).err().map(|e| e.kind()), Some(ErrorKind::NoMatch));
    let selection = Selection { all_sheets: true, excluding: strings(&["Q"]), ..first_only() };
    assert_eq!(select_sheets(&all, &selection).err().map(|e| e.kind()), Some(ErrorKind::NoMatch));
    assert_eq!(
        select_sheets(&Vec::new(), &first_only()).err().map(|e| e.kind()),
        Some(ErrorKind::NoMatch)
    );
}

#[test]
fn a_pattern_that_is_no_regular_expression_fails() {
    let all = sheets(&["Q1", "Q2"]);
    let selection =
        Selection { all_sheets: true, including: strings(&["^Q", "(open"]), ..first_only() };
    let error = select_sheets(&all, &selection).err().unwrap();
    assert!(matches!(&error, Error::InvalidPattern(p) if p == "(open"));
    assert_eq!(error.message(), "invalid pattern: (open");
    let selection = Selection { excluding: strings(&["[z-a]"]), ..first_only() };
    let error = select_sheets(&all, &selection).err().unwrap();
    assert!(matches!(&error, Error::InvalidPattern(p) if p == "[z-a]"));
}

#[test]
fn the_first_invalid_pattern_is_found() {
    assert_eq!(first_invalid(&strings(&["a", "b+", "^c$"])), None);
    assert_eq!(first_invalid(&strings(&["a", "b(", "c)"])), Some(1));
    assert_eq!(first_invalid(&strings(&[])), None);
    assert_eq!(first_invalid(&strings(&["*"])), Some(0));
}
