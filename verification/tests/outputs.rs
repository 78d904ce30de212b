use xlsx2csv::output::{encode_records, sheet_records, CsvFormat, QuoteStyle, Terminator};
use xlsx2csv::package::{load_relationships, load_sheets};
use xlsx2csv::select::{select_sheets, Selection};
use xlsx2csv::shared::load_shared_strings;
use xlsx2csv::sheet::{convert_sheet, SheetOptions};

fn row(cells: &[&str]) -> Vec<String> {
    cells.iter().map(|c| c.to_string()).collect()
}

fn text(records: &[Vec<String>], format: &CsvFormat) -> String {
    String::from_utf8(encode_records(&records.to_vec(), format).unwrap()).unwrap()
}

#[test]
fn the_standard_format_separates_by_commas_and_ends_lines_with_a_line_feed() {
    let format = CsvFormat::default();
    assert_eq!(format.delimiter, b',');
    assert_eq!(format.quote_style, QuoteStyle::Necessary);
    assert_eq!(format.terminator, Terminator::Any(b'\n'));
    assert_eq!(text(&[row(&["Hello", "42", "World"])], &format), "Hello,42,World\n");
}

#[test]
fn records_follow_one_another() {
    let format = CsvFormat::default();
    let records = vec![row(&["a", "b"]), row(&["c"]), row(&["d", "e", "f"])];
    assert_eq!(text(&records, &format), "a,b\nc\nd,e,f\n");
    assert_eq!(text(&[], &format), "");
}

#[test]
fn fields_are_quoted_where_necessary() {
    let format = CsvFormat::default();
    let records = vec![row(&["a,b", "say \"hi\"", "two\nlines", "plain"]), row(&[""])];
    assert_eq!(text(&records, &format), "\"a,b\",\"say \"\"hi\"\"\",\"two\nlines\",plain\n\"\"\n");
}

#[test]
fn the_format_decides_delimiter_quotes_and_terminator() {
    let records = vec![row(&["a", "1", "b c"])];
    let tabs = CsvFormat {
        delimiter: b'\t',
        quote_style: QuoteStyle::Always,
        terminator: Terminator::CRLF,
    };
    assert_eq!(text(&records, &tabs), "\"a\"\t\"1\"\t\"b c\"\r\n");
    let numbers = CsvFormat {
        delimiter: b';',
        quote_style: QuoteStyle::NonNumeric,
        terminator: Terminator::Any(b'|'),
    };
    assert_eq!(text(&records, &numbers), "\"a\";1;\"b c\"|");
    let never = CsvFormat { quote_style: QuoteStyle::Never, ..CsvFormat::default() };
    assert_eq!(text(&[row(&["a,b", "c"])], &never), "a,b,c\n");
}

#[test]
fn the_first_sheet_has_no_separator() {
    let rows = vec![row(&["a"]), row(&["b"])];
    assert_eq!(sheet_records(0, "----", rows.clone()), rows);
}

#[test]
fn later_sheets_start_with_the_separator() {
    let rows = vec![row(&["a"]), row(&["b"])];
    assert_eq!(
        sheet_records(1, "----", rows.clone()),
        vec![row(&["----"]), row(&["a"]), row(&["b"])]
    );
    assert_eq!(sheet_records(5, "x", Vec::new()), vec![row(&["x"])]);
}

#[test]
fn an_empty_separator_is_left_out() {
    let rows = vec![row(&["a"])];
    assert_eq!(sheet_records(1, "", rows.clone()), rows);
}

#[test]
fn a_workbook_converts_from_its_parts() {
    let rels = "<Relationships><Relationship Id=\"rId1\" Target=\"worksheets/sheet1.xml\"/></Relationships>";
    let workbook = "<workbook><sheets><sheet name=\"Data\" sheetId=\"1\" r:id=\"rId1\"/></sheets></workbook>";
    let strings = "<sst><si><t>Hello</t></si><si><t>World</t></si></sst>";
    let sheet = "<worksheet><sheetData><row r=\"1\">\
        <c r=\"A1\" t=\"s\"><v>0</v></c><c r=\"B1\"><v>42</v></c><c r=\"C1\" t=\"s\"><v>1</v></c>\
        </row></sheetData></worksheet>";
    let map = load_relationships(Some(rels.as_bytes())).ok().unwrap();
    let sheets = load_sheets(Some(workbook.as_bytes()), &map).ok().unwrap();
    let shared = load_shared_strings(Some(strings.as_bytes())).ok().unwrap();
    let selection = Selection {
        sheet_name: Some("Data".to_string()),
        sheet_index: None,
        all_sheets: false,
        including: Vec::new(),
        excluding: Vec::new(),
    };
    let chosen = select_sheets(&sheets, &selection).ok().unwrap();
    assert_eq!(chosen.len(), 1);
    assert_eq!(chosen[0].internal_path, "xl/worksheets/sheet1.xml");
    let options = SheetOptions {
        skip_empty_rows: false,
        trim_trailing: false,
        escape: false,
        no_line_breaks: false,
    };
    let rows = convert_sheet(sheet.as_bytes(), &shared, &options).ok().unwrap();
    let records = sheet_records(0, "", rows);
    assert_eq!(text(&records, &CsvFormat::default()), "Hello,42,World\n");
}
