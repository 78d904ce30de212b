use xlsx2csv::error::{Error, ErrorKind};

#[test]
fn every_failure_has_its_kind() {
    assert_eq!(Error::MalformedXml("x".to_string()).kind(), ErrorKind::MalformedXml);
    assert_eq!(Error::MissingWorkbook.kind(), ErrorKind::MissingWorkbook);
    assert_eq!(Error::EmptyWorkbook.kind(), ErrorKind::EmptyWorkbook);
    assert_eq!(Error::SheetNotFound("x".to_string()).kind(), ErrorKind::SheetNotFound);
    assert_eq!(
        Error::SheetIndexOutOfRange { index: 3, count: 2 }.kind(),
        ErrorKind::SheetIndexOutOfRange
    );
    assert_eq!(Error::NoMatch.kind(), ErrorKind::NoMatch);
    assert_eq!(Error::InvalidPattern("(".to_string()).kind(), ErrorKind::InvalidPattern);
    assert_eq!(Error::RowTooLong.kind(), ErrorKind::RowTooLong);
}

#[test]
fn every_failure_has_its_own_message() {
    assert_eq!(Error::MalformedXml("at 3".to_string()).message(), "malformed XML: at 3");
    assert_eq!(Error::MissingWorkbook.message(), "the package has no workbook");
    assert_eq!(Error::EmptyWorkbook.message(), "no sheets found in workbook");
    assert_eq!(Error::SheetNotFound("Data".to_string()).message(), "cannot find sheet Data");
    assert_eq!(
        Error::SheetIndexOutOfRange { index: 12, count: 3 }.message(),
        "sheet index 12 is out of range 1-3"
    );
    assert_eq!(Error::NoMatch.message(), "no sheet matches the selection");
    assert_eq!(Error::InvalidPattern("(".to_string()).message(), "invalid pattern: (");
    assert_eq!(Error::RowTooLong.message(), "a row has too many cells");
}
