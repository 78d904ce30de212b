//! The ways in which a conversion fails.

use crate::text::{decimal, decimal_string};
use vstd::prelude::*;
use vstd::string::StringExecFns;

verus! {

/// The kind of a failure, without its details.
#[derive(Clone, Copy, Debug, PartialEq, Eq, Structural)]
pub enum ErrorKind {
    MalformedXml,
    MissingWorkbook,
    EmptyWorkbook,
    SheetNotFound,
    SheetIndexOutOfRange,
    NoMatch,
    InvalidPattern,
    RowTooLong,
}

/// A failure of the conversion.
#[derive(Debug)]
pub enum Error {
    /// A part is not well-formed XML; with the parser's description.
    MalformedXml(String),
    /// The package has no workbook part.
    MissingWorkbook,
    /// The workbook lists no sheet that can be read.
    EmptyWorkbook,
    /// No sheet has the requested name.
    SheetNotFound(String),
    /// The requested sheet index is not between 1 and the number of sheets.
    SheetIndexOutOfRange { index: usize, count: usize },
    /// The selection leaves no sheet.
    NoMatch,
    /// A name pattern is no regular expression.
    InvalidPattern(String),
    /// A row would need more cells than can be addressed.
    RowTooLong,
}

impl Error {
    /// The kind of this failure.
    pub open spec fn kind_of(self) -> ErrorKind {
        match self {
            Error::MalformedXml(_) => ErrorKind::MalformedXml,
            Error::MissingWorkbook => ErrorKind::MissingWorkbook,
            Error::EmptyWorkbook => ErrorKind::EmptyWorkbook,
            Error::SheetNotFound(_) => ErrorKind::SheetNotFound,
            Error::SheetIndexOutOfRange { .. } => ErrorKind::SheetIndexOutOfRange,
            Error::NoMatch => ErrorKind::NoMatch,
            Error::InvalidPattern(_) => ErrorKind::InvalidPattern,
            Error::RowTooLong => ErrorKind::RowTooLong,
        }
    }

    /// The text that describes the failure.
    pub open spec fn message_of(self) -> Seq<char> {
        match self {
            Error::MalformedXml(detail) => "malformed XML: "@ + detail@,
            Error::MissingWorkbook => "the package has no workbook"@,
            Error::EmptyWorkbook => "no sheets found in workbook"@,
            Error::SheetNotFound(name) => "cannot find sheet "@ + name@,
            Error::SheetIndexOutOfRange { index, count } => "sheet index "@ + decimal(index as nat)
                + " is out of range 1-"@ + decimal(count as nat),
            Error::NoMatch => "no sheet matches the selection"@,
            Error::InvalidPattern(pattern) => "invalid pattern: "@ + pattern@,
            Error::RowTooLong => "a row has too many cells"@,
        }
    }

    /// The kind of this failure.
    pub fn kind(&self) -> (k: ErrorKind)
        ensures
            k == self.kind_of(),
    {
        match self {
            Error::MalformedXml(_) => ErrorKind::MalformedXml,
            Error::MissingWorkbook => ErrorKind::MissingWorkbook,
            Error::EmptyWorkbook => ErrorKind::EmptyWorkbook,
            Error::SheetNotFound(_) => ErrorKind::SheetNotFound,
            Error::SheetIndexOutOfRange { .. } => ErrorKind::SheetIndexOutOfRange,
            Error::NoMatch => ErrorKind::NoMatch,
            Error::InvalidPattern(_) => ErrorKind::InvalidPattern,
            Error::RowTooLong => ErrorKind::RowTooLong,
        }
    }

    /// The text that describes the failure.
    pub fn message(&self) -> (text: String)
        ensures
            text@ == self.message_of(),
    {
        match self {
            Error::MalformedXml(detail) => "malformed XML: ".to_owned().concat(detail.as_str()),
            Error::MissingWorkbook => "the package has no workbook".to_owned(),
            Error::EmptyWorkbook => "no sheets found in workbook".to_owned(),
            Error::SheetNotFound(name) => "cannot find sheet ".to_owned().concat(name.as_str()),
            Error::SheetIndexOutOfRange { index, count } => {
                let mut text = "sheet index ".to_owned();
                text.append(decimal_string(*index).as_str());
                text.append(" is out of range 1-");
                text.append(decimal_string(*count).as_str());
                text
            },
            Error::NoMatch => "no sheet matches the selection".to_owned(),
            Error::InvalidPattern(pattern) => "invalid pattern: ".to_owned().concat(
                pattern.as_str(),
            ),
            Error::RowTooLong => "a row has too many cells".to_owned(),
        }
    }
}

/// Whether an outcome is the one that the model gives.
pub open spec fn agrees<T: DeepView>(outcome: Result<T, Error>, model: Result<T::V, ErrorKind>) -> bool {
    match model {
        Ok(value) => outcome matches Ok(got) && got.deep_view() == value,
        Err(kind) => outcome matches Err(error) && error.kind_of() == kind,
    }
}

} // verus!
