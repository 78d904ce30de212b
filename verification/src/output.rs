//! The records that a conversion writes, and their CSV text.

use csv::WriterBuilder;
use vstd::prelude::*;

verus! {

/// When a field is put in quotes.
#[derive(Clone, Copy, Debug, PartialEq, Eq, Structural)]
pub enum QuoteStyle {
    Always,
    /// Where the field holds a delimiter, a quote or a line break.
    Necessary,
    /// Where the field is no number.
    NonNumeric,
    Never,
}

/// What ends a record.
#[derive(Clone, Copy, Debug, PartialEq, Eq, Structural)]
pub enum Terminator {
    /// A carriage return and a line feed.
    CRLF,
    Any(u8),
}

/// The form of the CSV text.
#[derive(Clone, Copy, Debug)]
pub struct CsvFormat {
    pub delimiter: u8,
    pub quote_style: QuoteStyle,
    pub terminator: Terminator,
}

/// The text that `csv` writes for one record, terminator included; `None`
/// where it reports a failure.
pub uninterp spec fn csv_record(fields: Seq<Seq<char>>, format: CsvFormat) -> Option<Seq<u8>>;

/// `csv::Writer::write_record` on a writer into memory, built by
/// `csv::WriterBuilder` for `format` without headers and with records of any
/// length: the bytes that it writes for the record.
#[verifier::external_body]
fn write_record(fields: &Vec<String>, format: &CsvFormat) -> (line: Option<Vec<u8>>)
    ensures
        match line {
            Some(bytes) => csv_record(fields.deep_view(), *format) == Some(bytes@),
            None => csv_record(fields.deep_view(), *format) is None,
        },
{
    let mut builder = WriterBuilder::new();
    builder.has_headers(false).flexible(true).delimiter(format.delimiter);
    builder.quote_style(match format.quote_style {
        QuoteStyle::Always => csv::QuoteStyle::Always,
        QuoteStyle::Necessary => csv::QuoteStyle::Necessary,
        QuoteStyle::NonNumeric => csv::QuoteStyle::NonNumeric,
        QuoteStyle::Never => csv::QuoteStyle::Never,
    });
    builder.terminator(match format.terminator {
        Terminator::CRLF => csv::Terminator::CRLF,
        Terminator::Any(byte) => csv::Terminator::Any(byte),
    });
    let mut writer = builder.from_writer(Vec::new());
    writer.write_record(fields).ok()?;
    writer.into_inner().ok()
}

/// The CSV text of a sequence of records: the text of each, one after the
/// other; `None` where one of them cannot be written.
pub open spec fn csv_text(records: Seq<Seq<Seq<char>>>, format: CsvFormat) -> Option<Seq<u8>>
    decreases records.len(),
{
    if records.len() == 0 {
        Some(Seq::empty())
    } else {
        match (csv_text(records.drop_last(), format), csv_record(records.last(), format)) {
            (Some(front), Some(line)) => Some(front + line),
            _ => None,
        }
    }
}

impl Default for CsvFormat {
    /// Fields separated by commas, quoted where necessary, records ended by
    /// a line feed.
    fn default() -> (format: CsvFormat)
        ensures
            format.delimiter == 0x2c,
            format.quote_style == QuoteStyle::Necessary,
            format.terminator == Terminator::Any(0x0a),
    {
        CsvFormat {
            delimiter: 0x2c,
            quote_style: QuoteStyle::Necessary,
            terminator: Terminator::Any(0x0a),
        }
    }
}

/// The CSV text of `records`.
pub fn encode_records(records: &Vec<Vec<String>>, format: &CsvFormat) -> (text: Option<Vec<u8>>)
    ensures
        match text {
            Some(bytes) => csv_text(records.deep_view(), *format) == Some(bytes@),
            None => csv_text(records.deep_view(), *format) is None,
        },
{
    let mut text: Vec<u8> = Vec::new();
    let mut i: usize = 0;
    assert(records.deep_view().take(0) =~= Seq::empty());
    while i < records.len()
        invariant
            i <= records.len(),
            csv_text(records.deep_view().take(i as int), *format) == Some(text@),
        decreases records.len() - i,
    {
        proof {
            assert(records.deep_view().take(i + 1).drop_last() =~= records.deep_view().take(
                i as int,
            ));
            assert(records.deep_view().take(i + 1).last() == records@[i as int].deep_view());
        }
        match write_record(&records[i], format) {
            Some(mut line) => {
                text.append(&mut line);
            },
            None => {
                proof {
                    lemma_csv_text_fails(records.deep_view(), *format, i + 1);
                }
                return None;
            },
        }
        i += 1;
    }
    assert(records.deep_view().take(i as int) =~= records.deep_view());
    Some(text)
}

/// Where the first `n` records cannot be written, neither can all of them.
pub proof fn lemma_csv_text_fails(records: Seq<Seq<Seq<char>>>, format: CsvFormat, n: int)
    requires
        0 <= n <= records.len(),
        csv_text(records.take(n), format) is None,
    ensures
        csv_text(records, format) is None,
    decreases records.len() - n,
{
    if n == records.len() {
        assert(records.take(n) =~= records);
    } else {
        assert(records.drop_last().take(n) =~= records.take(n));
        lemma_csv_text_fails(records.drop_last(), format, n);
    }
}

/// The records of one sheet of a conversion: its rows, after a record that
/// holds the separator where the sheet is not the first and the separator
/// is not empty.
pub open spec fn records_of(position: nat, separator: Seq<char>, rows: Seq<Seq<Seq<char>>>) -> Seq<
    Seq<Seq<char>>,
> {
    if position > 0 && separator.len() > 0 {
        seq![seq![separator]] + rows
    } else {
        rows
    }
}

/// The records of the sheet that is converted as number `position`,
/// counted from 0.
pub fn sheet_records(position: usize, separator: &str, rows: Vec<Vec<String>>) -> (records: Vec<
    Vec<String>,
>)
    ensures
        records.deep_view() == records_of(position as nat, separator@, rows.deep_view()),
{
    if position > 0 && !separator.is_empty() {
        let mut first: Vec<String> = Vec::new();
        first.push(separator.to_owned());
        assert(first.deep_view() =~= seq![separator@]);
        let mut records: Vec<Vec<String>> = Vec::new();
        records.push(first);
        assert(records.deep_view() =~= seq![seq![separator@]]);
        let mut rows = rows;
        let ghost head = records.deep_view();
        let ghost tail = rows.deep_view();
        records.append(&mut rows);
        assert(records.deep_view() =~= head + tail);
        records
    } else {
        rows
    }
}

} // verus!
