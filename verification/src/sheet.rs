//! The decoding of one worksheet: from its XML events to rows of cell values.

use crate::cell::{
    column_index, column_index_of, copy_cells, is_blank, lemma_placed, lemma_trailing_blanks,
    place_cell, placed, row_is_blank, target_index, trim_trailing, without_trailing_blanks,
};
use crate::error::{agrees, Error, ErrorKind};
use crate::value::{
    cell_type, cell_type_of, normalize, normalized, resolve_value, resolved, CellType,
};
use crate::xml::{
    attribute_pair, document_stream, events_view, is_tag, names, next_event, open_reader, pair_of,
    pending, AttributeView, Element, ElementView, XmlEvent, XmlEventView, XmlStream,
};
use vstd::prelude::*;
use vstd::string::StringExecFns;

verus! {

/// How rows and values are to be emitted.
#[derive(Clone, Copy, Debug)]
pub struct SheetOptions {
    /// Drop a row whose cells are all empty.
    pub skip_empty_rows: bool,
    /// Drop the empty cells at the end of a row.
    pub trim_trailing: bool,
    /// Write carriage returns, line feeds and tabs in escaped form.
    pub escape: bool,
    /// Replace carriage returns, line feeds and tabs by spaces.
    pub no_line_breaks: bool,
}

impl Default for SheetOptions {
    /// Every row and every cell as it is read.
    fn default() -> (options: SheetOptions)
        ensures
            !options.skip_empty_rows,
            !options.trim_trailing,
            !options.escape,
            !options.no_line_breaks,
    {
        SheetOptions {
            skip_empty_rows: false,
            trim_trailing: false,
            escape: false,
            no_line_breaks: false,
        }
    }
}

/// What a cell's start tag says of the cell.
#[derive(Clone, Copy, Debug)]
pub struct CellAttributes {
    pub cell_type: CellType,
    pub col: Option<usize>,
}

/// What a cell's tag says of the cell: its type by the attribute `t`, a
/// number where it has none; its column by the reference in the attribute
/// `r`; `None` where the attributes are malformed.
pub open spec fn cell_attributes_of(attributes: Option<Seq<AttributeView>>) -> Option<
    CellAttributes,
> {
    match pair_of(attributes, "t", "r") {
        Some((code, reference)) => Some(
            CellAttributes {
                cell_type: match code {
                    Some(c) => cell_type_of(c),
                    None => CellType::Number,
                },
                col: match reference {
                    Some(r) => column_index_of(r),
                    None => None,
                },
            },
        ),
        None => None,
    }
}

/// What a cell's tag says of the cell.
pub fn cell_attributes(element: &Element) -> (found: Option<CellAttributes>)
    ensures
        found == cell_attributes_of(element@.attributes),
{
    match attribute_pair(element, "t", "r") {
        Some(pair) => Some(
            CellAttributes {
                cell_type: match pair.first {
                    Some(code) => cell_type(code.as_str()),
                    None => CellType::Number,
                },
                col: match pair.second {
                    Some(reference) => column_index(reference.as_str()),
                    None => None,
                },
            },
        ),
        None => None,
    }
}

/// The state of the decoder between two events.
pub struct SheetDecoder {
    /// The cells of the current row.
    pub row: Vec<String>,
    /// The raw text of the current cell.
    pub value: String,
    /// The column of the current cell, where its reference names one.
    pub col: Option<usize>,
    pub cell_type: CellType,
    /// Inside a value tag.
    pub in_value: bool,
    /// Inside an inline-string block.
    pub in_inline: bool,
    /// Inside a phonetic hint, whose text is left out.
    pub in_phonetic: bool,
    /// The rows emitted so far.
    pub rows: Vec<Vec<String>>,
}

/// The state of the decoder as a value of the model.
pub struct SheetState {
    pub row: Seq<Seq<char>>,
    pub value: Seq<char>,
    pub col: Option<usize>,
    pub cell_type: CellType,
    pub in_value: bool,
    pub in_inline: bool,
    pub in_phonetic: bool,
    pub rows: Seq<Seq<Seq<char>>>,
}

impl View for SheetDecoder {
    type V = SheetState;

    open spec fn view(&self) -> SheetState {
        SheetState {
            row: self.row.deep_view(),
            value: self.value@,
            col: self.col,
            cell_type: self.cell_type,
            in_value: self.in_value,
            in_inline: self.in_inline,
            in_phonetic: self.in_phonetic,
            rows: self.rows.deep_view(),
        }
    }
}

/// The state before the first event.
pub open spec fn initial_state() -> SheetState {
    SheetState {
        row: Seq::empty(),
        value: Seq::empty(),
        col: None,
        cell_type: CellType::Number,
        in_value: false,
        in_inline: false,
        in_phonetic: false,
        rows: Seq::empty(),
    }
}

/// The record that a finished row gives: none for a row of empty cells where
/// such rows are skipped; else the row, without its trailing empty cells
/// where these are trimmed.
pub open spec fn emitted(row: Seq<Seq<char>>, options: SheetOptions) -> Option<Seq<Seq<char>>> {
    if options.skip_empty_rows && is_blank(row) {
        None
    } else if options.trim_trailing {
        Some(without_trailing_blanks(row))
    } else {
        Some(row)
    }
}

/// The state after a cell value is placed at `col`, or at the end of the row
/// where `col` is `None`.
pub open spec fn with_cell(state: SheetState, col: Option<usize>, value: Seq<char>) -> Result<
    SheetState,
    ErrorKind,
> {
    let idx = target_index(state.row.len(), col);
    if idx < usize::MAX {
        Ok(SheetState { row: placed(state.row, idx, value), ..state })
    } else {
        Err(ErrorKind::RowTooLong)
    }
}

/// Whether character data belongs to the current cell's text.
pub open spec fn collects_text(state: SheetState) -> bool {
    (state.in_value || state.in_inline) && !state.in_phonetic
}

/// The state after a start tag.
pub open spec fn after_start(state: SheetState, name: Seq<u8>, attributes: Option<Seq<AttributeView>>) -> Result<
    SheetState,
    ErrorKind,
> {
    if names(name, "row") {
        Ok(SheetState { row: Seq::empty(), ..state })
    } else if names(name, "c") {
        match cell_attributes_of(attributes) {
            Some(cell) => Ok(
                SheetState {
                    value: Seq::empty(),
                    col: cell.col,
                    cell_type: cell.cell_type,
                    in_value: false,
                    in_inline: false,
                    in_phonetic: false,
                    ..state
                },
            ),
            None => Err(ErrorKind::MalformedXml),
        }
    } else if names(name, "v") {
        Ok(SheetState { in_value: true, ..state })
    } else if names(name, "is") {
        Ok(SheetState { in_inline: true, ..state })
    } else if names(name, "rPh") {
        Ok(SheetState { in_phonetic: true, ..state })
    } else {
        Ok(state)
    }
}

/// The state after a self-closing tag: an empty cell puts the empty string
/// at its own column.
pub open spec fn after_empty(state: SheetState, name: Seq<u8>, attributes: Option<Seq<AttributeView>>) -> Result<
    SheetState,
    ErrorKind,
> {
    if names(name, "c") {
        match cell_attributes_of(attributes) {
            Some(cell) => with_cell(state, cell.col, Seq::empty()),
            None => Err(ErrorKind::MalformedXml),
        }
    } else {
        Ok(state)
    }
}

/// The state after an end tag.
pub open spec fn after_end(
    state: SheetState,
    name: Seq<u8>,
    shared: Seq<Seq<char>>,
    options: SheetOptions,
) -> Result<SheetState, ErrorKind> {
    if names(name, "row") {
        match emitted(state.row, options) {
            Some(record) => Ok(SheetState { rows: state.rows.push(record), ..state }),
            None => Ok(state),
        }
    } else if names(name, "c") {
        with_cell(
            state,
            state.col,
            normalized(
                resolved(state.cell_type, state.value, shared),
                options.escape,
                options.no_line_breaks,
            ),
        )
    } else if names(name, "v") {
        Ok(SheetState { in_value: false, ..state })
    } else if names(name, "is") {
        Ok(SheetState { in_inline: false, ..state })
    } else if names(name, "rPh") {
        Ok(SheetState { in_phonetic: false, ..state })
    } else {
        Ok(state)
    }
}

/// The state after one event.
pub open spec fn step_of(
    state: SheetState,
    event: XmlEventView,
    shared: Seq<Seq<char>>,
    options: SheetOptions,
) -> Result<SheetState, ErrorKind> {
    match event {
        XmlEventView::Start(element) => after_start(state, element.name, element.attributes),
        XmlEventView::Empty(element) => after_empty(state, element.name, element.attributes),
        XmlEventView::End(name) => after_end(state, name, shared, options),
        XmlEventView::Text(text) => if collects_text(state) {
            match text {
                Some(t) => Ok(SheetState { value: state.value + t, ..state }),
                None => Err(ErrorKind::MalformedXml),
            }
        } else {
            Ok(state)
        },
        XmlEventView::CData(text) => if collects_text(state) {
            Ok(SheetState { value: state.value + text, ..state })
        } else {
            Ok(state)
        },
        XmlEventView::Other => Ok(state),
    }
}

/// The state after a sequence of events, or the first failure.
pub open spec fn run_of(
    state: SheetState,
    events: Seq<XmlEventView>,
    shared: Seq<Seq<char>>,
    options: SheetOptions,
) -> Result<SheetState, ErrorKind>
    decreases events.len(),
{
    if events.len() == 0 {
        Ok(state)
    } else {
        match step_of(state, events[0], shared, options) {
            Ok(next) => run_of(next, events.drop_first(), shared, options),
            Err(kind) => Err(kind),
        }
    }
}

/// The rows that a decoder in `state` gives for the rest of a document: the
/// rows emitted when its events are through, where none of them fails and
/// the document ends cleanly.
pub open spec fn rows_from(
    state: SheetState,
    stream: XmlStream,
    shared: Seq<Seq<char>>,
    options: SheetOptions,
) -> Result<Seq<Seq<Seq<char>>>, ErrorKind> {
    match run_of(state, stream.events, shared, options) {
        Ok(last) => if stream.complete {
            Ok(last.rows)
        } else {
            Err(ErrorKind::MalformedXml)
        },
        Err(kind) => Err(kind),
    }
}

/// A self-closing cell puts the empty string at its own position: at the
/// column of its reference, or at the end of the row where it has none. The
/// row reaches at least just past that position, every other cell that the
/// row had keeps its value, and nothing else in the state changes, so that
/// the cells that follow are placed by their own references.
pub proof fn lemma_empty_cell(
    state: SheetState,
    element: ElementView,
    shared: Seq<Seq<char>>,
    options: SheetOptions,
)
    requires
        names(element.name, "c"),
        cell_attributes_of(element.attributes) is Some,
        target_index(state.row.len(), cell_attributes_of(element.attributes)->0.col) < usize::MAX,
    ensures
        ({
            let idx = target_index(state.row.len(), cell_attributes_of(element.attributes)->0.col) as int;
            &&& step_of(state, XmlEventView::Empty(element), shared, options) matches Ok(next)
            &&& next == SheetState { row: next.row, ..state }
            &&& next.row.len() == if idx < state.row.len() {
                state.row.len() as int
            } else {
                idx + 1
            }
            &&& next.row[idx] == Seq::<char>::empty()
            &&& forall|i: int| 0 <= i < state.row.len() && i != idx ==> next.row[i] == state.row[i]
            &&& forall|i: int| state.row.len() <= i < idx ==> next.row[i] == Seq::<char>::empty()
        }),
{
    let idx = target_index(state.row.len(), cell_attributes_of(element.attributes)->0.col);
    lemma_placed(state.row, idx, Seq::empty());
}

/// A list of cells as they are placed in a row, each with its column if its
/// reference names one.
pub type Placements = Seq<(Option<usize>, Seq<char>)>;

/// The row that holds the cells of `cells`, placed in order in an empty row.
pub open spec fn row_of(cells: Placements) -> Seq<Seq<char>>
    decreases cells.len(),
{
    if cells.len() == 0 {
        Seq::empty()
    } else {
        let before = row_of(cells.drop_last());
        placed(before, target_index(before.len(), cells.last().0), cells.last().1)
    }
}

/// The position at which cell `i` of `cells` is placed.
pub open spec fn position_of(cells: Placements, i: int) -> nat
    recommends
        0 <= i < cells.len(),
{
    target_index(row_of(cells.take(i)).len(), cells[i].0)
}

/// A row is exactly one cell longer than the highest position at which a
/// cell was placed in it: every cell lies within the row, and one of them at
/// its end.
pub proof fn lemma_row_length(cells: Placements)
    requires
        cells.len() > 0,
    ensures
        forall|i: int| 0 <= i < cells.len() ==> #[trigger] position_of(cells, i) < row_of(cells).len(),
        exists|i: int| 0 <= i < cells.len() && #[trigger] position_of(cells, i) + 1 == row_of(cells).len(),
    decreases cells.len(),
{
    let front = cells.drop_last();
    let before = row_of(front);
    let last = cells.len() - 1;
    let idx = target_index(before.len(), cells.last().0);
    lemma_placed(before, idx, cells.last().1);
    assert(cells.take(last) =~= front);
    assert(position_of(cells, last) == idx);
    if front.len() == 0 {
        assert(position_of(cells, last) + 1 == row_of(cells).len());
    } else {
        lemma_row_length(front);
        assert forall|i: int| 0 <= i < front.len() implies position_of(cells, i) == position_of(
            front,
            i,
        ) by {
            assert(cells.take(i) =~= front.take(i));
        }
        assert forall|i: int| 0 <= i < cells.len() implies #[trigger] position_of(cells, i) < row_of(
            cells,
        ).len() by {
            if i < front.len() {
                assert(position_of(front, i) < before.len());
            }
        }
        if idx < before.len() {
            let top = choose|i: int|
                0 <= i < front.len() && #[trigger] position_of(front, i) + 1 == before.len();
            assert(position_of(cells, top) + 1 == row_of(cells).len());
        } else {
            assert(position_of(cells, last) + 1 == row_of(cells).len());
        }
    }
}

/// What is emitted of a row is the row up to some position: cells are taken
/// from its end only, and only empty ones, down to a cell that is not
/// empty. Without trimming the row is emitted whole.
pub proof fn lemma_emitted(row: Seq<Seq<char>>, options: SheetOptions)
    requires
        emitted(row, options) is Some,
    ensures
        ({
            let record = emitted(row, options)->0;
            &&& record.len() <= row.len()
            &&& record == row.take(record.len() as int)
            &&& forall|i: int| record.len() <= i < row.len() ==> (#[trigger] row[i]).len() == 0
            &&& !options.trim_trailing ==> record == row
            &&& options.trim_trailing && record.len() > 0 ==> record.last().len() > 0
        }),
{
    lemma_trailing_blanks(row);
    if !options.trim_trailing {
        assert(row.take(row.len() as int) =~= row);
    }
}

/// Whether every emitted row is what is emitted of a row of placed cells.
pub open spec fn rows_are_placed(rows: Seq<Seq<Seq<char>>>, options: SheetOptions) -> bool {
    forall|j: int|
        0 <= j < rows.len() ==> exists|cells: Placements|
            emitted(row_of(cells), options) == Some(#[trigger] rows[j])
}

/// Whether the current row and the emitted rows are made of placed cells.
pub open spec fn is_placed(state: SheetState, options: SheetOptions) -> bool {
    &&& exists|cells: Placements| state.row == #[trigger] row_of(cells)
    &&& rows_are_placed(state.rows, options)
}

/// One event keeps the rows made of placed cells.
pub proof fn lemma_step_keeps_placed(
    state: SheetState,
    event: XmlEventView,
    shared: Seq<Seq<char>>,
    options: SheetOptions,
)
    requires
        is_placed(state, options),
        step_of(state, event, shared, options) is Ok,
    ensures
        is_placed(step_of(state, event, shared, options)->Ok_0, options),
{
    let next = step_of(state, event, shared, options)->Ok_0;
    let cells = choose|cells: Placements| state.row == #[trigger] row_of(cells);
    if next.row != state.row {
        if next.row.len() == 0 {
            let none: Placements = Seq::empty();
            assert(next.row =~= row_of(none));
        } else {
            let cell: (Option<usize>, Seq<char>) = match event {
                XmlEventView::Empty(element) => (
                    cell_attributes_of(element.attributes)->0.col,
                    Seq::empty(),
                ),
                _ => (
                    state.col,
                    normalized(
                        resolved(state.cell_type, state.value, shared),
                        options.escape,
                        options.no_line_breaks,
                    ),
                ),
            };
            let more = cells.push(cell);
            assert(more.drop_last() =~= cells);
            assert(next.row == row_of(more));
        }
    } else {
        assert(next.row == row_of(cells));
    }
    if next.rows != state.rows {
        assert(next.rows == state.rows.push(emitted(state.row, options)->0));
        assert forall|j: int| 0 <= j < next.rows.len() implies exists|cells: Placements|
            emitted(row_of(cells), options) == Some(#[trigger] next.rows[j]) by {
            if j < state.rows.len() {
                assert(next.rows[j] == state.rows[j]);
            } else {
                assert(emitted(row_of(cells), options) == Some(next.rows[j]));
            }
        }
    }
}

/// A run of events keeps the rows made of placed cells.
pub proof fn lemma_run_keeps_placed(
    state: SheetState,
    events: Seq<XmlEventView>,
    shared: Seq<Seq<char>>,
    options: SheetOptions,
)
    requires
        is_placed(state, options),
        run_of(state, events, shared, options) is Ok,
    ensures
        is_placed(run_of(state, events, shared, options)->Ok_0, options),
    decreases events.len(),
{
    if events.len() > 0 {
        lemma_step_keeps_placed(state, events[0], shared, options);
        lemma_run_keeps_placed(
            step_of(state, events[0], shared, options)->Ok_0,
            events.drop_first(),
            shared,
            options,
        );
    }
}

/// Every row of a decoded sheet is what is emitted of a row of placed
/// cells: before trimming it is one cell longer than the highest position
/// at which a cell was placed, and trimming takes empty cells from its end
/// only.
pub proof fn lemma_rows_are_placed(stream: XmlStream, shared: Seq<Seq<char>>, options: SheetOptions)
    requires
        rows_from(initial_state(), stream, shared, options) is Ok,
    ensures
        rows_are_placed(rows_from(initial_state(), stream, shared, options)->Ok_0, options),
{
    let none: Placements = Seq::empty();
    assert(initial_state().row =~= row_of(none));
    lemma_run_keeps_placed(initial_state(), stream.events, shared, options);
}

impl SheetDecoder {
    /// A decoder before the first event.
    pub fn new() -> (decoder: SheetDecoder)
        ensures
            decoder@ == initial_state(),
    {
        let decoder = SheetDecoder {
            row: Vec::new(),
            value: String::new(),
            col: None,
            cell_type: CellType::Number,
            in_value: false,
            in_inline: false,
            in_phonetic: false,
            rows: Vec::new(),
        };
        assert(decoder.row.deep_view() =~= Seq::empty());
        assert(decoder.rows.deep_view() =~= Seq::empty());
        decoder
    }

    /// Places a cell value in the current row.
    fn put(&mut self, col: Option<usize>, value: String) -> (r: Result<(), Error>)
        ensures
            match with_cell(old(self)@, col, value@) {
                Ok(next) => r is Ok && final(self)@ == next,
                Err(kind) => r matches Err(error) && error.kind_of() == kind,
            },
    {
        let full = match col {
            Some(c) => c == usize::MAX,
            None => self.row.len() == usize::MAX,
        };
        if full {
            return Err(Error::RowTooLong);
        }
        place_cell(&mut self.row, col, value);
        Ok(())
    }

    /// Emits the current row.
    fn emit(&mut self, options: &SheetOptions)
        ensures
            final(self)@ == (match emitted(old(self)@.row, *options) {
                Some(record) => SheetState { rows: old(self)@.rows.push(record), ..old(self)@ },
                None => old(self)@,
            }),
    {
        if options.skip_empty_rows && row_is_blank(&self.row) {
            return ;
        }
        let record = if options.trim_trailing {
            trim_trailing(&self.row)
        } else {
            let all = copy_cells(&self.row, self.row.len());
            assert(self.row.deep_view().take(self.row.len() as int) =~= self.row.deep_view());
            all
        };
        let ghost before = self.rows.deep_view();
        self.rows.push(record);
        assert(self.rows.deep_view() =~= before.push(record.deep_view()));
    }

    /// Takes one event: the decoder moves to the next state, or fails and is
    /// of no further use.
    pub fn step(&mut self, event: &XmlEvent, shared: &Vec<String>, options: &SheetOptions) -> (r:
        Result<(), Error>)
        ensures
            match step_of(old(self)@, event@, shared.deep_view(), *options) {
                Ok(next) => r is Ok && final(self)@ == next,
                Err(kind) => r matches Err(error) && error.kind_of() == kind,
            },
    {
        match event {
            XmlEvent::Start(element) => {
                let name = element.name.as_slice();
                if is_tag(name, "row") {
                    self.row = Vec::new();
                    assert(self.row.deep_view() =~= Seq::empty());
                } else if is_tag(name, "c") {
                    match cell_attributes(element) {
                        Some(cell) => {
                            self.value = String::new();
                            self.col = cell.col;
                            self.cell_type = cell.cell_type;
                            self.in_value = false;
                            self.in_inline = false;
                            self.in_phonetic = false;
                        },
                        None => {
                            return Err(Error::MalformedXml("invalid attribute".to_owned()));
                        },
                    }
                } else if is_tag(name, "v") {
                    self.in_value = true;
                } else if is_tag(name, "is") {
                    self.in_inline = true;
                } else if is_tag(name, "rPh") {
                    self.in_phonetic = true;
                }
                Ok(())
            },
            XmlEvent::Empty(element) => {
                if is_tag(element.name.as_slice(), "c") {
                    match cell_attributes(element) {
                        Some(cell) => self.put(cell.col, String::new()),
                        None => Err(Error::MalformedXml("invalid attribute".to_owned())),
                    }
                } else {
                    Ok(())
                }
            },
            XmlEvent::End(name) => {
                let name = name.as_slice();
                if is_tag(name, "row") {
                    self.emit(options);
                    Ok(())
                } else if is_tag(name, "c") {
                    let mut raw = String::new();
                    core::mem::swap(&mut self.value, &mut raw);
                    let value = normalize(
                        resolve_value(self.cell_type, raw.clone(), shared),
                        options.escape,
                        options.no_line_breaks,
                    );
                    core::mem::swap(&mut self.value, &mut raw);
                    let col = self.col;
                    self.put(col, value)
                } else {
                    if is_tag(name, "v") {
                        self.in_value = false;
                    } else if is_tag(name, "is") {
                        self.in_inline = false;
                    } else if is_tag(name, "rPh") {
                        self.in_phonetic = false;
                    }
                    Ok(())
                }
            },
            XmlEvent::Text(text) => {
                if (self.in_value || self.in_inline) && !self.in_phonetic {
                    match text {
                        Some(t) => {
                            self.value.append(t.as_str());
                            Ok(())
                        },
                        None => Err(Error::MalformedXml("invalid character data".to_owned())),
                    }
                } else {
                    Ok(())
                }
            },
            XmlEvent::CData(text) => {
                if (self.in_value || self.in_inline) && !self.in_phonetic {
                    self.value.append(text.as_str());
                }
                Ok(())
            },
            XmlEvent::Other => Ok(()),
        }
    }
}

/// The rows that a sequence of events gives.
pub fn decode_events(events: &Vec<XmlEvent>, shared: &Vec<String>, options: &SheetOptions) -> (r:
    Result<Vec<Vec<String>>, Error>)
    ensures
        agrees(
            r,
            rows_from(
                initial_state(),
                XmlStream { events: events_view(events@), complete: true },
                shared.deep_view(),
                *options,
            ),
        ),
{
    let mut decoder = SheetDecoder::new();
    let ghost all = events_view(events@);
    let mut i: usize = 0;
    assert(all.skip(0) =~= all);
    while i < events.len()
        invariant
            i <= events.len(),
            all == events_view(events@),
            run_of(initial_state(), all, shared.deep_view(), *options) == run_of(
                decoder@,
                all.skip(i as int),
                shared.deep_view(),
                *options,
            ),
        decreases events.len() - i,
    {
        assert(all.skip(i as int)[0] == events@[i as int]@);
        assert(all.skip(i as int).drop_first() =~= all.skip(i + 1));
        match decoder.step(&events[i], shared, options) {
            Ok(()) => {},
            Err(error) => {
                return Err(error);
            },
        }
        i += 1;
    }
    Ok(decoder.rows)
}

/// The rows of the worksheet that `bytes` holds.
pub fn convert_sheet(bytes: &[u8], shared: &Vec<String>, options: &SheetOptions) -> (r: Result<
    Vec<Vec<String>>,
    Error,
>)
    ensures
        agrees(
            r,
            rows_from(
                initial_state(),
                document_stream(bytes@, false),
                shared.deep_view(),
                *options,
            ),
        ),
{
    let mut reader = open_reader(bytes, false);
    let mut decoder = SheetDecoder::new();
    loop
        invariant
            rows_from(
                initial_state(),
                document_stream(bytes@, false),
                shared.deep_view(),
                *options,
            ) == rows_from(decoder@, pending(reader), shared.deep_view(), *options),
        decreases pending(reader).events.len(),
    {
        match next_event(&mut reader) {
            Ok(Some(event)) => {
                match decoder.step(&event, shared, options) {
                    Ok(()) => {},
                    Err(error) => {
                        return Err(error);
                    },
                }
            },
            Ok(None) => {
                return Ok(decoder.rows);
            },
            Err(error) => {
                return Err(Error::MalformedXml(error.message));
            },
        }
    }
}

} // verus!
