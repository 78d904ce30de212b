//! Cell addressing and the placement of cell values in a row.

use vstd::prelude::*;
use vstd::std_specs::iter::IteratorSpec;

verus! {

/// An ASCII letter, of either case.
pub open spec fn is_letter(c: char) -> bool {
    (0x41 <= c as u32 <= 0x5a) || (0x61 <= c as u32 <= 0x7a)
}

/// The value of a letter in a column name: 1 for `A` or `a`, 26 for `Z` or `z`.
pub open spec fn letter_value(c: char) -> nat
    recommends
        is_letter(c),
{
    if c as u32 >= 0x61 {
        (c as u32 - 0x60) as nat
    } else {
        (c as u32 - 0x40) as nat
    }
}

/// How many letters a cell reference starts with.
pub open spec fn letter_prefix_len(reference: Seq<char>) -> nat
    decreases reference.len(),
{
    if reference.len() > 0 && is_letter(reference[0]) {
        1 + letter_prefix_len(reference.drop_first())
    } else {
        0
    }
}

/// The number that a column name denotes in base 26 with digits 1 to 26:
/// `A` is 1, `Z` is 26, `AA` is 27.
pub open spec fn column_number(letters: Seq<char>) -> nat
    decreases letters.len(),
{
    if letters.len() == 0 {
        0
    } else {
        26 * column_number(letters.drop_last()) + letter_value(letters.last())
    }
}

/// The zero-based column that a cell reference addresses: the number of its
/// leading letters, less one; `None` where it starts with no letter.
pub open spec fn column_of(reference: Seq<char>) -> Option<nat> {
    let n = letter_prefix_len(reference);
    if n == 0 {
        None
    } else {
        Some((column_number(reference.take(n as int)) - 1) as nat)
    }
}

/// A reference that starts with the letters `letters`, followed by the end or
/// by a character that is no letter, has exactly these as its letter prefix.
pub proof fn lemma_letter_prefix(letters: Seq<char>, rest: Seq<char>)
    requires
        forall|i: int| 0 <= i < letters.len() ==> is_letter(#[trigger] letters[i]),
        rest.len() == 0 || !is_letter(rest[0]),
    ensures
        letter_prefix_len(letters + rest) == letters.len(),
        (letters + rest).take(letters.len() as int) == letters,
    decreases letters.len(),
{
    let whole = letters + rest;
    assert(whole.take(letters.len() as int) =~= letters);
    if letters.len() == 0 {
        assert(whole =~= rest);
    } else {
        assert(whole[0] == letters[0]);
        assert(whole.drop_first() =~= letters.drop_first() + rest);
        lemma_letter_prefix(letters.drop_first(), rest);
    }
}

/// A column name of at least one letter denotes a number of at least 1.
pub proof fn lemma_column_number_positive(letters: Seq<char>)
    requires
        letters.len() > 0,
        forall|i: int| 0 <= i < letters.len() ==> is_letter(#[trigger] letters[i]),
    ensures
        column_number(letters) >= 1,
{
    assert(is_letter(letters.last()));
}

/// The column of a cell reference as a machine index: a column beyond
/// `usize::MAX - 1` is given as `usize::MAX - 1`.
pub open spec fn column_index_of(reference: Seq<char>) -> Option<usize> {
    match column_of(reference) {
        None => None,
        Some(c) => Some(
            if c < usize::MAX {
                c as usize
            } else {
                (usize::MAX - 1) as usize
            },
        ),
    }
}

/// The column that `cell_ref` addresses, `None` where it starts with no
/// letter.
pub fn column_index(cell_ref: &str) -> (col: Option<usize>)
    ensures
        col == column_index_of(cell_ref@),
{
    let mut it = cell_ref.chars();
    let ghost mut letters: Seq<char> = Seq::empty();
    let mut number: usize = 0;
    assert(letters + it.remaining() =~= cell_ref@);
    loop
        invariant_except_break
            it.obeys_prophetic_iter_laws(),
            it.decrease() is Some,
            letters + it.remaining() == cell_ref@,
            forall|i: int| 0 <= i < letters.len() ==> is_letter(#[trigger] letters[i]),
            number == if column_number(letters) < usize::MAX {
                column_number(letters)
            } else {
                usize::MAX as nat
            },
        ensures
            forall|i: int| 0 <= i < letters.len() ==> is_letter(#[trigger] letters[i]),
            letter_prefix_len(cell_ref@) == letters.len(),
            cell_ref@.take(letters.len() as int) == letters,
            number == if column_number(letters) < usize::MAX {
                column_number(letters)
            } else {
                usize::MAX as nat
            },
        decreases it.decrease()->0,
    {
        let ghost rest = it.remaining();
        match it.next() {
            Some(c) => {
                let code = c as u32;
                let upper = 0x41 <= code && code <= 0x5a;
                let lower = 0x61 <= code && code <= 0x7a;
                if !(upper || lower) {
                    proof {
                        lemma_letter_prefix(letters, rest);
                    }
                    break;
                }
                let digit: usize = if lower {
                    (code - 0x60) as usize
                } else {
                    (code - 0x40) as usize
                };
                proof {
                    let longer = letters.push(c);
                    assert(longer.drop_last() =~= letters);
                    assert(longer + it.remaining() =~= letters + rest);
                    letters = longer;
                }
                if number > (usize::MAX - digit) / 26 {
                    number = usize::MAX;
                } else {
                    number = number * 26 + digit;
                }
            },
            None => {
                proof {
                    lemma_letter_prefix(letters, rest);
                }
                break;
            },
        }
    }
    if number == 0 {
        proof {
            if letters.len() > 0 {
                lemma_column_number_positive(letters);
            }
        }
        None
    } else {
        Some(number - 1)
    }
}

/// The position at which a cell is placed: its explicit column, or else the
/// end of the row.
pub open spec fn target_index(row_len: nat, col: Option<usize>) -> nat {
    match col {
        Some(c) => c as nat,
        None => row_len,
    }
}

/// A row after `value` is placed at position `idx`: the row grows with empty
/// cells up to `idx` where it is shorter.
pub open spec fn placed(row: Seq<Seq<char>>, idx: nat, value: Seq<char>) -> Seq<Seq<char>> {
    if idx < row.len() {
        row.update(idx as int, value)
    } else {
        (row + Seq::new((idx - row.len()) as nat, |i: int| Seq::<char>::empty())).push(value)
    }
}

/// Puts `value` at column `col_idx` of `row`, or at the end of `row` where
/// no column is given.
pub fn place_cell(row: &mut Vec<String>, col_idx: Option<usize>, value: String)
    requires
        target_index(old(row).len() as nat, col_idx) < usize::MAX,
    ensures
        final(row).deep_view() == placed(
            old(row).deep_view(),
            target_index(old(row).len() as nat, col_idx),
            value@,
        ),
{
    let idx = match col_idx {
        Some(c) => c,
        None => row.len(),
    };
    let ghost before = row.deep_view();
    assert(before =~= before + Seq::new(0, |i: int| Seq::<char>::empty()));
    while row.len() <= idx
        invariant
            idx < usize::MAX,
            before.len() <= row.len(),
            row.len() > before.len() ==> row.len() <= idx + 1,
            row.deep_view() == before + Seq::new(
                (row.len() - before.len()) as nat,
                |i: int| Seq::<char>::empty(),
            ),
        decreases idx + 1 - row.len(),
    {
        let ghost shorter = row.deep_view();
        row.push(String::new());
        assert(row.deep_view() =~= shorter.push(Seq::<char>::empty()));
    }
    let ghost grown = row.deep_view();
    row[idx] = value;
    assert(row.deep_view() =~= grown.update(idx as int, value@));
    assert(grown.update(idx as int, value@) =~= placed(before, idx as nat, value@));
}

/// After a placement the row reaches just past the placed position, unless
/// it was longer before; the placed position holds the value, the positions
/// that the row had before keep theirs, and the positions between are empty.
pub proof fn lemma_placed(row: Seq<Seq<char>>, idx: nat, value: Seq<char>)
    ensures
        placed(row, idx, value).len() == if idx < row.len() {
            row.len()
        } else {
            idx + 1
        },
        placed(row, idx, value)[idx as int] == value,
        forall|i: int| 0 <= i < row.len() && i != idx ==> placed(row, idx, value)[i] == row[i],
        forall|i: int| row.len() <= i < idx ==> placed(row, idx, value)[i] == Seq::<char>::empty(),
{
}

/// A reference made of a column name and a row number addresses the column
/// that the name denotes, counted from zero.
pub proof fn lemma_column_of_reference(letters: Seq<char>, digits: Seq<char>)
    requires
        letters.len() > 0,
        forall|i: int| 0 <= i < letters.len() ==> is_letter(#[trigger] letters[i]),
        forall|i: int| 0 <= i < digits.len() ==> !is_letter(#[trigger] digits[i]),
    ensures
        column_number(letters) >= 1,
        column_of(letters + digits) == Some((column_number(letters) - 1) as nat),
{
    lemma_letter_prefix(letters, digits);
    lemma_column_number_positive(letters);
}

/// Whether every cell of `row` is the empty string.
pub open spec fn is_blank(row: Seq<Seq<char>>) -> bool {
    forall|i: int| 0 <= i < row.len() ==> (#[trigger] row[i]).len() == 0
}

/// How many empty cells `row` ends with.
pub open spec fn trailing_blanks(row: Seq<Seq<char>>) -> nat
    decreases row.len(),
{
    if row.len() > 0 && row.last().len() == 0 {
        1 + trailing_blanks(row.drop_last())
    } else {
        0
    }
}

/// `row` without the empty cells at its end.
pub open spec fn without_trailing_blanks(row: Seq<Seq<char>>) -> Seq<Seq<char>> {
    row.take(row.len() - trailing_blanks(row))
}

/// The trailing empty cells are part of the row; before them stands a cell
/// that is not empty, or nothing.
pub proof fn lemma_trailing_blanks(row: Seq<Seq<char>>)
    ensures
        trailing_blanks(row) <= row.len(),
        forall|i: int| row.len() - trailing_blanks(row) <= i < row.len() ==> (#[trigger] row[i]).len() == 0,
        trailing_blanks(row) < row.len() ==> row[row.len() - trailing_blanks(row) - 1].len() > 0,
    decreases row.len(),
{
    if row.len() > 0 && row.last().len() == 0 {
        let front = row.drop_last();
        lemma_trailing_blanks(front);
        assert forall|i: int| row.len() - trailing_blanks(row) <= i < row.len() implies (
        #[trigger] row[i]).len() == 0 by {
            if i < front.len() {
                assert(front[i] == row[i]);
            }
        }
        if trailing_blanks(row) < row.len() {
            assert(front[front.len() - trailing_blanks(front) - 1] == row[row.len()
                - trailing_blanks(row) - 1]);
        }
    }
}

/// Whether every cell of `row` is the empty string.
pub fn row_is_blank(row: &Vec<String>) -> (blank: bool)
    ensures
        blank == is_blank(row.deep_view()),
{
    let mut i: usize = 0;
    while i < row.len()
        invariant
            i <= row.len(),
            forall|j: int| 0 <= j < i ==> (#[trigger] row.deep_view()[j]).len() == 0,
        decreases row.len() - i,
    {
        if !row[i].as_str().is_empty() {
            assert(row.deep_view()[i as int].len() > 0);
            return false;
        }
        i += 1;
    }
    true
}

/// A copy of `row` without the empty cells at its end.
pub fn trim_trailing(row: &Vec<String>) -> (out: Vec<String>)
    ensures
        out.deep_view() == without_trailing_blanks(row.deep_view()),
{
    let mut keep: usize = row.len();
    while keep > 0 && row[keep - 1].as_str().is_empty()
        invariant
            keep <= row.len(),
            forall|j: int| keep <= j < row.len() ==> (#[trigger] row.deep_view()[j]).len() == 0,
        decreases keep,
    {
        keep -= 1;
    }
    proof {
        let view = row.deep_view();
        lemma_trailing_blanks(view);
        let n = view.len() - trailing_blanks(view);
        if n < keep {
            assert(view[keep - 1].len() > 0);
        }
        if n > keep {
            assert(view[n - 1].len() > 0);
        }
    }
    copy_cells(row, keep)
}

/// A copy of the first `count` cells of `row`.
pub fn copy_cells(row: &Vec<String>, count: usize) -> (out: Vec<String>)
    requires
        count <= row.len(),
    ensures
        out.deep_view() == row.deep_view().take(count as int),
{
    let mut out: Vec<String> = Vec::new();
    let mut i: usize = 0;
    while i < count
        invariant
            i <= count <= row.len(),
            out.deep_view() == row.deep_view().take(i as int),
        decreases count - i,
    {
        let ghost before = out.deep_view();
        let cell = row[i].clone();
        assert(cell@ == row.deep_view()[i as int]);
        out.push(cell);
        assert(out.deep_view() =~= before.push(cell@));
        assert(out.deep_view() =~= row.deep_view().take(i + 1));
        i += 1;
    }
    assert(out.deep_view() =~= row.deep_view().take(count as int));
    out
}

} // verus!
