//! Cell types, the resolution of a cell's raw text to its value, and the
//! treatment of line breaks and tabs in values.

use crate::text::{chars_of, parse_index, parse_usize, str_eq, string_of, trim_bounds, trimmed};
use vstd::prelude::*;

verus! {

/// How a cell's raw text is to be read.
#[derive(Clone, Copy, Debug, PartialEq, Eq, Structural)]
pub enum CellType {
    /// The text is an index into the shared strings.
    SharedString,
    InlineStr,
    Bool,
    Number,
    Error,
    PlainStr,
}

/// The cell type that a `t` attribute names; `Number` for any unknown name.
pub open spec fn cell_type_of(code: Seq<char>) -> CellType {
    if code == "s"@ {
        CellType::SharedString
    } else if code == "b"@ {
        CellType::Bool
    } else if code == "inlineStr"@ {
        CellType::InlineStr
    } else if code == "str"@ {
        CellType::PlainStr
    } else if code == "e"@ {
        CellType::Error
    } else {
        CellType::Number
    }
}

/// The cell type that a `t` attribute names.
pub fn cell_type(code: &str) -> (t: CellType)
    ensures
        t == cell_type_of(code@),
{
    if str_eq(code, "s") {
        CellType::SharedString
    } else if str_eq(code, "b") {
        CellType::Bool
    } else if str_eq(code, "inlineStr") {
        CellType::InlineStr
    } else if str_eq(code, "str") {
        CellType::PlainStr
    } else if str_eq(code, "e") {
        CellType::Error
    } else {
        CellType::Number
    }
}

/// The shared string at `index`; empty where the table is shorter.
pub open spec fn shared_at(shared: Seq<Seq<char>>, index: nat) -> Seq<char> {
    if index < shared.len() {
        shared[index as int]
    } else {
        Seq::empty()
    }
}

/// The value of a cell of type `cell_type` with raw text `raw`.
///
/// A shared-string cell holds an index: its value is the shared string at
/// that index, and the raw text itself where the trimmed text is no index.
/// A boolean cell reads `1` as `true` and `0` as `false`, and gives any other
/// text trimmed. Every other cell has its raw text as its value.
pub open spec fn resolved(cell_type: CellType, raw: Seq<char>, shared: Seq<Seq<char>>) -> Seq<char> {
    match cell_type {
        CellType::SharedString => match parse_index(trimmed(raw)) {
            Some(index) => shared_at(shared, index),
            None => raw,
        },
        CellType::Bool => {
            let flag = trimmed(raw);
            if flag == "1"@ {
                "true"@
            } else if flag == "0"@ {
                "false"@
            } else {
                flag
            }
        },
        _ => raw,
    }
}

/// The value of a cell of type `cell_type` with raw text `raw`.
pub fn resolve_value(cell_type: CellType, raw: String, shared: &Vec<String>) -> (value: String)
    ensures
        value@ == resolved(cell_type, raw@, shared.deep_view()),
{
    match cell_type {
        CellType::SharedString => {
            let chars = chars_of(raw.as_str());
            let (from, to) = trim_bounds(&chars);
            match parse_usize(&chars, from, to) {
                Some(index) => {
                    if index < shared.len() {
                        shared[index].clone()
                    } else {
                        String::new()
                    }
                },
                None => raw,
            }
        },
        CellType::Bool => {
            let chars = chars_of(raw.as_str());
            let (from, to) = trim_bounds(&chars);
            let flag = string_of(&chars, from, to);
            if str_eq(flag.as_str(), "1") {
                "true".to_owned()
            } else if str_eq(flag.as_str(), "0") {
                "false".to_owned()
            } else {
                flag
            }
        },
        _ => raw,
    }
}

/// The value of a shared-string cell is decided by the index that its text
/// denotes: two texts that denote the same index resolve to the same string,
/// however they are written.
pub proof fn lemma_shared_index_decides(first: Seq<char>, second: Seq<char>, shared: Seq<Seq<char>>)
    requires
        parse_index(trimmed(first)) is Some,
        parse_index(trimmed(first)) == parse_index(trimmed(second)),
    ensures
        resolved(CellType::SharedString, first, shared) == resolved(
            CellType::SharedString,
            second,
            shared,
        ),
{
}

/// An index beyond the shared strings resolves to the empty string.
pub proof fn lemma_shared_index_out_of_range(raw: Seq<char>, shared: Seq<Seq<char>>)
    requires
        parse_index(trimmed(raw)) matches Some(index) && index >= shared.len(),
    ensures
        resolved(CellType::SharedString, raw, shared) == Seq::<char>::empty(),
{
}

/// A carriage return, a line feed or a tab.
pub open spec fn is_break(c: char) -> bool {
    c == '\r' || c == '\n' || c == '\t'
}

/// A character in escaped form: a backslash and a letter for a carriage
/// return, a line feed or a tab, the character itself otherwise.
pub open spec fn escaped_char(c: char) -> Seq<char> {
    if c == '\r' {
        seq!['\\', 'r']
    } else if c == '\n' {
        seq!['\\', 'n']
    } else if c == '\t' {
        seq!['\\', 't']
    } else {
        seq![c]
    }
}

/// `s` with each carriage return, line feed and tab in escaped form.
pub open spec fn escaped(s: Seq<char>) -> Seq<char>
    decreases s.len(),
{
    if s.len() == 0 {
        Seq::empty()
    } else {
        escaped(s.drop_last()) + escaped_char(s.last())
    }
}

/// `s` with each carriage return, line feed and tab replaced by a space.
pub open spec fn spaced(s: Seq<char>) -> Seq<char> {
    s.map_values(
        |c: char|
            if is_break(c) {
                ' '
            } else {
                c
            },
    )
}

/// A value under the chosen treatment of line breaks and tabs. Escaping
/// takes precedence over replacement by spaces.
pub open spec fn normalized(s: Seq<char>, escape: bool, no_line_breaks: bool) -> Seq<char> {
    if escape {
        escaped(s)
    } else if no_line_breaks {
        spaced(s)
    } else {
        s
    }
}

/// `value` under the chosen treatment of line breaks and tabs.
pub fn normalize(value: String, escape: bool, no_line_breaks: bool) -> (out: String)
    ensures
        out@ == normalized(value@, escape, no_line_breaks),
{
    if escape {
        let mut out = String::new();
        for c in it: value.as_str().chars()
            invariant
                it.seq() == value@,
                out@ == escaped(value@.take(it.index() as int)),
        {
            proof {
                let longer = value@.take(it.index() + 1);
                assert(longer.drop_last() =~= value@.take(it.index() as int));
                assert(longer.last() == c);
            }
            if c == '\r' {
                out.push('\\');
                out.push('r');
            } else if c == '\n' {
                out.push('\\');
                out.push('n');
            } else if c == '\t' {
                out.push('\\');
                out.push('t');
            } else {
                out.push(c);
            }
            assert(out@ =~= escaped(value@.take(it.index() as int)) + escaped_char(c));
        }
        assert(value@.take(value@.len() as int) =~= value@);
        out
    } else if no_line_breaks {
        let mut out = String::new();
        for c in it: value.as_str().chars()
            invariant
                it.seq() == value@,
                out@ == spaced(value@.take(it.index() as int)),
        {
            if c == '\r' || c == '\n' || c == '\t' {
                out.push(' ');
            } else {
                out.push(c);
            }
            assert(out@ =~= spaced(value@.take(it.index() + 1)));
        }
        assert(value@.take(value@.len() as int) =~= value@);
        out
    } else {
        value
    }
}

/// Escaped text holds no carriage return, line feed or tab.
pub proof fn lemma_escaped_has_no_break(s: Seq<char>)
    ensures
        forall|i: int| 0 <= i < escaped(s).len() ==> !is_break(#[trigger] escaped(s)[i]),
    decreases s.len(),
{
    if s.len() > 0 {
        let front = escaped(s.drop_last());
        let tail = escaped_char(s.last());
        lemma_escaped_has_no_break(s.drop_last());
        assert forall|i: int| 0 <= i < escaped(s).len() implies !is_break(
            #[trigger] escaped(s)[i],
        ) by {
            if i < front.len() {
                assert(escaped(s)[i] == front[i]);
            } else {
                assert(escaped(s)[i] == tail[i - front.len()]);
            }
        }
    }
}

/// Escaping leaves text without carriage returns, line feeds and tabs as it
/// is, whatever backslashes it holds.
pub proof fn lemma_escaped_without_break(s: Seq<char>)
    requires
        forall|i: int| 0 <= i < s.len() ==> !is_break(#[trigger] s[i]),
    ensures
        escaped(s) == s,
    decreases s.len(),
{
    if s.len() > 0 {
        let front = s.drop_last();
        assert forall|i: int| 0 <= i < front.len() implies !is_break(#[trigger] front[i]) by {
            assert(front[i] == s[i]);
        }
        lemma_escaped_without_break(front);
        assert(!is_break(s.last()));
        assert(escaped(s) =~= s);
    }
}

/// Escaping text that is already escaped changes nothing: no backslash is
/// escaped again.
pub proof fn lemma_escaped_twice(s: Seq<char>)
    ensures
        escaped(escaped(s)) == escaped(s),
{
    lemma_escaped_has_no_break(s);
    lemma_escaped_without_break(escaped(s));
}

} // verus!
