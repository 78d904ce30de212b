//! The choice of the sheets to convert.

use crate::error::{Error, ErrorKind};
use crate::package::{SheetDescriptor, SheetDescriptorView};
use crate::text::str_eq;
use regex::Regex;
use vstd::prelude::*;

verus! {

/// Which sheets to convert.
#[derive(Debug)]
pub struct Selection {
    /// The sheets of exactly this name.
    pub sheet_name: Option<String>,
    /// The sheet at this position, counted from 1.
    pub sheet_index: Option<usize>,
    /// All sheets, in place of the first one.
    pub all_sheets: bool,
    /// Where not empty: only sheets whose name matches one of these patterns.
    pub including: Vec<String>,
    /// No sheet whose name matches one of these patterns.
    pub excluding: Vec<String>,
}

impl Default for Selection {
    /// The first sheet.
    fn default() -> (selection: Selection)
        ensures
            selection@ == (SelectionView {
                sheet_name: None,
                sheet_index: None,
                all_sheets: false,
                including: Seq::empty(),
                excluding: Seq::empty(),
            }),
    {
        let selection = Selection {
            sheet_name: None,
            sheet_index: None,
            all_sheets: false,
            including: Vec::new(),
            excluding: Vec::new(),
        };
        assert(selection.including.deep_view() =~= Seq::empty());
        assert(selection.excluding.deep_view() =~= Seq::empty());
        selection
    }
}

/// A selection as a value of the model.
pub struct SelectionView {
    pub sheet_name: Option<Seq<char>>,
    pub sheet_index: Option<usize>,
    pub all_sheets: bool,
    pub including: Seq<Seq<char>>,
    pub excluding: Seq<Seq<char>>,
}

impl View for Selection {
    type V = SelectionView;

    open spec fn view(&self) -> SelectionView {
        SelectionView {
            sheet_name: match self.sheet_name {
                Some(name) => Some(name@),
                None => None,
            },
            sheet_index: self.sheet_index,
            all_sheets: self.all_sheets,
            including: self.including.deep_view(),
            excluding: self.excluding.deep_view(),
        }
    }
}

/// Whether `regex` accepts `pattern` as a regular expression.
pub uninterp spec fn pattern_valid(pattern: Seq<char>) -> bool;

/// Whether the regular expression `pattern` matches somewhere in `text`.
pub uninterp spec fn pattern_found(pattern: Seq<char>, text: Seq<char>) -> bool;

/// `Regex::new` and `Regex::is_match`: whether `pattern` matches somewhere
/// in `text`, `None` where `pattern` is no regular expression.
#[verifier::external_body]
fn search(pattern: &str, text: &str) -> (found: Option<bool>)
    ensures
        found == if pattern_valid(pattern@) {
            Some(pattern_found(pattern@, text@))
        } else {
            None::<bool>
        },
{
    Regex::new(pattern).ok().map(|re| re.is_match(text))
}

/// Whether every pattern is a regular expression.
pub open spec fn all_valid(patterns: Seq<Seq<char>>) -> bool {
    forall|i: int| 0 <= i < patterns.len() ==> pattern_valid(#[trigger] patterns[i])
}

/// Whether `pattern` is the first of `patterns` that is no regular
/// expression.
pub open spec fn is_first_invalid(patterns: Seq<Seq<char>>, pattern: Seq<char>) -> bool {
    exists|i: int|
        0 <= i < patterns.len() && #[trigger] patterns[i] == pattern && !pattern_valid(pattern)
            && all_valid(patterns.take(i))
}

/// Whether one of the patterns matches somewhere in `name`.
pub open spec fn matches_any(patterns: Seq<Seq<char>>, name: Seq<char>) -> bool {
    exists|i: int| 0 <= i < patterns.len() && pattern_found(#[trigger] patterns[i], name)
}

/// Whether the patterns let a sheet of this name pass.
pub open spec fn passes(name: Seq<char>, including: Seq<Seq<char>>, excluding: Seq<Seq<char>>) -> bool {
    (including.len() == 0 || matches_any(including, name)) && !matches_any(excluding, name)
}

/// The sheets of a given name.
pub open spec fn named(name: Seq<char>) -> spec_fn(SheetDescriptorView) -> bool {
    |sheet: SheetDescriptorView| sheet.name == name
}

/// The sheets that the patterns let pass.
pub open spec fn passing(including: Seq<Seq<char>>, excluding: Seq<Seq<char>>) -> spec_fn(
    SheetDescriptorView,
) -> bool {
    |sheet: SheetDescriptorView| passes(sheet.name, including, excluding)
}

/// The sheets from which the patterns choose: all of them, or the first.
pub open spec fn candidates(sheets: Seq<SheetDescriptorView>, all_sheets: bool) -> Seq<
    SheetDescriptorView,
> {
    if all_sheets || sheets.len() == 0 {
        sheets
    } else {
        sheets.take(1)
    }
}

/// The sheets to convert, in the order of the workbook.
///
/// A requested name decides alone, then a requested index; without either,
/// the patterns choose among all sheets or the first one.
pub open spec fn selected(sheets: Seq<SheetDescriptorView>, selection: SelectionView) -> Result<
    Seq<SheetDescriptorView>,
    ErrorKind,
> {
    match selection.sheet_name {
        Some(name) => if sheets.filter(named(name)).len() == 0 {
            Err(ErrorKind::SheetNotFound)
        } else {
            Ok(sheets.filter(named(name)))
        },
        None => match selection.sheet_index {
            Some(index) => if 1 <= index <= sheets.len() {
                Ok(seq![sheets[index - 1]])
            } else {
                Err(ErrorKind::SheetIndexOutOfRange)
            },
            None => {
                let kept = candidates(sheets, selection.all_sheets).filter(
                    passing(selection.including, selection.excluding),
                );
                if !all_valid(selection.including) || !all_valid(selection.excluding) {
                    Err(ErrorKind::InvalidPattern)
                } else if kept.len() == 0 {
                    Err(ErrorKind::NoMatch)
                } else {
                    Ok(kept)
                }
            },
        },
    }
}

/// The position of the first pattern that is no regular expression.
pub fn first_invalid(patterns: &Vec<String>) -> (at: Option<usize>)
    ensures
        match at {
            Some(i) => i < patterns.len() && !pattern_valid(patterns.deep_view()[i as int])
                && all_valid(patterns.deep_view().take(i as int)),
            None => all_valid(patterns.deep_view()),
        },
{
    let mut i: usize = 0;
    while i < patterns.len()
        invariant
            i <= patterns.len(),
            all_valid(patterns.deep_view().take(i as int)),
        decreases patterns.len() - i,
    {
        if search(patterns[i].as_str(), "").is_none() {
            return Some(i);
        }
        assert forall|j: int| 0 <= j < i + 1 implies pattern_valid(
            #[trigger] patterns.deep_view().take(i + 1)[j],
        ) by {
            if j < i {
                assert(patterns.deep_view().take(i as int)[j] == patterns.deep_view().take(i + 1)[j]);
            }
        }
        i += 1;
    }
    assert(patterns.deep_view().take(i as int) =~= patterns.deep_view());
    None
}

/// Whether one of the patterns matches somewhere in `name`.
fn any_match(patterns: &Vec<String>, name: &str) -> (found: bool)
    requires
        all_valid(patterns.deep_view()),
    ensures
        found == matches_any(patterns.deep_view(), name@),
{
    let mut i: usize = 0;
    while i < patterns.len()
        invariant
            i <= patterns.len(),
            all_valid(patterns.deep_view()),
            forall|j: int| 0 <= j < i ==> !pattern_found(#[trigger] patterns.deep_view()[j], name@),
        decreases patterns.len() - i,
    {
        assert(pattern_valid(patterns.deep_view()[i as int]));
        match search(patterns[i].as_str(), name) {
            Some(true) => {
                assert(pattern_found(patterns.deep_view()[i as int], name@));
                return true;
            },
            _ => {},
        }
        i += 1;
    }
    false
}

/// The sheets of the name `name`.
fn sheets_named(sheets: &Vec<SheetDescriptor>, name: &str) -> (found: Vec<SheetDescriptor>)
    ensures
        found.deep_view() == sheets.deep_view().filter(named(name@)),
{
    let mut found: Vec<SheetDescriptor> = Vec::new();
    let mut i: usize = 0;
    proof {
        reveal(Seq::filter);
        assert(sheets.deep_view().take(0) =~= Seq::empty());
        assert(found.deep_view() =~= Seq::empty());
    }
    while i < sheets.len()
        invariant
            i <= sheets.len(),
            found.deep_view() == sheets.deep_view().take(i as int).filter(named(name@)),
        decreases sheets.len() - i,
    {
        let ghost before = found.deep_view();
        proof {
            reveal(Seq::filter);
            assert(sheets.deep_view().take(i + 1).drop_last() =~= sheets.deep_view().take(i as int));
            assert(sheets.deep_view().take(i + 1).last() == sheets@[i as int]@);
        }
        if str_eq(sheets[i].name.as_str(), name) {
            let sheet = sheets[i].clone();
            found.push(sheet);
            assert(found.deep_view() =~= before.push(sheet@));
        }
        i += 1;
    }
    assert(sheets.deep_view().take(i as int) =~= sheets.deep_view());
    found
}

/// The first `count` sheets that the patterns let pass.
fn sheets_passing(
    sheets: &Vec<SheetDescriptor>,
    count: usize,
    including: &Vec<String>,
    excluding: &Vec<String>,
) -> (kept: Vec<SheetDescriptor>)
    requires
        count <= sheets.len(),
        all_valid(including.deep_view()),
        all_valid(excluding.deep_view()),
    ensures
        kept.deep_view() == sheets.deep_view().take(count as int).filter(
            passing(including.deep_view(), excluding.deep_view()),
        ),
{
    let mut kept: Vec<SheetDescriptor> = Vec::new();
    let mut i: usize = 0;
    proof {
        reveal(Seq::filter);
        assert(sheets.deep_view().take(0) =~= Seq::empty());
        assert(kept.deep_view() =~= Seq::empty());
    }
    while i < count
        invariant
            i <= count <= sheets.len(),
            all_valid(including.deep_view()),
            all_valid(excluding.deep_view()),
            kept.deep_view() == sheets.deep_view().take(i as int).filter(
                passing(including.deep_view(), excluding.deep_view()),
            ),
        decreases count - i,
    {
        let ghost before = kept.deep_view();
        proof {
            reveal(Seq::filter);
            assert(sheets.deep_view().take(i + 1).drop_last() =~= sheets.deep_view().take(i as int));
            assert(sheets.deep_view().take(i + 1).last() == sheets@[i as int]@);
        }
        let name = sheets[i].name.as_str();
        let wanted = including.len() == 0 || any_match(including, name);
        if wanted && !any_match(excluding, name) {
            let sheet = sheets[i].clone();
            kept.push(sheet);
            assert(kept.deep_view() =~= before.push(sheet@));
        }
        i += 1;
    }
    kept
}

/// The sheets to convert.
pub fn select_sheets(sheets: &Vec<SheetDescriptor>, selection: &Selection) -> (r: Result<
    Vec<SheetDescriptor>,
    Error,
>)
    ensures
        match selected(sheets.deep_view(), selection@) {
            Ok(chosen) => r matches Ok(got) && got.deep_view() == chosen,
            Err(kind) => r matches Err(error) && error.kind_of() == kind,
        },
        r matches Err(Error::SheetNotFound(name)) ==> selection@.sheet_name == Some(name@),
        r matches Err(Error::SheetIndexOutOfRange { index, count }) ==> selection.sheet_index
            == Some(index) && count == sheets.len(),
        r matches Err(Error::InvalidPattern(pattern)) ==> is_first_invalid(
            selection@.including + selection@.excluding,
            pattern@,
        ),
{
    match &selection.sheet_name {
        Some(name) => {
            let found = sheets_named(sheets, name.as_str());
            if found.len() == 0 {
                Err(Error::SheetNotFound(name.clone()))
            } else {
                Ok(found)
            }
        },
        None => match selection.sheet_index {
            Some(index) => {
                if 1 <= index && index <= sheets.len() {
                    let sheet = sheets[index - 1].clone();
                    let mut one: Vec<SheetDescriptor> = Vec::new();
                    one.push(sheet);
                    assert(one.deep_view() =~= seq![sheets.deep_view()[index - 1]]);
                    Ok(one)
                } else {
                    Err(Error::SheetIndexOutOfRange { index, count: sheets.len() })
                }
            },
            None => {
                match first_invalid(&selection.including) {
                    Some(i) => {
                        proof {
                            let all = selection@.including + selection@.excluding;
                            assert(all[i as int] == selection.including@[i as int]@);
                            assert(all.take(i as int) =~= selection@.including.take(i as int));
                        }
                        return Err(Error::InvalidPattern(selection.including[i].clone()));
                    },
                    None => {},
                }
                match first_invalid(&selection.excluding) {
                    Some(i) => {
                        proof {
                            let all = selection@.including + selection@.excluding;
                            let at = selection@.including.len() + i;
                            assert(all[at] == selection.excluding@[i as int]@);
                            assert(all.take(at) =~= selection@.including
                                + selection@.excluding.take(i as int));
                            assert forall|j: int| 0 <= j < at implies pattern_valid(
                                #[trigger] all.take(at)[j],
                            ) by {
                                if j >= selection@.including.len() {
                                    assert(all.take(at)[j] == selection@.excluding.take(i as int)[j
                                        - selection@.including.len()]);
                                }
                            }
                        }
                        return Err(Error::InvalidPattern(selection.excluding[i].clone()));
                    },
                    None => {},
                }
                let count = if selection.all_sheets || sheets.len() == 0 {
                    sheets.len()
                } else {
                    1
                };
                assert(sheets.deep_view().take(count as int) =~= candidates(
                    sheets.deep_view(),
                    selection.all_sheets,
                ));
                let kept = sheets_passing(sheets, count, &selection.including, &selection.excluding);
                if kept.len() == 0 {
                    Err(Error::NoMatch)
                } else {
                    Ok(kept)
                }
            },
        },
    }
}

} // verus!
