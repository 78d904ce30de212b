//! The shared-string table of a package.

use crate::error::{agrees, Error, ErrorKind};
use crate::xml::{
    document_stream, events_view, is_tag, names, next_event, open_reader, pending, XmlEvent,
    XmlEventView, XmlStream,
};
use vstd::prelude::*;
use vstd::string::StringExecFns;

verus! {

/// The state of the reader of shared strings between two events.
pub struct SharedStringReader {
    /// The entries read so far.
    pub entries: Vec<String>,
    /// The text of the current entry.
    pub current: String,
    /// Inside a string item.
    pub in_entry: bool,
    /// Inside a phonetic hint, whose text is left out.
    pub in_phonetic: bool,
}

/// The state of the reader as a value of the model.
pub struct SharedStringState {
    pub entries: Seq<Seq<char>>,
    pub current: Seq<char>,
    pub in_entry: bool,
    pub in_phonetic: bool,
}

impl View for SharedStringReader {
    type V = SharedStringState;

    open spec fn view(&self) -> SharedStringState {
        SharedStringState {
            entries: self.entries.deep_view(),
            current: self.current@,
            in_entry: self.in_entry,
            in_phonetic: self.in_phonetic,
        }
    }
}

/// The state before the first event.
pub open spec fn initial_strings() -> SharedStringState {
    SharedStringState {
        entries: Seq::empty(),
        current: Seq::empty(),
        in_entry: false,
        in_phonetic: false,
    }
}

/// Whether character data belongs to the current entry.
pub open spec fn collects_string(state: SharedStringState) -> bool {
    state.in_entry && !state.in_phonetic
}

/// The state after one event. A string item's start opens an entry, its end
/// closes the entry with the text collected since; the text of all runs of
/// an item is joined, that of phonetic hints left out.
pub open spec fn string_step(state: SharedStringState, event: XmlEventView) -> Result<
    SharedStringState,
    ErrorKind,
> {
    match event {
        XmlEventView::Start(element) => if names(element.name, "si") {
            Ok(SharedStringState { current: Seq::empty(), in_entry: true, ..state })
        } else if names(element.name, "rPh") {
            Ok(SharedStringState { in_phonetic: true, ..state })
        } else {
            Ok(state)
        },
        XmlEventView::End(name) => if names(name, "si") {
            Ok(
                SharedStringState {
                    entries: state.entries.push(state.current),
                    current: Seq::empty(),
                    in_entry: false,
                    ..state
                },
            )
        } else if names(name, "rPh") {
            Ok(SharedStringState { in_phonetic: false, ..state })
        } else {
            Ok(state)
        },
        XmlEventView::Text(text) => if collects_string(state) {
            match text {
                Some(t) => Ok(SharedStringState { current: state.current + t, ..state }),
                None => Err(ErrorKind::MalformedXml),
            }
        } else {
            Ok(state)
        },
        XmlEventView::CData(text) => if collects_string(state) {
            Ok(SharedStringState { current: state.current + text, ..state })
        } else {
            Ok(state)
        },
        _ => Ok(state),
    }
}

/// The state after a sequence of events, or the first failure.
pub open spec fn strings_run(state: SharedStringState, events: Seq<XmlEventView>) -> Result<
    SharedStringState,
    ErrorKind,
>
    decreases events.len(),
{
    if events.len() == 0 {
        Ok(state)
    } else {
        match string_step(state, events[0]) {
            Ok(next) => strings_run(next, events.drop_first()),
            Err(kind) => Err(kind),
        }
    }
}

/// The shared strings that a reader in `state` gives for the rest of a
/// document.
pub open spec fn strings_from(state: SharedStringState, stream: XmlStream) -> Result<
    Seq<Seq<char>>,
    ErrorKind,
> {
    match strings_run(state, stream.events) {
        Ok(last) => if stream.complete {
            Ok(last.entries)
        } else {
            Err(ErrorKind::MalformedXml)
        },
        Err(kind) => Err(kind),
    }
}

/// The shared strings of a package: none where the package has no such
/// part.
pub open spec fn shared_strings_of(part: Option<Seq<u8>>) -> Result<Seq<Seq<char>>, ErrorKind> {
    match part {
        Some(bytes) => strings_from(initial_strings(), document_stream(bytes, false)),
        None => Ok(Seq::empty()),
    }
}

impl SharedStringReader {
    /// A reader before the first event.
    pub fn new() -> (reader: SharedStringReader)
        ensures
            reader@ == initial_strings(),
    {
        let reader = SharedStringReader {
            entries: Vec::new(),
            current: String::new(),
            in_entry: false,
            in_phonetic: false,
        };
        assert(reader.entries.deep_view() =~= Seq::empty());
        reader
    }

    /// Takes one event: the reader moves to the next state, or fails and is
    /// of no further use.
    pub fn step(&mut self, event: &XmlEvent) -> (r: Result<(), Error>)
        ensures
            match string_step(old(self)@, event@) {
                Ok(next) => r is Ok && final(self)@ == next,
                Err(kind) => r matches Err(error) && error.kind_of() == kind,
            },
    {
        match event {
            XmlEvent::Start(element) => {
                let name = element.name.as_slice();
                if is_tag(name, "si") {
                    self.current = String::new();
                    self.in_entry = true;
                } else if is_tag(name, "rPh") {
                    self.in_phonetic = true;
                }
                Ok(())
            },
            XmlEvent::End(name) => {
                let name = name.as_slice();
                if is_tag(name, "si") {
                    let mut entry = String::new();
                    core::mem::swap(&mut self.current, &mut entry);
                    let ghost before = self.entries.deep_view();
                    self.entries.push(entry);
                    assert(self.entries.deep_view() =~= before.push(entry@));
                    self.in_entry = false;
                } else if is_tag(name, "rPh") {
                    self.in_phonetic = false;
                }
                Ok(())
            },
            XmlEvent::Text(text) => {
                if self.in_entry && !self.in_phonetic {
                    match text {
                        Some(t) => {
                            self.current.append(t.as_str());
                            Ok(())
                        },
                        None => Err(Error::MalformedXml("invalid character data".to_owned())),
                    }
                } else {
                    Ok(())
                }
            },
            XmlEvent::CData(text) => {
                if self.in_entry && !self.in_phonetic {
                    self.current.append(text.as_str());
                }
                Ok(())
            },
            _ => Ok(()),
        }
    }
}

/// The shared strings that a sequence of events gives.
pub fn shared_strings_from_events(events: &Vec<XmlEvent>) -> (r: Result<Vec<String>, Error>)
    ensures
        agrees(
            r,
            strings_from(
                initial_strings(),
                XmlStream { events: events_view(events@), complete: true },
            ),
        ),
{
    let mut reader = SharedStringReader::new();
    let ghost all = events_view(events@);
    let mut i: usize = 0;
    assert(all.skip(0) =~= all);
    while i < events.len()
        invariant
            i <= events.len(),
            all == events_view(events@),
            strings_run(initial_strings(), all) == strings_run(reader@, all.skip(i as int)),
        decreases events.len() - i,
    {
        assert(all.skip(i as int)[0] == events@[i as int]@);
        assert(all.skip(i as int).drop_first() =~= all.skip(i + 1));
        match reader.step(&events[i]) {
            Ok(()) => {},
            Err(error) => {
                return Err(error);
            },
        }
        i += 1;
    }
    Ok(reader.entries)
}

/// The shared strings that a shared-strings part holds.
pub fn read_shared_strings(bytes: &[u8]) -> (r: Result<Vec<String>, Error>)
    ensures
        agrees(r, strings_from(initial_strings(), document_stream(bytes@, false))),
{
    let mut source = open_reader(bytes, false);
    let mut reader = SharedStringReader::new();
    loop
        invariant
            strings_from(initial_strings(), document_stream(bytes@, false)) == strings_from(
                reader@,
                pending(source),
            ),
        decreases pending(source).events.len(),
    {
        match next_event(&mut source) {
            Ok(Some(event)) => {
                match reader.step(&event) {
                    Ok(()) => {},
                    Err(error) => {
                        return Err(error);
                    },
                }
            },
            Ok(None) => {
                return Ok(reader.entries);
            },
            Err(error) => {
                return Err(Error::MalformedXml(error.message));
            },
        }
    }
}

/// The shared strings of a package, from its shared-strings part if it has
/// one.
pub fn load_shared_strings(part: Option<&[u8]>) -> (r: Result<Vec<String>, Error>)
    ensures
        agrees(
            r,
            shared_strings_of(
                match part {
                    Some(bytes) => Some(bytes@),
                    None => None,
                },
            ),
        ),
{
    match part {
        None => {
            let none: Vec<String> = Vec::new();
            assert(none.deep_view() =~= Seq::empty());
            Ok(none)
        },
        Some(bytes) => read_shared_strings(bytes),
    }
}

} // verus!
