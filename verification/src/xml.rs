//! XML documents as sequences of plain events, read with `quick_xml`.

use quick_xml::Reader;
use quick_xml::events::{BytesStart, Event};
use vstd::prelude::*;
use vstd::string::StringSliceAdditionalSpecFns;

verus! {

/// One attribute of a tag. `value` is `None` where the raw value cannot be
/// unescaped.
#[derive(Clone, Debug)]
pub struct Attribute {
    pub key: Vec<u8>,
    pub value: Option<String>,
}

/// A start tag or a self-closing tag. `attributes` is `None` where the
/// attribute list is malformed.
#[derive(Clone, Debug)]
pub struct Element {
    pub name: Vec<u8>,
    pub attributes: Option<Vec<Attribute>>,
}

/// One event of an XML document.
#[derive(Clone, Debug)]
pub enum XmlEvent {
    Start(Element),
    Empty(Element),
    /// An end tag, by its name.
    End(Vec<u8>),
    /// Character data, unescaped; `None` where it cannot be unescaped.
    Text(Option<String>),
    /// A CDATA section, with invalid UTF-8 replaced.
    CData(String),
    /// A comment, declaration, processing instruction or document type.
    Other,
}

/// An attribute as a value of the model.
pub struct AttributeView {
    pub key: Seq<u8>,
    pub value: Option<Seq<char>>,
}

/// A tag as a value of the model.
pub struct ElementView {
    pub name: Seq<u8>,
    pub attributes: Option<Seq<AttributeView>>,
}

/// An event as a value of the model.
pub enum XmlEventView {
    Start(ElementView),
    Empty(ElementView),
    End(Seq<u8>),
    Text(Option<Seq<char>>),
    CData(Seq<char>),
    Other,
}

/// The events of a document in order, and whether the document ends cleanly
/// after them (`complete`) or in a parse error.
pub struct XmlStream {
    pub events: Seq<XmlEventView>,
    pub complete: bool,
}

/// A parse error, with the reader's description of it.
#[derive(Clone, Debug)]
pub struct XmlError {
    pub message: String,
}

/// The characters of an optional text.
pub open spec fn text_view(text: Option<String>) -> Option<Seq<char>> {
    match text {
        Some(s) => Some(s@),
        None => None,
    }
}

/// The views of an optional list of attributes.
pub open spec fn attributes_view(attributes: Option<Vec<Attribute>>) -> Option<Seq<AttributeView>> {
    match attributes {
        Some(list) => Some(list@.map_values(|a: Attribute| a@)),
        None => None,
    }
}

/// The views of a list of events.
pub open spec fn events_view(events: Seq<XmlEvent>) -> Seq<XmlEventView> {
    events.map_values(|e: XmlEvent| e@)
}

impl View for Attribute {
    type V = AttributeView;

    open spec fn view(&self) -> AttributeView {
        AttributeView { key: self.key@, value: text_view(self.value) }
    }
}

impl View for Element {
    type V = ElementView;

    open spec fn view(&self) -> ElementView {
        ElementView { name: self.name@, attributes: attributes_view(self.attributes) }
    }
}

impl View for XmlEvent {
    type V = XmlEventView;

    open spec fn view(&self) -> XmlEventView {
        match self {
            XmlEvent::Start(e) => XmlEventView::Start(e@),
            XmlEvent::Empty(e) => XmlEventView::Empty(e@),
            XmlEvent::End(name) => XmlEventView::End(name@),
            XmlEvent::Text(text) => XmlEventView::Text(text_view(*text)),
            XmlEvent::CData(text) => XmlEventView::CData(text@),
            XmlEvent::Other => XmlEventView::Other,
        }
    }
}

/// The position just behind the last `:` of `name`, 0 where it has none.
pub open spec fn local_start(name: Seq<u8>) -> int
    decreases name.len(),
{
    if name.len() == 0 {
        0
    } else if name.last() == 0x3a {
        name.len() as int
    } else {
        local_start(name.drop_last())
    }
}

/// A tag name without its namespace prefix: what follows the last `:`.
pub open spec fn local_name(name: Seq<u8>) -> Seq<u8> {
    name.skip(local_start(name))
}

/// `local_start` lies within the name, no `:` follows it, and a `:` stands
/// just before it unless it is 0.
pub proof fn lemma_local_start(name: Seq<u8>)
    ensures
        0 <= local_start(name) <= name.len(),
        forall|i: int| local_start(name) <= i < name.len() ==> name[i] != 0x3a,
        local_start(name) > 0 ==> name[local_start(name) - 1] == 0x3a,
    decreases name.len(),
{
    if name.len() > 0 && name.last() != 0x3a {
        let front = name.drop_last();
        lemma_local_start(front);
        assert forall|i: int| local_start(name) <= i < name.len() implies name[i] != 0x3a by {
            if i < front.len() {
                assert(front[i] == name[i]);
            }
        }
        if local_start(name) > 0 {
            assert(front[local_start(name) - 1] == name[local_start(name) - 1]);
        }
    }
}

/// Whether `name`, without its namespace prefix, is `expected`.
pub fn eq_local(name: &[u8], expected: &[u8]) -> (same: bool)
    ensures
        same == (local_name(name@) == expected@),
{
    let mut start: usize = name.len();
    while start > 0 && name[start - 1] != 0x3a
        invariant
            start <= name.len(),
            forall|i: int| start <= i < name.len() ==> name@[i] != 0x3a,
        decreases start,
    {
        start -= 1;
    }
    proof {
        lemma_local_start(name@);
        let s = local_start(name@);
        if s < start {
            assert(name@[start - 1] == 0x3a);
        }
        if s > start {
            assert(name@[s - 1] == 0x3a);
        }
        assert(s == start);
    }
    if name.len() - start != expected.len() {
        assert(local_name(name@).len() != expected@.len());
        return false;
    }
    let mut i: usize = 0;
    while i < expected.len()
        invariant
            start <= name.len(),
            name.len() - start == expected.len(),
            local_start(name@) == start,
            i <= expected.len(),
            forall|j: int| 0 <= j < i ==> name@[start + j] == expected@[j],
        decreases expected.len() - i,
    {
        if name[start + i] != expected[i] {
            assert(name@.skip(start as int)[i as int] != expected@[i as int]);
            return false;
        }
        i += 1;
    }
    assert(name@.skip(start as int) =~= expected@);
    true
}

/// Whether two byte strings are equal.
pub fn bytes_eq(a: &[u8], b: &[u8]) -> (same: bool)
    ensures
        same == (a@ == b@),
{
    if a.len() != b.len() {
        return false;
    }
    let mut i: usize = 0;
    while i < a.len()
        invariant
            a.len() == b.len(),
            i <= a.len(),
            forall|j: int| 0 <= j < i ==> a@[j] == b@[j],
        decreases a.len() - i,
    {
        if a[i] != b[i] {
            return false;
        }
        i += 1;
    }
    assert(a@ =~= b@);
    true
}

/// Whether a tag name, without its namespace prefix, is `tag`.
pub open spec fn names(name: Seq<u8>, tag: &str) -> bool {
    local_name(name) == tag.spec_bytes()
}

/// Whether a tag name, without its namespace prefix, is `tag`.
pub fn is_tag(name: &[u8], tag: &str) -> (same: bool)
    ensures
        same == names(name@, tag),
{
    eq_local(name, tag.as_bytes())
}

/// Whether an attribute's key is `key`, prefix included.
pub fn is_key(attribute: &Attribute, key: &str) -> (same: bool)
    ensures
        same == (attribute@.key == key.spec_bytes()),
{
    bytes_eq(attribute.key.as_slice(), key.as_bytes())
}

/// The values of two attributes, each `None` where the tag has no such
/// attribute.
pub struct AttributePair<'a> {
    pub first: Option<&'a String>,
    pub second: Option<&'a String>,
}

/// The values of the attributes `first` and `second` in a list that is read
/// in order on top of `seen`, a later value replacing an earlier one; `None`
/// where the value of one of them cannot be unescaped.
pub open spec fn scan_pair(
    attributes: Seq<AttributeView>,
    first: &str,
    second: &str,
    seen: (Option<Seq<char>>, Option<Seq<char>>),
) -> Option<(Option<Seq<char>>, Option<Seq<char>>)>
    decreases attributes.len(),
{
    if attributes.len() == 0 {
        Some(seen)
    } else {
        let head = attributes[0];
        let rest = attributes.drop_first();
        if head.key == first.spec_bytes() {
            match head.value {
                Some(value) => scan_pair(rest, first, second, (Some(value), seen.1)),
                None => None,
            }
        } else if head.key == second.spec_bytes() {
            match head.value {
                Some(value) => scan_pair(rest, first, second, (seen.0, Some(value))),
                None => None,
            }
        } else {
            scan_pair(rest, first, second, seen)
        }
    }
}

/// The values of the attributes `first` and `second` of a tag; `None` where
/// the attribute list is malformed or one of the two values cannot be
/// unescaped.
pub open spec fn pair_of(attributes: Option<Seq<AttributeView>>, first: &str, second: &str) -> Option<
    (Option<Seq<char>>, Option<Seq<char>>),
> {
    match attributes {
        Some(list) => scan_pair(list, first, second, (None, None)),
        None => None,
    }
}

/// The characters of the two values of a pair.
pub open spec fn pair_view(pair: Option<AttributePair>) -> Option<(Option<Seq<char>>, Option<Seq<char>>)> {
    match pair {
        Some(p) => Some(
            (
                match p.first {
                    Some(s) => Some(s@),
                    None => None,
                },
                match p.second {
                    Some(s) => Some(s@),
                    None => None,
                },
            ),
        ),
        None => None,
    }
}

/// The values of the attributes `first` and `second` of `element`.
pub fn attribute_pair<'a>(element: &'a Element, first: &str, second: &str) -> (pair: Option<
    AttributePair<'a>,
>)
    ensures
        pair_view(pair) == pair_of(element@.attributes, first, second),
{
    match &element.attributes {
        None => None,
        Some(list) => {
            let ghost all = element@.attributes->0;
            let mut seen = AttributePair { first: None, second: None };
            let mut i: usize = 0;
            assert(all.skip(0) =~= all);
            while i < list.len()
                invariant
                    i <= list.len(),
                    element@.attributes == Some(all),
                    all == list@.map_values(|a: Attribute| a@),
                    pair_view(Some(seen)) matches Some(so_far) && pair_of(Some(all), first, second)
                        == scan_pair(all.skip(i as int), first, second, so_far),
                decreases list.len() - i,
            {
                let attribute = &list[i];
                assert(all.skip(i as int)[0] == attribute@);
                assert(all.skip(i as int).drop_first() =~= all.skip(i + 1));
                if is_key(attribute, first) {
                    match &attribute.value {
                        Some(value) => {
                            seen = AttributePair { first: Some(value), second: seen.second };
                        },
                        None => {
                            return None;
                        },
                    }
                } else if is_key(attribute, second) {
                    match &attribute.value {
                        Some(value) => {
                            seen = AttributePair { first: seen.first, second: Some(value) };
                        },
                        None => {
                            return None;
                        },
                    }
                }
                i += 1;
            }
            Some(seen)
        },
    }
}

#[verifier::external_type_specification]
#[verifier::external_body]
#[verifier::reject_recursive_types(R)]
pub struct ExReader<R>(Reader<R>);

#[verifier::external_type_specification]
#[verifier::external_body]
pub struct ExBytesStart<'a>(BytesStart<'a>);

/// The events that a `quick_xml` reader yields on a document, from its
/// start to the end of the input or to the first parse error, with or
/// without the trimming of character data.
pub uninterp spec fn document_stream(bytes: Seq<u8>, trim_text: bool) -> XmlStream;

/// The events that a reader has yet to yield, up to the end of its input or
/// to the first parse error.
pub uninterp spec fn pending(reader: Reader<&[u8]>) -> XmlStream;

/// The name of a tag and its attributes, as `quick_xml` reads them from the
/// tag's text.
pub uninterp spec fn tag_model(tag: BytesStart<'static>) -> ElementView;

/// An event as the reader hands it over: tags still in `quick_xml`'s form.
pub(crate) enum RawEvent {
    Start(BytesStart<'static>),
    Empty(BytesStart<'static>),
    End(Vec<u8>),
    Text(Option<String>),
    CData(String),
    Other,
}

/// The event that a raw event stands for.
pub(crate) open spec fn raw_model(raw: RawEvent) -> XmlEventView {
    match raw {
        RawEvent::Start(tag) => XmlEventView::Start(tag_model(tag)),
        RawEvent::Empty(tag) => XmlEventView::Empty(tag_model(tag)),
        RawEvent::End(name) => XmlEventView::End(name@),
        RawEvent::Text(text) => XmlEventView::Text(text_view(text)),
        RawEvent::CData(text) => XmlEventView::CData(text@),
        RawEvent::Other => XmlEventView::Other,
    }
}

/// `Reader::from_reader` and `Reader::trim_text`: a reader at the start of
/// `bytes`, which will yield the document's events.
#[verifier::external_body]
pub(crate) fn open_reader<'a>(bytes: &'a [u8], trim_text: bool) -> (reader: Reader<&'a [u8]>)
    ensures
        pending(reader) == document_stream(bytes@, trim_text),
{
    let mut reader = Reader::from_reader(bytes);
    reader.trim_text(trim_text);
    reader
}

/// `Reader::read_event`: the reader hands over its first pending event
/// and keeps the rest; with none pending it reports the end of the input
/// (`Ok(None)`) or the parse error that ends it. Character data is unescaped
/// with `BytesText::unescape`, CDATA decoded with `String::from_utf8_lossy`.
#[verifier::external_body]
pub(crate) fn next_raw(reader: &mut Reader<&[u8]>) -> (r: Result<Option<RawEvent>, String>)
    ensures
        match r {
            Ok(Some(raw)) => pending(*old(reader)).events.len() > 0
                && raw_model(raw) == pending(*old(reader)).events[0]
                && pending(*final(reader)) == (XmlStream {
                    events: pending(*old(reader)).events.drop_first(),
                    complete: pending(*old(reader)).complete,
                }),
            Ok(None) => pending(*old(reader)).events.len() == 0 && pending(*old(reader)).complete,
            Err(_) => pending(*old(reader)).events.len() == 0 && !pending(*old(reader)).complete,
        },
{
    Ok(Some(match reader.read_event().map_err(|e| e.to_string())? {
        Event::Start(e) => RawEvent::Start(e.into_owned()),
        Event::Empty(e) => RawEvent::Empty(e.into_owned()),
        Event::End(e) => RawEvent::End(e.name().as_ref().to_vec()),
        Event::Text(t) => RawEvent::Text(t.unescape().ok().map(|s| s.into_owned())),
        Event::CData(t) => RawEvent::CData(String::from_utf8_lossy(&t).into_owned()),
        Event::Eof => return Ok(None),
        _ => RawEvent::Other,
    }))
}

/// `BytesStart::name`: the tag's name.
#[verifier::external_body]
pub(crate) fn tag_name(tag: &BytesStart<'static>) -> (name: Vec<u8>)
    ensures
        name@ == tag_model(*tag).name,
{
    tag.name().as_ref().to_vec()
}

/// `BytesStart::attributes`: the tag's attributes in order, each value
/// unescaped with `Attribute::unescape_value`; `None` where the iterator
/// reports a malformed list.
#[verifier::external_body]
pub(crate) fn tag_attributes(tag: &BytesStart<'static>) -> (attributes: Option<Vec<Attribute>>)
    ensures
        attributes_view(attributes) == tag_model(*tag).attributes,
{
    tag.attributes().map(|item| item.map(|a| Attribute {
        key: a.key.as_ref().to_vec(),
        value: a.unescape_value().ok().map(|v| v.into_owned()),
    })).collect::<Result<Vec<_>, _>>().ok()
}

/// The reader's first pending event, as plain values.
pub(crate) fn next_event(reader: &mut Reader<&[u8]>) -> (r: Result<Option<XmlEvent>, XmlError>)
    ensures
        match r {
            Ok(Some(event)) => pending(*old(reader)).events.len() > 0
                && event@ == pending(*old(reader)).events[0]
                && pending(*final(reader)) == (XmlStream {
                    events: pending(*old(reader)).events.drop_first(),
                    complete: pending(*old(reader)).complete,
                }),
            Ok(None) => pending(*old(reader)).events.len() == 0 && pending(*old(reader)).complete,
            Err(_) => pending(*old(reader)).events.len() == 0 && !pending(*old(reader)).complete,
        },
{
    match next_raw(reader) {
        Ok(Some(raw)) => {
            let event = match raw {
                RawEvent::Start(tag) => XmlEvent::Start(
                    Element { name: tag_name(&tag), attributes: tag_attributes(&tag) },
                ),
                RawEvent::Empty(tag) => XmlEvent::Empty(
                    Element { name: tag_name(&tag), attributes: tag_attributes(&tag) },
                ),
                RawEvent::End(name) => XmlEvent::End(name),
                RawEvent::Text(text) => XmlEvent::Text(text),
                RawEvent::CData(text) => XmlEvent::CData(text),
                RawEvent::Other => XmlEvent::Other,
            };
            Ok(Some(event))
        },
        Ok(None) => Ok(None),
        Err(message) => Err(XmlError { message }),
    }
}

/// All events of a document, or the parse error that ends it.
pub fn read_events(bytes: &[u8], trim_text: bool) -> (r: Result<Vec<XmlEvent>, XmlError>)
    ensures
        r is Ok <==> document_stream(bytes@, trim_text).complete,
        r matches Ok(events) ==> events_view(events@) == document_stream(bytes@, trim_text).events,
{
    let mut reader = open_reader(bytes, trim_text);
    let mut events: Vec<XmlEvent> = Vec::new();
    loop
        invariant
            pending(reader).complete == document_stream(bytes@, trim_text).complete,
            events_view(events@) + pending(reader).events == document_stream(
                bytes@,
                trim_text,
            ).events,
        decreases pending(reader).events.len(),
    {
        let ghost before = events_view(events@);
        let ghost rest = pending(reader).events;
        match next_event(&mut reader) {
            Ok(Some(event)) => {
                events.push(event);
                assert(events_view(events@) =~= before.push(rest[0]));
                assert(before.push(rest[0]) + rest.drop_first() =~= before + rest);
            },
            Ok(None) => {
                assert(events_view(events@) + rest =~= events_view(events@));
                return Ok(events);
            },
            Err(e) => {
                return Err(e);
            },
        }
    }
}

} // verus!
