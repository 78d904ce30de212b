//! The parts that describe a package: the workbook's relationships and its
//! list of sheets.

use crate::error::{Error, ErrorKind};
use crate::text::{chars_of, str_eq, string_of};
use crate::xml::{
    attribute_pair, document_stream, events_view, is_tag, names, next_event, open_reader, pair_of,
    pending, XmlEvent, XmlEventView, XmlStream,
};
use vstd::prelude::*;
use vstd::string::StringExecFns;

verus! {

/// One relationship: the part `target` under the name `id`.
struct Relationship {
    id: String,
    target: String,
}

/// The relationships of the workbook, by id.
pub struct RelationshipMap {
    /// In the order of insertion; a later entry replaces an earlier one of
    /// the same id.
    entries: Vec<Relationship>,
}

/// The map that a list of relationships gives, a later one replacing an
/// earlier one of the same id.
spec fn map_of(entries: Seq<(Seq<char>, Seq<char>)>) -> Map<Seq<char>, Seq<char>>
    decreases entries.len(),
{
    if entries.len() == 0 {
        Map::empty()
    } else {
        map_of(entries.drop_last()).insert(entries.last().0, entries.last().1)
    }
}

impl View for RelationshipMap {
    type V = Map<Seq<char>, Seq<char>>;

    closed spec fn view(&self) -> Map<Seq<char>, Seq<char>> {
        map_of(self.entries@.map_values(|r: Relationship| (r.id@, r.target@)))
    }
}

impl RelationshipMap {
    /// A map without relationships.
    pub fn new() -> (map: RelationshipMap)
        ensures
            map@ == Map::<Seq<char>, Seq<char>>::empty(),
    {
        RelationshipMap { entries: Vec::new() }
    }

    /// Records `target` under `id`, in place of what `id` named before.
    pub fn insert(&mut self, id: String, target: String)
        ensures
            final(self)@ == old(self)@.insert(id@, target@),
    {
        let ghost before = self.entries@.map_values(|r: Relationship| (r.id@, r.target@));
        self.entries.push(Relationship { id, target });
        assert(self.entries@.map_values(|r: Relationship| (r.id@, r.target@)).drop_last()
            =~= before);
    }

    /// The target that `id` names.
    pub fn get(&self, id: &str) -> (target: Option<&String>)
        ensures
            match target {
                Some(t) => self@.contains_key(id@) && t@ == self@[id@],
                None => !self@.contains_key(id@),
            },
    {
        let ghost all = self.entries@.map_values(|r: Relationship| (r.id@, r.target@));
        let mut i: usize = self.entries.len();
        assert(all.take(i as int) =~= all);
        while i > 0
            invariant
                i <= self.entries.len(),
                all == self.entries@.map_values(|r: Relationship| (r.id@, r.target@)),
                map_of(all).contains_key(id@) == map_of(all.take(i as int)).contains_key(id@),
                map_of(all).contains_key(id@) ==> map_of(all)[id@] == map_of(all.take(i as int))[id@],
            decreases i,
        {
            i -= 1;
            assert(all.take(i + 1).drop_last() =~= all.take(i as int));
            assert(all.take(i + 1).last() == all[i as int]);
            if str_eq(self.entries[i].id.as_str(), id) {
                return Some(&self.entries[i].target);
            }
        }
        None
    }
}

/// The map after one event: a relationship tag that has both an id and a
/// target adds an entry.
pub open spec fn relationship_step(map: Map<Seq<char>, Seq<char>>, event: XmlEventView) -> Result<
    Map<Seq<char>, Seq<char>>,
    ErrorKind,
> {
    match event {
        XmlEventView::Start(element) | XmlEventView::Empty(element) => if names(
            element.name,
            "Relationship",
        ) {
            match pair_of(element.attributes, "Id", "Target") {
                Some((Some(id), Some(target))) => Ok(map.insert(id, target)),
                Some(_) => Ok(map),
                None => Err(ErrorKind::MalformedXml),
            }
        } else {
            Ok(map)
        },
        _ => Ok(map),
    }
}

/// The map after a sequence of events, or the first failure.
pub open spec fn relationships_run(map: Map<Seq<char>, Seq<char>>, events: Seq<XmlEventView>) -> Result<
    Map<Seq<char>, Seq<char>>,
    ErrorKind,
>
    decreases events.len(),
{
    if events.len() == 0 {
        Ok(map)
    } else {
        match relationship_step(map, events[0]) {
            Ok(next) => relationships_run(next, events.drop_first()),
            Err(kind) => Err(kind),
        }
    }
}

/// The relationships that the rest of a document adds to `map`.
pub open spec fn relationships_from(map: Map<Seq<char>, Seq<char>>, stream: XmlStream) -> Result<
    Map<Seq<char>, Seq<char>>,
    ErrorKind,
> {
    match relationships_run(map, stream.events) {
        Ok(last) => if stream.complete {
            Ok(last)
        } else {
            Err(ErrorKind::MalformedXml)
        },
        Err(kind) => Err(kind),
    }
}

/// The relationships of a package: none where the package has no such part.
pub open spec fn relationships_of(part: Option<Seq<u8>>) -> Result<
    Map<Seq<char>, Seq<char>>,
    ErrorKind,
> {
    match part {
        Some(bytes) => relationships_from(Map::empty(), document_stream(bytes, true)),
        None => Ok(Map::empty()),
    }
}

/// Takes one event of the relationships part.
pub fn add_relationship(map: &mut RelationshipMap, event: &XmlEvent) -> (r: Result<(), Error>)
    ensures
        match relationship_step(old(map)@, event@) {
            Ok(next) => r is Ok && final(map)@ == next,
            Err(kind) => r matches Err(error) && error.kind_of() == kind,
        },
{
    match event {
        XmlEvent::Start(element) | XmlEvent::Empty(element) => {
            if is_tag(element.name.as_slice(), "Relationship") {
                match attribute_pair(element, "Id", "Target") {
                    Some(pair) => {
                        match (pair.first, pair.second) {
                            (Some(id), Some(target)) => {
                                map.insert(id.clone(), target.clone());
                            },
                            _ => {},
                        }
                        Ok(())
                    },
                    None => Err(Error::MalformedXml("invalid attribute".to_owned())),
                }
            } else {
                Ok(())
            }
        },
        _ => Ok(()),
    }
}

/// The relationships that a sequence of events gives.
pub fn relationships_from_events(events: &Vec<XmlEvent>) -> (r: Result<RelationshipMap, Error>)
    ensures
        match relationships_run(Map::empty(), events_view(events@)) {
            Ok(map) => r matches Ok(got) && got@ == map,
            Err(kind) => r matches Err(error) && error.kind_of() == kind,
        },
{
    let mut map = RelationshipMap::new();
    let ghost all = events_view(events@);
    let mut i: usize = 0;
    assert(all.skip(0) =~= all);
    while i < events.len()
        invariant
            i <= events.len(),
            all == events_view(events@),
            relationships_run(Map::empty(), all) == relationships_run(map@, all.skip(i as int)),
        decreases events.len() - i,
    {
        assert(all.skip(i as int)[0] == events@[i as int]@);
        assert(all.skip(i as int).drop_first() =~= all.skip(i + 1));
        match add_relationship(&mut map, &events[i]) {
            Ok(()) => {},
            Err(error) => {
                return Err(error);
            },
        }
        i += 1;
    }
    Ok(map)
}

/// The relationships that a relationships part holds.
pub fn read_relationships(bytes: &[u8]) -> (r: Result<RelationshipMap, Error>)
    ensures
        match relationships_from(Map::empty(), document_stream(bytes@, true)) {
            Ok(map) => r matches Ok(got) && got@ == map,
            Err(kind) => r matches Err(error) && error.kind_of() == kind,
        },
{
    let mut source = open_reader(bytes, true);
    let mut map = RelationshipMap::new();
    loop
        invariant
            relationships_from(Map::empty(), document_stream(bytes@, true)) == relationships_from(
                map@,
                pending(source),
            ),
        decreases pending(source).events.len(),
    {
        match next_event(&mut source) {
            Ok(Some(event)) => {
                match add_relationship(&mut map, &event) {
                    Ok(()) => {},
                    Err(error) => {
                        return Err(error);
                    },
                }
            },
            Ok(None) => {
                return Ok(map);
            },
            Err(error) => {
                return Err(Error::MalformedXml(error.message));
            },
        }
    }
}

/// The relationships of a package, from its relationships part if it has
/// one.
pub fn load_relationships(part: Option<&[u8]>) -> (r: Result<RelationshipMap, Error>)
    ensures
        match relationships_of(
            match part {
                Some(bytes) => Some(bytes@),
                None => None,
            },
        ) {
            Ok(map) => r matches Ok(got) && got@ == map,
            Err(kind) => r matches Err(error) && error.kind_of() == kind,
        },
{
    match part {
        None => Ok(RelationshipMap::new()),
        Some(bytes) => read_relationships(bytes),
    }
}

/// How many `/` a path starts with.
pub open spec fn leading_slashes(path: Seq<char>) -> nat
    decreases path.len(),
{
    if path.len() > 0 && path[0] == '/' {
        1 + leading_slashes(path.drop_first())
    } else {
        0
    }
}

/// The path of a worksheet part within the package: the target without its
/// leading `/`, under `xl/` where it does not name that directory itself.
pub open spec fn normalized_path(target: Seq<char>) -> Seq<char> {
    let cleaned = target.skip(leading_slashes(target) as int);
    if "xl/"@.is_prefix_of(cleaned) {
        cleaned
    } else {
        "xl/"@ + cleaned
    }
}

/// Where the first `n` characters of a path are `/` and the next one, if
/// any, is not, the path starts with exactly `n` of them.
pub proof fn lemma_leading_slashes(path: Seq<char>, n: nat)
    requires
        n <= path.len(),
        forall|i: int| 0 <= i < n ==> path[i] == '/',
        n == path.len() || path[n as int] != '/',
    ensures
        leading_slashes(path) == n,
    decreases n,
{
    if n > 0 {
        let rest = path.drop_first();
        assert forall|i: int| 0 <= i < n - 1 implies rest[i] == '/' by {
            assert(rest[i] == path[i + 1]);
        }
        lemma_leading_slashes(rest, (n - 1) as nat);
    }
}

/// The path of the worksheet part that a relationship's target names.
pub fn normalize_sheet_path(target: &str) -> (path: String)
    ensures
        path@ == normalized_path(target@),
        "xl/"@.is_prefix_of(path@),
{
    let chars = chars_of(target);
    let mut from: usize = 0;
    while from < chars.len() && chars[from] == '/'
        invariant
            from <= chars.len(),
            forall|i: int| 0 <= i < from ==> chars@[i] == '/',
        decreases chars.len() - from,
    {
        from += 1;
    }
    proof {
        lemma_leading_slashes(chars@, from as nat);
        reveal_strlit("xl/");
    }
    let ghost cleaned = chars@.skip(from as int);
    let rooted = chars.len() - from >= 3 && chars[from] == 'x' && chars[from + 1] == 'l' && chars[from
        + 2] == '/';
    let rest = string_of(&chars, from, chars.len());
    assert(rest@ =~= cleaned);
    if rooted {
        assert("xl/"@ =~= cleaned.subrange(0, 3));
        rest
    } else {
        proof {
            if "xl/"@.is_prefix_of(cleaned) {
                assert(cleaned[0] == "xl/"@[0]);
                assert(cleaned[1] == "xl/"@[1]);
                assert(cleaned[2] == "xl/"@[2]);
            }
        }
        let path = "xl/".to_owned().concat(rest.as_str());
        assert("xl/"@ =~= path@.subrange(0, 3));
        path
    }
}

/// A sheet of the workbook: its name and the path of its part.
#[derive(Debug)]
pub struct SheetDescriptor {
    pub name: String,
    pub internal_path: String,
}

/// A sheet as a value of the model.
pub struct SheetDescriptorView {
    pub name: Seq<char>,
    pub internal_path: Seq<char>,
}

impl View for SheetDescriptor {
    type V = SheetDescriptorView;

    open spec fn view(&self) -> SheetDescriptorView {
        SheetDescriptorView { name: self.name@, internal_path: self.internal_path@ }
    }
}

impl DeepView for SheetDescriptor {
    type V = SheetDescriptorView;

    open spec fn deep_view(&self) -> SheetDescriptorView {
        self@
    }
}

impl Clone for SheetDescriptor {
    fn clone(&self) -> (copy: SheetDescriptor)
        ensures
            copy@ == self@,
    {
        SheetDescriptor { name: self.name.clone(), internal_path: self.internal_path.clone() }
    }
}

/// The sheets after one event: a sheet tag that has a name and a
/// relationship id which names a target adds a sheet.
pub open spec fn sheet_step(
    sheets: Seq<SheetDescriptorView>,
    event: XmlEventView,
    rels: Map<Seq<char>, Seq<char>>,
) -> Result<Seq<SheetDescriptorView>, ErrorKind> {
    match event {
        XmlEventView::Start(element) | XmlEventView::Empty(element) => if names(
            element.name,
            "sheet",
        ) {
            match pair_of(element.attributes, "name", "r:id") {
                Some((Some(name), Some(id))) => if rels.contains_key(id) {
                    Ok(
                        sheets.push(
                            SheetDescriptorView {
                                name,
                                internal_path: normalized_path(rels[id]),
                            },
                        ),
                    )
                } else {
                    Ok(sheets)
                },
                Some(_) => Ok(sheets),
                None => Err(ErrorKind::MalformedXml),
            }
        } else {
            Ok(sheets)
        },
        _ => Ok(sheets),
    }
}

/// The sheets after a sequence of events, or the first failure.
pub open spec fn sheets_run(
    sheets: Seq<SheetDescriptorView>,
    events: Seq<XmlEventView>,
    rels: Map<Seq<char>, Seq<char>>,
) -> Result<Seq<SheetDescriptorView>, ErrorKind>
    decreases events.len(),
{
    if events.len() == 0 {
        Ok(sheets)
    } else {
        match sheet_step(sheets, events[0], rels) {
            Ok(next) => sheets_run(next, events.drop_first(), rels),
            Err(kind) => Err(kind),
        }
    }
}

/// The sheets of a workbook of which `sheets` are read and the rest of the
/// document is to come: a workbook without sheets is a failure.
pub open spec fn sheets_from(
    sheets: Seq<SheetDescriptorView>,
    stream: XmlStream,
    rels: Map<Seq<char>, Seq<char>>,
) -> Result<Seq<SheetDescriptorView>, ErrorKind> {
    match sheets_run(sheets, stream.events, rels) {
        Ok(last) => if !stream.complete {
            Err(ErrorKind::MalformedXml)
        } else if last.len() == 0 {
            Err(ErrorKind::EmptyWorkbook)
        } else {
            Ok(last)
        },
        Err(kind) => Err(kind),
    }
}

/// The sheets of a package, in the order of the workbook part; a package
/// without that part is a failure.
pub open spec fn sheets_of(part: Option<Seq<u8>>, rels: Map<Seq<char>, Seq<char>>) -> Result<
    Seq<SheetDescriptorView>,
    ErrorKind,
> {
    match part {
        Some(bytes) => sheets_from(Seq::empty(), document_stream(bytes, true), rels),
        None => Err(ErrorKind::MissingWorkbook),
    }
}

/// Whether the part of every sheet lies under `xl/`.
pub open spec fn all_rooted(sheets: Seq<SheetDescriptorView>) -> bool {
    forall|i: int| 0 <= i < sheets.len() ==> "xl/"@.is_prefix_of((#[trigger] sheets[i]).internal_path)
}

/// The prefix `xl/` is kept by every normalized path.
pub proof fn lemma_normalized_path_rooted(target: Seq<char>)
    ensures
        "xl/"@.is_prefix_of(normalized_path(target)),
{
    let cleaned = target.skip(leading_slashes(target) as int);
    if !"xl/"@.is_prefix_of(cleaned) {
        assert(("xl/"@ + cleaned).subrange(0, "xl/"@.len() as int) =~= "xl/"@);
    }
}

/// One event keeps the parts of all sheets under `xl/`.
pub proof fn lemma_sheet_step_rooted(
    sheets: Seq<SheetDescriptorView>,
    event: XmlEventView,
    rels: Map<Seq<char>, Seq<char>>,
)
    requires
        all_rooted(sheets),
        sheet_step(sheets, event, rels) is Ok,
    ensures
        all_rooted(sheet_step(sheets, event, rels)->Ok_0),
{
    let next = sheet_step(sheets, event, rels)->Ok_0;
    if next != sheets {
        assert forall|i: int| 0 <= i < next.len() implies "xl/"@.is_prefix_of(
            (#[trigger] next[i]).internal_path,
        ) by {
            if i < sheets.len() {
                assert(next[i] == sheets[i]);
            } else {
                match event {
                    XmlEventView::Start(element) | XmlEventView::Empty(element) => {
                        let pair = pair_of(element.attributes, "name", "r:id")->0;
                        let id = pair.1->0;
                        lemma_normalized_path_rooted(rels[id]);
                    },
                    _ => {},
                }
            }
        }
    }
}

/// The part of every sheet of a workbook lies under `xl/`.
pub proof fn lemma_sheets_rooted(
    sheets: Seq<SheetDescriptorView>,
    stream: XmlStream,
    rels: Map<Seq<char>, Seq<char>>,
)
    requires
        all_rooted(sheets),
        sheets_from(sheets, stream, rels) is Ok,
    ensures
        all_rooted(sheets_from(sheets, stream, rels)->Ok_0),
    decreases stream.events.len(),
{
    if stream.events.len() > 0 {
        let next = sheet_step(sheets, stream.events[0], rels)->Ok_0;
        lemma_sheet_step_rooted(sheets, stream.events[0], rels);
        lemma_sheets_rooted(
            next,
            XmlStream { events: stream.events.drop_first(), complete: stream.complete },
            rels,
        );
    }
}

/// Takes one event of the workbook part.
pub fn add_sheet(sheets: &mut Vec<SheetDescriptor>, event: &XmlEvent, rels: &RelationshipMap) -> (r:
    Result<(), Error>)
    ensures
        match sheet_step(old(sheets).deep_view(), event@, rels@) {
            Ok(next) => r is Ok && final(sheets).deep_view() == next,
            Err(kind) => r matches Err(error) && error.kind_of() == kind,
        },
{
    match event {
        XmlEvent::Start(element) | XmlEvent::Empty(element) => {
            if is_tag(element.name.as_slice(), "sheet") {
                match attribute_pair(element, "name", "r:id") {
                    Some(pair) => {
                        match (pair.first, pair.second) {
                            (Some(name), Some(id)) => {
                                match rels.get(id.as_str()) {
                                    Some(target) => {
                                        let ghost before = sheets.deep_view();
                                        let sheet = SheetDescriptor {
                                            name: name.clone(),
                                            internal_path: normalize_sheet_path(target.as_str()),
                                        };
                                        sheets.push(sheet);
                                        assert(sheets.deep_view() =~= before.push(sheet@));
                                    },
                                    None => {},
                                }
                            },
                            _ => {},
                        }
                        Ok(())
                    },
                    None => Err(Error::MalformedXml("invalid attribute".to_owned())),
                }
            } else {
                Ok(())
            }
        },
        _ => Ok(()),
    }
}

/// The sheets that a sequence of events gives.
pub fn sheets_from_events(events: &Vec<XmlEvent>, rels: &RelationshipMap) -> (r: Result<
    Vec<SheetDescriptor>,
    Error,
>)
    ensures
        match sheets_from(
            Seq::empty(),
            XmlStream { events: events_view(events@), complete: true },
            rels@,
        ) {
            Ok(sheets) => r matches Ok(got) && got.deep_view() == sheets,
            Err(kind) => r matches Err(error) && error.kind_of() == kind,
        },
{
    let mut sheets: Vec<SheetDescriptor> = Vec::new();
    let ghost all = events_view(events@);
    let mut i: usize = 0;
    assert(all.skip(0) =~= all);
    assert(sheets.deep_view() =~= Seq::empty());
    while i < events.len()
        invariant
            i <= events.len(),
            all == events_view(events@),
            sheets_run(Seq::empty(), all, rels@) == sheets_run(
                sheets.deep_view(),
                all.skip(i as int),
                rels@,
            ),
        decreases events.len() - i,
    {
        assert(all.skip(i as int)[0] == events@[i as int]@);
        assert(all.skip(i as int).drop_first() =~= all.skip(i + 1));
        match add_sheet(&mut sheets, &events[i], rels) {
            Ok(()) => {},
            Err(error) => {
                return Err(error);
            },
        }
        i += 1;
    }
    if sheets.len() == 0 {
        return Err(Error::EmptyWorkbook);
    }
    Ok(sheets)
}

/// The sheets that a workbook part lists.
pub fn read_sheets(bytes: &[u8], rels: &RelationshipMap) -> (r: Result<Vec<SheetDescriptor>, Error>)
    ensures
        match sheets_from(Seq::empty(), document_stream(bytes@, true), rels@) {
            Ok(sheets) => r matches Ok(got) && got.deep_view() == sheets,
            Err(kind) => r matches Err(error) && error.kind_of() == kind,
        },
        r matches Ok(got) ==> got.len() > 0 && all_rooted(got.deep_view()),
{
    let mut source = open_reader(bytes, true);
    let mut sheets: Vec<SheetDescriptor> = Vec::new();
    assert(sheets.deep_view() =~= Seq::empty());
    loop
        invariant
            sheets_from(Seq::empty(), document_stream(bytes@, true), rels@) == sheets_from(
                sheets.deep_view(),
                pending(source),
                rels@,
            ),
        decreases pending(source).events.len(),
    {
        match next_event(&mut source) {
            Ok(Some(event)) => {
                match add_sheet(&mut sheets, &event, rels) {
                    Ok(()) => {},
                    Err(error) => {
                        return Err(error);
                    },
                }
            },
            Ok(None) => {
                if sheets.len() == 0 {
                    return Err(Error::EmptyWorkbook);
                }
                proof {
                    lemma_sheets_rooted(Seq::empty(), document_stream(bytes@, true), rels@);
                }
                return Ok(sheets);
            },
            Err(error) => {
                return Err(Error::MalformedXml(error.message));
            },
        }
    }
}

/// The sheets of a package, from its workbook part.
pub fn load_sheets(part: Option<&[u8]>, rels: &RelationshipMap) -> (r: Result<
    Vec<SheetDescriptor>,
    Error,
>)
    ensures
        match sheets_of(
            match part {
                Some(bytes) => Some(bytes@),
                None => None,
            },
            rels@,
        ) {
            Ok(sheets) => r matches Ok(got) && got.deep_view() == sheets,
            Err(kind) => r matches Err(error) && error.kind_of() == kind,
        },
        r matches Ok(got) ==> got.len() > 0 && all_rooted(got.deep_view()),
{
    match part {
        None => Err(Error::MissingWorkbook),
        Some(bytes) => read_sheets(bytes, rels),
    }
}

} // verus!
