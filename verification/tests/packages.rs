use xlsx2csv::error::ErrorKind;
use xlsx2csv::package::{add_relationship, add_sheet, load_relationships, load_sheets};
use xlsx2csv::package::{normalize_sheet_path, read_relationships, read_sheets};
use xlsx2csv::package::{RelationshipMap, SheetDescriptor};
use xlsx2csv::xml::{Attribute, Element, XmlEvent};

const RELS: &str = "<?xml version=\"1.0\" encoding=\"UTF-8\" standalone=\"yes\"?>\n\
    <Relationships xmlns=\"http://schemas.openxmlformats.org/package/2006/relationships\">\n\
    <Relationship Id=\"rId1\" Type=\"worksheet\" Target=\"worksheets/sheet1.xml\"/>\n\
    <Relationship Id=\"rId2\" Type=\"worksheet\" Target=\"/xl/worksheets/sheet2.xml\"/>\n\
    <Relationship Id=\"rId3\" Type=\"styles\" Target=\"styles.xml\"/>\n\
    <Relationship Type=\"theme\" Target=\"theme/theme1.xml\"/>\n\
    <Relationship Id=\"rId5\" Type=\"none\"/>\n\
    </Relationships>";

const WORKBOOK: &str = "<?xml version=\"1.0\" encoding=\"UTF-8\"?>\n\
    <workbook xmlns:r=\"http://schemas.openxmlformats.org/officeDocument/2006/relationships\">\n\
    <sheets>\n\
    <sheet name=\"Data\" sheetId=\"1\" r:id=\"rId1\"/>\n\
    <sheet name=\"Q&amp;A\" sheetId=\"2\" r:id=\"rId2\"></sheet>\n\
    <sheet name=\"Lost\" sheetId=\"3\" r:id=\"rId9\"/>\n\
    <sheet sheetId=\"4\" r:id=\"rId1\"/>\n\
    <sheet name=\"NoId\" sheetId=\"5\"/>\n\
    </sheets></workbook>";

fn names_and_paths(sheets: &[SheetDescriptor]) -> Vec<(String, String)> {
    sheets.iter().map(|s| (s.name.clone(), s.internal_path.clone())).collect()
}

fn tag(name: &str, attributes: &[(&str, &str)]) -> Element {
    Element {
        name: name.as_bytes().to_vec(),
        attributes: Some(
            attributes
                .iter()
                .map(|(k, v)| Attribute { key: k.as_bytes().to_vec(), value: Some(v.to_string()) })
                .collect(),
        ),
    }
}

#[test]
fn sheet_paths_are_rooted_under_xl() {
    assert_eq!(normalize_sheet_path("worksheets/sheet1.xml"), "xl/worksheets/sheet1.xml");
    assert_eq!(normalize_sheet_path("/xl/worksheets/sheet1.xml"), "xl/worksheets/sheet1.xml");
    assert_eq!(normalize_sheet_path("xl/worksheets/sheet1.xml"), "xl/worksheets/sheet1.xml");
    assert_eq!(normalize_sheet_path("//worksheets/sheet1.xml"), "xl/worksheets/sheet1.xml");
    assert_eq!(normalize_sheet_path("xl/x"), "xl/x");
    assert_eq!(normalize_sheet_path("xl"), "xl/xl");
    assert_eq!(normalize_sheet_path("xlsx/a"), "xl/xlsx/a");
    assert_eq!(normalize_sheet_path(""), "xl/");
    assert_eq!(normalize_sheet_path("/"), "xl/");
}

#[test]
fn a_package_without_relationships_has_an_empty_map() {
    let map = load_relationships(None).ok().unwrap();
    assert!(map.get("rId1").is_none());
}

#[test]
fn relationships_map_ids_to_targets() {
    let map = load_relationships(Some(RELS.as_bytes())).ok().unwrap();
    assert_eq!(map.get("rId1").map(|s| s.as_str()), Some("worksheets/sheet1.xml"));
    assert_eq!(map.get("rId2").map(|s| s.as_str()), Some("/xl/worksheets/sheet2.xml"));
    assert_eq!(map.get("rId3").map(|s| s.as_str()), Some("styles.xml"));
    assert!(map.get("rId5").is_none());
    assert!(map.get("").is_none());
}

#[test]
fn a_later_relationship_replaces_an_earlier_one() {
    let mut map = RelationshipMap::new();
    map.insert("a".to_string(), "1".to_string());
    map.insert("b".to_string(), "2".to_string());
    map.insert("a".to_string(), "3".to_string());
    assert_eq!(map.get("a").map(|s| s.as_str()), Some("3"));
    assert_eq!(map.get("b").map(|s| s.as_str()), Some("2"));
    assert!(map.get("c").is_none());
}

#[test]
fn relationship_tags_may_have_prefix_and_content() {
    let xml = "<p:Relationships><p:Relationship Id=\"a\" Target=\"t\"></p:Relationship></p:Relationships>";
    let map = read_relationships(xml.as_bytes()).ok().unwrap();
    assert_eq!(map.get("a").map(|s| s.as_str()), Some("t"));
}

#[test]
fn malformed_relationships_fail() {
    let r = read_relationships(b"<Relationships><Relationship Id=\"a\" Target=t/></Relationships>");
    assert_eq!(r.err().map(|e| e.kind()), Some(ErrorKind::MalformedXml));
    let r = read_relationships(b"<Relationships><a></Relationships>");
    assert_eq!(r.err().map(|e| e.kind()), Some(ErrorKind::MalformedXml));
}

#[test]
fn relationship_events_add_entries() {
    let mut map = RelationshipMap::new();
    let event = XmlEvent::Empty(tag("Relationship", &[("Id", "x"), ("Target", "y")]));
    assert!(add_relationship(&mut map, &event).is_ok());
    assert_eq!(map.get("x").map(|s| s.as_str()), Some("y"));
    let other = XmlEvent::Start(tag("Other", &[("Id", "z"), ("Target", "y")]));
    assert!(add_relationship(&mut map, &other).is_ok());
    assert!(map.get("z").is_none());
    let broken = XmlEvent::Empty(Element { name: b"Relationship".to_vec(), attributes: None });
    assert!(add_relationship(&mut map, &broken).is_err());
}

#[test]
fn sheets_come_in_workbook_order_with_normalized_paths() {
    let rels = load_relationships(Some(RELS.as_bytes())).ok().unwrap();
    let sheets = load_sheets(Some(WORKBOOK.as_bytes()), &rels).ok().unwrap();
    assert_eq!(
        names_and_paths(&sheets),
        vec![
            ("Data".to_string(), "xl/worksheets/sheet1.xml".to_string()),
            ("Q&A".to_string(), "xl/worksheets/sheet2.xml".to_string()),
        ]
    );
}

#[test]
fn a_package_without_workbook_fails() {
    let rels = RelationshipMap::new();
    let r = load_sheets(None, &rels);
    assert_eq!(r.err().map(|e| e.kind()), Some(ErrorKind::MissingWorkbook));
}

#[test]
fn a_workbook_without_readable_sheets_fails() {
    let rels = RelationshipMap::new();
    let r = load_sheets(Some(WORKBOOK.as_bytes()), &rels);
    assert_eq!(r.err().map(|e| e.kind()), Some(ErrorKind::EmptyWorkbook));
    let r = read_sheets(b"<workbook><sheets/></workbook>", &rels);
    assert_eq!(r.err().map(|e| e.kind()), Some(ErrorKind::EmptyWorkbook));
}

#[test]
fn a_malformed_workbook_fails() {
    let rels = load_relationships(Some(RELS.as_bytes())).ok().unwrap();
    let r = read_sheets(b"<workbook><sheets><sheet name=\"a\" r:id=\"rId1\"/></workbook>", &rels);
    assert_eq!(r.err().map(|e| e.kind()), Some(ErrorKind::MalformedXml));
    let r = read_sheets(b"<workbook><sheet name=a r:id=\"rId1\"/></workbook>", &rels);
    assert_eq!(r.err().map(|e| e.kind()), Some(ErrorKind::MalformedXml));
}

#[test]
fn sheet_events_add_descriptors() {
    let mut rels = RelationshipMap::new();
    rels.insert("rId1".to_string(), "/worksheets/s.xml".to_string());
    let mut sheets: Vec<SheetDescriptor> = Vec::new();
    let event = XmlEvent::Empty(tag("x:sheet", &[("name", "One"), ("r:id", "rId1")]));
    assert!(add_sheet(&mut sheets, &event, &rels).is_ok());
    let unprefixed = XmlEvent::Empty(tag("sheet", &[("name", "Two"), ("id", "rId1")]));
    assert!(add_sheet(&mut sheets, &unprefixed, &rels).is_ok());
    assert_eq!(
        names_and_paths(&sheets),
        vec![("One".to_string(), "xl/worksheets/s.xml".to_string())]
    );
    let copy = sheets[0].clone();
    assert_eq!(copy.name, "One");
    assert_eq!(copy.internal_path, "xl/worksheets/s.xml");
}
