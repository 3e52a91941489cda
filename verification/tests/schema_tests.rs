use std::collections::HashMap;
use matroska_remux::ebml::{Ebml, EbmlIterator, EbmlPayload, MemSource};
use matroska_remux::ids::{EbmlType, ID_TRACKNUMBER, ID_TRACKTYPE};
use matroska_remux::mkv_write::elem_uint;
use matroska_remux::schema::{
    ebml_type_of, id_constants, id_const_name, parse_schema, schema_element, schema_id,
    SchemaError,
};

#[test]
fn schema_types_by_name() {
    assert_eq!(ebml_type_of("integer"), EbmlType::SignedInteger);
    assert_eq!(ebml_type_of("uinteger"), EbmlType::UnsignedInteger);
    assert_eq!(ebml_type_of("float"), EbmlType::Float);
    assert_eq!(ebml_type_of("string"), EbmlType::String);
    assert_eq!(ebml_type_of("utf-8"), EbmlType::UTF8);
    assert_eq!(ebml_type_of("date"), EbmlType::Date);
    assert_eq!(ebml_type_of("master"), EbmlType::Master);
    assert_eq!(ebml_type_of("binary"), EbmlType::Binary);
    assert_eq!(ebml_type_of("Binary"), EbmlType::Unsupported);
}

#[test]
fn schema_ids_are_hexadecimal() {
    assert_eq!(schema_id("0x1A45DFA3"), Some(0x1A45DFA3));
    assert_eq!(schema_id("0xe7"), Some(0xE7));
    assert_eq!(schema_id("1A45"), None);
    assert_eq!(schema_id("0x"), None);
    assert_eq!(schema_id("0xZZ"), None);
}

#[test]
fn schema_elements_from_attributes() {
    let e = schema_element("Timestamp", "\\Segment\\Cluster\\Timestamp", "0xE7", "uinteger", None, Some("1"), Some("1")).unwrap();
    assert_eq!(e.name, "Timestamp");
    assert_eq!(e.path, "\\Segment\\Cluster\\Timestamp");
    assert_eq!(e.id, 0xE7);
    assert_eq!(e.ebml_type, EbmlType::UnsignedInteger);
    assert_eq!(e.default, None);
    assert_eq!((e.minOccurs, e.maxOccurs), (Some(1), Some(1)));
    let d = schema_element("FlagDefault", "p", "0x88", "uinteger", Some("1"), None, None).unwrap();
    assert_eq!(d.default, Some("1".to_string()));
    assert_eq!((d.minOccurs, d.maxOccurs), (None, None));
    assert!(schema_element("X", "p", "88", "uinteger", None, None, None).is_none());
    assert!(schema_element("X", "p", "0x88", "uinteger", None, Some("one"), None).is_none());
    assert!(schema_element("X", "p", "0x88", "uinteger", None, None, Some("")).is_none());
}

#[test]
fn constant_names_are_upper_case() {
    assert_eq!(id_const_name("EBMLMaxIDLength"), "ID_EBMLMAXIDLENGTH");
    assert_eq!(id_const_name("Timestamp"), "ID_TIMESTAMP");
    assert_eq!(id_const_name("a\"b-c"), "ID_AB-C");
    assert_eq!(id_const_name(""), "ID_");
}

#[test]
fn peeking_does_not_consume() {
    let mut doc = Vec::new();
    elem_uint(&mut doc, ID_TRACKNUMBER, 3);
    elem_uint(&mut doc, ID_TRACKTYPE, 2);
    let len = doc.len() as u64;
    let map: HashMap<u64, EbmlType> =
        [(ID_TRACKNUMBER, EbmlType::UnsignedInteger), (ID_TRACKTYPE, EbmlType::UnsignedInteger)].into_iter().collect();
    let ebml = Ebml::new(MemSource::new(doc, 0), map);
    let mut it = EbmlIterator::new(0, len, &ebml).peekable();
    assert_eq!(it.peek().map(|e| e.id), Some(ID_TRACKNUMBER));
    assert_eq!(it.peek().map(|e| e.id), Some(ID_TRACKNUMBER));
    let first = it.next().unwrap();
    assert!(matches!(first.payload, EbmlPayload::UnsignedInt(3)));
    assert_eq!(it.peek().map(|e| e.id), Some(ID_TRACKTYPE));
    let inner = it.into_inner();
    assert_eq!(inner.current, len);
}

#[test]
fn it_works() {
    // The schema document is read by the caller; the table always holds the EBML
    // header elements, and every schema element on top.
    let elements = matroska_remux::ids::element_id_type_map(&Vec::new());
    assert_eq!(elements.len(), 13);
    assert_eq!(elements.get(&matroska_remux::ids::ID_EBML), Some(&EbmlType::Master));
    let timestamp = schema_element("Timestamp", "\\Segment\\Cluster\\Timestamp", "0xE7", "uinteger", None, None, None).unwrap();
    let with_schema = matroska_remux::ids::element_id_type_map(&vec![timestamp]);
    assert_eq!(with_schema.get(&0xE7), Some(&EbmlType::UnsignedInteger));
}

const SCHEMA: &str = r#"<?xml version="1.0" encoding="utf-8"?>
<EBMLSchema xmlns="urn:ietf:rfc:8794" docType="matroska" version="4">
  <element name="Segment" path="\Segment" id="0x18538067" type="master" minOccurs="1" maxOccurs="1">
    <documentation lang="en">The Root Element.</documentation>
  </element>
  <element name="Timestamp" path="\Segment\Cluster\Timestamp" id="0xE7" type="uinteger"/>
  <element name="DocTypeVersion" path="\EBML\DocTypeVersion" id="0x4287" type="uinteger" default="1" minOccurs="1"></element>
</EBMLSchema>"#;

#[test]
fn schema_documents_give_their_elements() {
    let elements = matroska_remux::schema::parse_schema(SCHEMA).unwrap();
    assert_eq!(elements.len(), 2);
    assert_eq!(elements[0].name, "Segment");
    assert_eq!(elements[0].path, "\\Segment");
    assert_eq!((elements[0].id, elements[0].ebml_type), (0x18538067, EbmlType::Master));
    assert_eq!((elements[0].minOccurs, elements[0].maxOccurs), (Some(1), Some(1)));
    assert_eq!(elements[1].name, "DocTypeVersion");
    assert_eq!(elements[1].default, Some("1".to_string()));
    assert_eq!((elements[1].minOccurs, elements[1].maxOccurs), (Some(1), None));
}

#[test]
fn schema_errors_are_reported() {
    let bad = r#"<s><element name="Broken" path="p" id="E7" type="uinteger"></element></s>"#;
    match parse_schema(bad) {
        Err(SchemaError::Element { name }) => assert_eq!(name, "Broken"),
        other => panic!("unexpected {:?}", other.map(|v| v.len())),
    }
    assert!(matches!(parse_schema("<a><b></a>"), Err(SchemaError::Xml)));
}

#[test]
fn id_constants_list_every_element() {
    let text = matroska_remux::schema::id_constants(SCHEMA).unwrap();
    assert!(text.starts_with("pub const ID_EBML: u64 = 0x1A45DFA3;"));
    assert!(text.ends_with(
        "pub const ID_VOID: u64 = 0xEC; pub const ID_SEGMENT: u64 = 408125543u64; pub const ID_DOCTYPEVERSION: u64 = 17031u64;"
    ));
}

#[test]
fn element_content_is_skipped() {
    // The content of an <element> is skipped, nested <element> tags with it; an error
    // inside that content ends the skipping; other tags' attributes are not read.
    let doc = r#"<s><element name="A" path="a" id="0x81" type="master"><element name="Inner" path="i" id="0x82" type="uinteger"></element><x></y></element><other bad=1/><element name="B" path="b" id="0x83" type="string" note="&bogus;"></element></s>"#;
    let els = parse_schema(doc).unwrap();
    let names: Vec<&str> = els.iter().map(|e| e.name.as_str()).collect();
    assert_eq!(names, vec!["A", "B"]);
    assert_eq!(els[1].ebml_type, EbmlType::String);
}

#[test]
fn attribute_values_the_schema_reads_must_normalize() {
    let doc = "<s><element name=\"A&amp;B\" path=\"p\tq\" id=\"0x81\" type=\"uinteger\"></element></s>";
    let els = parse_schema(doc).unwrap();
    assert_eq!(els[0].name, "A&B");
    assert_eq!(els[0].path, "p q");
    let bad = r#"<s><element name="&bogus;" path="p" id="0x81" type="uinteger"></element></s>"#;
    assert!(matches!(parse_schema(bad), Err(SchemaError::Xml)));
}
