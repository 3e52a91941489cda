//! Reading the Matroska EBML schema: the element type a `type` attribute names, the
//! hexadecimal element IDs, one element from its attributes, and the name of the
//! constant that holds an element's ID; the whole schema document, and the ID
//! constants it declares.

use vstd::prelude::*;
use crate::ids::{EbmlType, Element};
use crate::scan::{parse_i32, parse_i32_chars, parse_u64_radix, parse_unsigned, strip_prefix};
use crate::text::{dec_digits, push_digits, push_str};
use quick_xml::events::attributes::{Attribute, Attributes};
use quick_xml::events::{BytesStart, Event};
use quick_xml::name::QName;
use quick_xml::{Reader, XmlVersion};
use std::borrow::Cow;

verus! {

/// The element type that a schema `type` attribute names.
pub open spec fn schema_type(t: Seq<char>) -> EbmlType {
    if t == "integer"@ {
        EbmlType::SignedInteger
    } else if t == "uinteger"@ {
        EbmlType::UnsignedInteger
    } else if t == "float"@ {
        EbmlType::Float
    } else if t == "string"@ {
        EbmlType::String
    } else if t == "utf-8"@ {
        EbmlType::UTF8
    } else if t == "date"@ {
        EbmlType::Date
    } else if t == "master"@ {
        EbmlType::Master
    } else if t == "binary"@ {
        EbmlType::Binary
    } else {
        EbmlType::Unsupported
    }
}

fn str_eq(a: &str, b: &str) -> (r: bool)
    ensures
        r == (a@ == b@),
{
    let x = String::from_str(a);
    let y = String::from_str(b);
    x == y
}

pub fn ebml_type_of(t: &str) -> (r: EbmlType)
    ensures
        r == schema_type(t@),
{
    if str_eq(t, "integer") {
        EbmlType::SignedInteger
    } else if str_eq(t, "uinteger") {
        EbmlType::UnsignedInteger
    } else if str_eq(t, "float") {
        EbmlType::Float
    } else if str_eq(t, "string") {
        EbmlType::String
    } else if str_eq(t, "utf-8") {
        EbmlType::UTF8
    } else if str_eq(t, "date") {
        EbmlType::Date
    } else if str_eq(t, "master") {
        EbmlType::Master
    } else if str_eq(t, "binary") {
        EbmlType::Binary
    } else {
        EbmlType::Unsupported
    }
}

/// An element ID as the schema writes it: `0x` and hexadecimal digits.
pub open spec fn spec_schema_id(id: Seq<char>) -> Option<u64> {
    if id.len() >= 2 && id.take(2) == seq!['0', 'x'] {
        parse_unsigned(id.skip(2), 16)
    } else {
        None
    }
}

pub fn schema_id(id: &str) -> (r: Option<u64>)
    ensures
        r == spec_schema_id(id@),
{
    proof {
        reveal_strlit("0x");
        assert("0x"@ =~= seq!['0', 'x']);
    }
    match strip_prefix(id, "0x") {
        Some(hex) => parse_u64_radix(hex, 16),
        None => None,
    }
}

fn opt_text(s: Option<&str>) -> (r: Option<String>)
    ensures
        match r {
            Some(t) => s matches Some(v) && t@ == v@,
            None => s is None,
        },
{
    match s {
        Some(v) => Some(String::from_str(v)),
        None => None,
    }
}

/// An optional `minOccurs`/`maxOccurs` attribute read as an `i32`: absent stays
/// absent, present must parse.
pub open spec fn occurs(s: Option<Seq<char>>) -> Option<Option<i32>> {
    match s {
        None => Some(None),
        Some(t) => match parse_i32_chars(t) {
            Some(v) => Some(Some(v)),
            None => None,
        },
    }
}

fn parse_occurs(s: Option<&str>) -> (r: Option<Option<i32>>)
    ensures
        r == occurs(
            match s {
                Some(t) => Some(t@),
                None => None,
            },
        ),
{
    match s {
        None => Some(None),
        Some(t) => match parse_i32(t) {
            Some(v) => Some(Some(v)),
            None => None,
        },
    }
}

/// One schema element from the attributes of its `<element>` tag. There is none when
/// the ID is not `0x` and hexadecimal digits, or a present `minOccurs`/`maxOccurs` is
/// not an `i32`.
pub fn schema_element(
    name: &str,
    path: &str,
    id: &str,
    ebml_type: &str,
    default: Option<&str>,
    min_occurs: Option<&str>,
    max_occurs: Option<&str>,
) -> (r: Option<Element>)
    ensures
        match r {
            Some(e) => {
                &&& spec_schema_id(id@) == Some(e.id)
                &&& e.name@ == name@
                &&& e.path@ == path@
                &&& e.ebml_type == schema_type(ebml_type@)
                &&& match e.default {
                    Some(d) => default matches Some(v) && d@ == v@,
                    None => default is None,
                }
                &&& occurs(
                    match min_occurs {
                        Some(t) => Some(t@),
                        None => None,
                    },
                ) == Some(e.minOccurs)
                &&& occurs(
                    match max_occurs {
                        Some(t) => Some(t@),
                        None => None,
                    },
                ) == Some(e.maxOccurs)
            },
            None => {
                ||| spec_schema_id(id@) is None
                ||| occurs(
                    match min_occurs {
                        Some(t) => Some(t@),
                        None => None,
                    },
                ) is None
                ||| occurs(
                    match max_occurs {
                        Some(t) => Some(t@),
                        None => None,
                    },
                ) is None
            },
        },
{
    let id = match schema_id(id) {
        Some(v) => v,
        None => return None,
    };
    let min = match parse_occurs(min_occurs) {
        Some(v) => v,
        None => return None,
    };
    let max = match parse_occurs(max_occurs) {
        Some(v) => v,
        None => return None,
    };
    Some(
        Element {
            name: String::from_str(name),
            path: String::from_str(path),
            id,
            ebml_type: ebml_type_of(ebml_type),
            default: opt_text(default),
            minOccurs: min,
            maxOccurs: max,
        },
    )
}

// ----------------------------------------------------------------------------
// Constant names
// ----------------------------------------------------------------------------

/// `char::to_ascii_uppercase`.
pub open spec fn ascii_upper(c: char) -> char {
    if 'a' <= c && c <= 'z' {
        ((c as u32) - 32) as char
    } else {
        c
    }
}

/// An element name upper-cased (ASCII only) with its double quotes removed.
pub open spec fn const_suffix(name: Seq<char>) -> Seq<char>
    decreases name.len(),
{
    if name.len() == 0 {
        Seq::empty()
    } else {
        const_suffix(name.drop_last()) + if name.last() == '"' {
            Seq::empty()
        } else {
            seq![ascii_upper(name.last())]
        }
    }
}

/// `String::push`: the text with one more character at the end.
#[verifier::external_body]
fn push_char(out: &mut String, c: char)
    ensures
        final(out)@ == old(out)@.push(c),
{
    out.push(c);
}

/// The name of the constant that holds an element's ID: `ID_` and the element name
/// upper-cased, without double quotes.
pub fn id_const_name(name: &str) -> (r: String)
    ensures
        r@ == "ID_"@ + const_suffix(name@),
{
    let mut out = String::from_str("ID_");
    let ghost head = out@;
    let n = name.unicode_len();
    let mut i: usize = 0;
    while i < n
        invariant
            i <= n == name@.len(),
            out@ == head + const_suffix(name@.take(i as int)),
        decreases n - i,
    {
        let c = name.get_char(i);
        if c != '"' {
            let u = if 'a' <= c && c <= 'z' {
                ((c as u32) - 32) as u8 as char
            } else {
                c
            };
            push_char(&mut out, u);
        }
        proof {
            assert(name@.take(i + 1).drop_last() =~= name@.take(i as int));
            assert(name@.take(i + 1).last() == c);
        }
        i += 1;
    }
    proof {
        assert(name@.take(n as int) =~= name@);
    }
    out
}

// ----------------------------------------------------------------------------
// The schema document
// ----------------------------------------------------------------------------

/// One XML event: its kind (0 a start tag, 2 an end tag, 3 any other event, 4 an
/// error), the tag name, and a start tag's attribute text as written.
pub type XmlEvent = (u8, Seq<char>, Seq<char>);

/// An attribute list: (name, value) pairs in document order.
pub type Attrs = Seq<(Seq<char>, Seq<char>)>;

/// What `quick_xml`'s `Reader::read_event` yields for a document, up to its end.
pub uninterp spec fn xml_event_list(xml: Seq<char>) -> Seq<XmlEvent>;

/// The attributes in a tag's attribute text, as (name, raw value) in document order,
/// read by `quick_xml`'s `Attributes` iterator; `None` when one is malformed.
pub uninterp spec fn xml_attr_list(raw: Seq<char>) -> Option<Attrs>;

/// An attribute value normalized as XML 1.0 asks (entities replaced, line breaks and
/// tabs made spaces) by `quick_xml`'s `Attribute::normalized_value`; `None` on a
/// malformed entity.
pub uninterp spec fn normalized_attr(raw: Seq<char>) -> Option<Seq<char>>;

pub open spec fn attrs_view(v: Vec<(String, String)>) -> Attrs {
    v@.map_values(|a: (String, String)| (a.0@, a.1@))
}

pub open spec fn opt_attrs(o: Option<Vec<(String, String)>>) -> Option<Attrs> {
    match o {
        Some(v) => Some(attrs_view(v)),
        None => None,
    }
}

pub open spec fn event_view(e: (u8, String, String)) -> XmlEvent {
    (e.0, e.1@, e.2@)
}

pub open spec fn events_view(v: Seq<(u8, String, String)>) -> Seq<XmlEvent> {
    v.map_values(|e: (u8, String, String)| event_view(e))
}

/// The attributes of an `<element>` tag that the schema reads.
pub open spec fn schema_key(k: Seq<char>) -> bool {
    ||| k == "name"@
    ||| k == "path"@
    ||| k == "id"@
    ||| k == "type"@
    ||| k == "default"@
    ||| k == "minOccurs"@
    ||| k == "maxOccurs"@
}

/// The attributes the schema reads, in order, each value normalized; `None` when one
/// of those values does not normalize. Other attributes are left as they are.
pub open spec fn norm_attrs(raw: Attrs) -> Option<Attrs>
    decreases raw.len(),
{
    if raw.len() == 0 {
        Some(Seq::empty())
    } else {
        match norm_attrs(raw.drop_last()) {
            None => None,
            Some(prev) => if !schema_key(raw.last().0) {
                Some(prev)
            } else {
                match normalized_attr(raw.last().1) {
                    Some(v) => Some(prev.push((raw.last().0, v))),
                    None => None,
                }
            },
        }
    }
}

/// What an `<element>` start tag gives: its normalized attributes, or `None` when its
/// attribute list is malformed or a value the schema reads does not normalize.
pub open spec fn tag_item(raw: Seq<char>) -> Option<Attrs> {
    match xml_attr_list(raw) {
        Some(r) => norm_attrs(r),
        None => None,
    }
}

/// One event of the schema walk. At the top level (`skip` is `None`) an `<element>`
/// start tag gives an item and the walk skips its content, and an error gives a
/// failed item. Inside an element's content (`Some(d)`, with `d` nested `<element>`
/// tags open) the walk waits for the matching `</element>`; an error there ends the
/// skipping.
pub open spec fn scan_step(e: XmlEvent, skip: Option<nat>) -> (Seq<Option<Attrs>>, Option<nat>) {
    let is_element = e.1 == "element"@;
    match skip {
        None => if e.0 == 0 && is_element {
            (seq![tag_item(e.2)], Some(0nat))
        } else if e.0 == 4 {
            (seq![None], None)
        } else {
            (Seq::empty(), None)
        },
        Some(d) => if e.0 == 0 && is_element {
            (Seq::empty(), Some(d + 1))
        } else if e.0 == 2 && is_element {
            (Seq::empty(), if d == 0 { None } else { Some((d - 1) as nat) })
        } else if e.0 == 4 {
            (Seq::empty(), None)
        } else {
            (Seq::empty(), Some(d))
        },
    }
}

/// The items of the events from `i` on, the walk standing at `skip`.
pub open spec fn scan_items(ev: Seq<XmlEvent>, i: int, skip: Option<nat>) -> Seq<Option<Attrs>>
    decreases ev.len() - i,
{
    if i < 0 || i >= ev.len() {
        Seq::empty()
    } else {
        scan_step(ev[i], skip).0 + scan_items(ev, i + 1, scan_step(ev[i], skip).1)
    }
}

/// The items of a schema document: one per top-level `<element>` start tag (whose
/// content, nested `<element>` tags included, is skipped) and one failed item per
/// error at the top level, in document order.
pub open spec fn schema_items(xml: Seq<char>) -> Seq<Option<Attrs>> {
    scan_items(xml_event_list(xml), 0, None)
}

/// The items before `k` are `<element>` tags that each describe an element.
pub open spec fn items_map_before(items: Seq<Option<Attrs>>, k: int) -> bool {
    forall|j: int| 0 <= j < k ==> (#[trigger] items[j] is Some && tag_maps(items[j]->0))
}

/// The value of the last attribute named `key`.
pub open spec fn attr(attrs: Seq<(Seq<char>, Seq<char>)>, key: Seq<char>) -> Option<Seq<char>>
    decreases attrs.len(),
{
    if attrs.len() == 0 {
        None
    } else if attrs.last().0 == key {
        Some(attrs.last().1)
    } else {
        attr(attrs.drop_last(), key)
    }
}

/// An attribute's value, empty when absent.
pub open spec fn attr_text(attrs: Seq<(Seq<char>, Seq<char>)>, key: Seq<char>) -> Seq<char> {
    match attr(attrs, key) {
        Some(v) => v,
        None => Seq::empty(),
    }
}

/// An `<element>` tag describes an element: its ID is hexadecimal and its
/// `minOccurs`/`maxOccurs`, where present, are integers.
pub open spec fn tag_maps(attrs: Seq<(Seq<char>, Seq<char>)>) -> bool {
    &&& spec_schema_id(attr_text(attrs, "id"@)) is Some
    &&& occurs(attr(attrs, "minOccurs"@)) is Some
    &&& occurs(attr(attrs, "maxOccurs"@)) is Some
}

/// `e` is the element an `<element>` tag's attributes describe.
pub open spec fn element_of(e: Element, attrs: Seq<(Seq<char>, Seq<char>)>) -> bool {
    &&& spec_schema_id(attr_text(attrs, "id"@)) == Some(e.id)
    &&& e.name@ == attr_text(attrs, "name"@)
    &&& e.path@ == attr_text(attrs, "path"@)
    &&& e.ebml_type == schema_type(attr_text(attrs, "type"@))
    &&& match e.default {
        Some(d) => attr(attrs, "default"@) == Some(d@),
        None => attr(attrs, "default"@) is None,
    }
    &&& occurs(attr(attrs, "minOccurs"@)) == Some(e.minOccurs)
    &&& occurs(attr(attrs, "maxOccurs"@)) == Some(e.maxOccurs)
}

/// Why a schema document gives no elements.
#[derive(Debug)]
pub enum SchemaError {
    /// The XML is malformed at the top level, or an `<element>` tag's attribute list
    /// or one of the values the schema reads is.
    Xml,
    /// This `<element>` tag's ID is not `0x` and hexadecimal digits, or its
    /// `minOccurs`/`maxOccurs` is not an integer.
    Element { name: String },
}

fn find_attr<'a>(attrs: &'a Vec<(String, String)>, key: &str) -> (r: Option<&'a str>)
    ensures
        match r {
            Some(v) => attr(attrs@.map_values(|a: (String, String)| (a.0@, a.1@)), key@) == Some(v@),
            None => attr(attrs@.map_values(|a: (String, String)| (a.0@, a.1@)), key@) is None,
        },
{
    let ghost view = attrs@.map_values(|a: (String, String)| (a.0@, a.1@));
    let mut i: usize = attrs.len();
    assert(view.take(i as int) =~= view);
    while i > 0
        invariant
            i <= attrs@.len(),
            view == attrs@.map_values(|a: (String, String)| (a.0@, a.1@)),
            attr(view, key@) == attr(view.take(i as int), key@),
        decreases i,
    {
        let ghost t = view.take(i as int);
        assert(t.last() == view[i - 1]);
        assert(t.drop_last() =~= view.take(i - 1));
        if str_eq(attrs[i - 1].0.as_str(), key) {
            return Some(attrs[i - 1].1.as_str());
        }
        i -= 1;
    }
    assert(view.take(0) =~= Seq::<(Seq<char>, Seq<char>)>::empty());
    None
}

fn text_of(s: Option<&str>) -> (r: &str)
    ensures
        r@ == (match s {
            Some(v) => v@,
            None => Seq::empty(),
        }),
{
    match s {
        Some(v) => v,
        None => {
            proof { reveal_strlit(""); }
            ""
        },
    }
}

/// The events of an XML document, read by `quick_xml::Reader::read_event` until its
/// end, each converted one for one: a start tag with its name and its attribute text,
/// an end tag with its name, any other event (an empty-element tag among them) as
/// kind 3 and an error as kind 4. After an ill-formed error quick-xml has consumed
/// the bad markup and goes on; after any other error it yields its end.
#[verifier::external_body]
fn xml_events(xml: &str) -> (r: Vec<(u8, String, String)>)
    ensures
        xml_event_list(xml@) == events_view(r@),
{
    let mut reader = Reader::from_str(xml);
    let mut out = Vec::new();
    loop {
        let ev = match reader.read_event() {
            Ok(Event::Eof) => return out,
            Ok(Event::Start(e)) => (0u8, e.name().0.to_string(), e.attributes_raw().to_string()),
            Ok(Event::End(e)) => (2u8, e.name().0.to_string(), String::new()),
            Ok(_) => (3u8, String::new(), String::new()),
            Err(_) => (4u8, String::new(), String::new()),
        };
        out.push(ev);
    }
}

/// The attributes of a tag's attribute text, read by `quick_xml`'s
/// `Attributes::new(raw, 0)` and converted one for one to (name, raw value); `None`
/// when it yields an error.
#[verifier::external_body]
fn attr_list(raw: &str) -> (r: Option<Vec<(String, String)>>)
    ensures
        opt_attrs(r) == xml_attr_list(raw@),
{
    let attrs = Attributes::new(raw, 0).map(|a| a.map(|a| (a.key.0.to_string(), a.value.into_owned())));
    attrs.collect::<Result<Vec<_>, _>>().ok()
}

/// A raw attribute value normalized by `quick_xml`'s
/// `Attribute::normalized_value(XmlVersion::Explicit1_0)`; `None` on its error.
#[verifier::external_body]
fn normalize_attr(raw: &str) -> (r: Option<String>)
    ensures
        match r {
            Some(v) => normalized_attr(raw@) == Some(v@),
            None => normalized_attr(raw@) is None,
        },
{
    let a = Attribute { key: QName(""), value: Cow::Borrowed(raw) };
    a.normalized_value(XmlVersion::Explicit1_0).ok().map(|v| v.into_owned())
}

fn is_schema_key(k: &str) -> (r: bool)
    ensures
        r == schema_key(k@),
{
    proof {
        reveal_strlit("name");
        reveal_strlit("path");
        reveal_strlit("id");
        reveal_strlit("type");
        reveal_strlit("default");
        reveal_strlit("minOccurs");
        reveal_strlit("maxOccurs");
    }
    str_eq(k, "name") || str_eq(k, "path") || str_eq(k, "id") || str_eq(k, "type") || str_eq(
        k,
        "default",
    ) || str_eq(k, "minOccurs") || str_eq(k, "maxOccurs")
}

/// The attributes of an `<element>` tag that the schema reads, normalized.
fn read_tag_attrs(raw: &Vec<(String, String)>) -> (r: Option<Vec<(String, String)>>)
    ensures
        match r {
            Some(v) => norm_attrs(attrs_view(*raw)) == Some(attrs_view(v)),
            None => norm_attrs(attrs_view(*raw)) is None,
        },
{
    let ghost rv = attrs_view(*raw);
    let mut out: Vec<(String, String)> = Vec::new();
    let mut ok = true;
    let mut i: usize = 0;
    while i < raw.len()
        invariant
            i <= raw@.len(),
            rv == attrs_view(*raw),
            norm_attrs(rv.take(i as int)) == (if ok {
                Some(attrs_view(out))
            } else {
                None::<Attrs>
            }),
        decreases raw@.len() - i,
    {
        proof {
            assert(rv.take(i + 1).drop_last() =~= rv.take(i as int));
            assert(rv.take(i + 1).last() == rv[i as int]);
        }
        if ok {
            let key = raw[i].0.as_str();
            if is_schema_key(key) {
                match normalize_attr(raw[i].1.as_str()) {
                    Some(v) => {
                        let ghost before = attrs_view(out);
                        let k = String::from_str(key);
                        out.push((k, v));
                        proof {
                            assert(attrs_view(out) =~= before.push((key@, v@)));
                        }
                    },
                    None => {
                        ok = false;
                    },
                }
            }
        }
        i += 1;
    }
    proof {
        assert(rv.take(raw@.len() as int) =~= rv);
    }
    if ok {
        Some(out)
    } else {
        None
    }
}

pub open spec fn skip_view(s: Option<usize>) -> Option<nat> {
    match s {
        Some(d) => Some(d as nat),
        None => None,
    }
}

/// The elements an EBML schema document describes, one per top-level `<element>`
/// start tag in document order (the content of an `<element>`, nested `<element>`
/// tags included, is skipped); an error at the first item that fails: XML malformed
/// at the top level or in an `<element>` tag's attributes, or a tag that does not
/// describe an element (it is named).
pub fn parse_schema(xml: &str) -> (r: Result<Vec<Element>, SchemaError>)
    ensures
        match r {
            Ok(v) => v@.len() == schema_items(xml@).len() && (forall|k: int|
                0 <= k < v@.len() ==> (#[trigger] schema_items(xml@)[k]) is Some) && (forall|k: int|
                0 <= k < v@.len() ==> element_of(#[trigger] v@[k], schema_items(xml@)[k]->0)),
            Err(SchemaError::Xml) => exists|k: int|
                0 <= k < schema_items(xml@).len() && #[trigger] schema_items(xml@)[k] is None
                    && items_map_before(schema_items(xml@), k),
            Err(SchemaError::Element { name }) => exists|k: int|
                0 <= k < schema_items(xml@).len() && #[trigger] schema_items(xml@)[k] is Some
                    && !tag_maps(schema_items(xml@)[k]->0) && name@ == attr_text(
                    schema_items(xml@)[k]->0,
                    "name"@,
                ) && items_map_before(schema_items(xml@), k),
        },
{
    let events = xml_events(xml);
    let ghost ev = events_view(events@);
    let ghost all = schema_items(xml@);
    let mut out: Vec<Element> = Vec::new();
    let mut skip: Option<usize> = None;
    let ghost mut done: Seq<Option<Attrs>> = Seq::empty();
    let mut i: usize = 0;
    assert(done + scan_items(ev, 0, None) =~= all);
    while i < events.len()
        invariant
            i <= events@.len(),
            ev == events_view(events@),
            all == scan_items(ev, 0, None),
            all == schema_items(xml@),
            done + scan_items(ev, i as int, skip_view(skip)) == all,
            done.len() == out@.len(),
            forall|k: int| 0 <= k < done.len() ==> (#[trigger] done[k]) is Some,
            forall|k: int| 0 <= k < done.len() ==> element_of(#[trigger] out@[k], done[k]->0),
            skip matches Some(d) ==> d <= i,
        decreases events@.len() - i,
    {
        let e = &events[i];
        let ghost sv = skip_view(skip);
        let ghost step = scan_step(ev[i as int], sv);
        let ghost rest = scan_items(ev, i + 1, step.1);
        proof {
            assert(ev[i as int] == event_view(*e));
            assert(scan_items(ev, i as int, sv) == step.0 + rest);
            reveal_strlit("element");
        }
        let is_element = str_eq(e.1.as_str(), "element");
        match skip {
            None => {
                if e.0 == 0 && is_element {
                    let item = match attr_list(e.2.as_str()) {
                        Some(raw) => read_tag_attrs(&raw),
                        None => None,
                    };
                    proof {
                        assert(step.0 == seq![tag_item(ev[i as int].2)]);
                        assert(all == (done + step.0) + rest);
                        assert(all[done.len() as int] == tag_item(ev[i as int].2));
                    }
                    let attrs = match item {
                        Some(a) => a,
                        None => {
                            proof {
                                assert(all[done.len() as int] is None);
                                lemma_done_map(done, out@, all, step.0 + rest);
                            }
                            return Err(SchemaError::Xml);
                        },
                    };
                    let ghost av = attrs_view(attrs);
                    proof {
                        assert(all[done.len() as int] == Some(av));
                        reveal_strlit("name");
                        reveal_strlit("path");
                        reveal_strlit("id");
                        reveal_strlit("type");
                        reveal_strlit("default");
                        reveal_strlit("minOccurs");
                        reveal_strlit("maxOccurs");
                    }
                    let name = find_attr(&attrs, "name");
                    let path = find_attr(&attrs, "path");
                    let id = find_attr(&attrs, "id");
                    let utype = find_attr(&attrs, "type");
                    let default = find_attr(&attrs, "default");
                    let min_occurs = find_attr(&attrs, "minOccurs");
                    let max_occurs = find_attr(&attrs, "maxOccurs");
                    match schema_element(
                        text_of(name),
                        text_of(path),
                        text_of(id),
                        text_of(utype),
                        default,
                        min_occurs,
                        max_occurs,
                    ) {
                        Some(el) => {
                            let ghost before = out@;
                            out.push(el);
                            proof {
                                let d2 = done.push(Some(av));
                                assert forall|k: int| 0 <= k < d2.len() implies element_of(
                                    #[trigger] out@[k],
                                    d2[k]->0,
                                ) by {
                                    if k < done.len() {
                                        assert(out@[k] == before[k]);
                                        assert(d2[k] == done[k]);
                                    }
                                }
                                assert forall|k: int| 0 <= k < d2.len() implies (#[trigger] d2[k]) is Some by {
                                    if k < done.len() {
                                        assert(d2[k] == done[k]);
                                    }
                                }
                                assert(d2 + rest =~= done + (step.0 + rest));
                                done = d2;
                            }
                        },
                        None => {
                            let nm = String::from_str(text_of(name));
                            proof {
                                assert(!tag_maps(av));
                                assert(nm@ == attr_text(av, "name"@));
                                lemma_done_map(done, out@, all, step.0 + rest);
                            }
                            return Err(SchemaError::Element { name: nm });
                        },
                    }
                    skip = Some(0);
                } else if e.0 == 4 {
                    proof {
                        assert(step.0 == seq![None::<Attrs>]);
                        assert(all == (done + step.0) + rest);
                        assert(all[done.len() as int] is None);
                        lemma_done_map(done, out@, all, step.0 + rest);
                    }
                    return Err(SchemaError::Xml);
                } else {
                    proof {
                        assert(done + rest =~= done + (step.0 + rest));
                    }
                }
            },
            Some(d) => {
                if e.0 == 0 && is_element {
                    skip = Some(d + 1);
                } else if e.0 == 2 && is_element {
                    skip = if d == 0 {
                        None
                    } else {
                        Some(d - 1)
                    };
                } else if e.0 == 4 {
                    skip = None;
                }
                proof {
                    assert(done + rest =~= done + (step.0 + rest));
                }
            },
        }
        proof {
            assert(skip_view(skip) == step.1);
        }
        i += 1;
    }
    proof {
        assert(scan_items(ev, i as int, skip_view(skip)) == Seq::<Option<Attrs>>::empty());
        assert(done =~= all);
        assert forall|k: int| 0 <= k < out@.len() implies (#[trigger] all[k]) is Some by {
            assert(done[k] is Some);
        }
        assert forall|k: int| 0 <= k < out@.len() implies element_of(#[trigger] out@[k], all[k]->0) by {
            assert(element_of(out@[k], done[k]->0));
        }
    }
    Ok(out)
}

/// Items already read, each an `<element>` tag describing an element, come first.
proof fn lemma_done_map(
    done: Seq<Option<Attrs>>,
    out: Seq<Element>,
    all: Seq<Option<Attrs>>,
    tail: Seq<Option<Attrs>>,
)
    requires
        all == done + tail,
        done.len() == out.len(),
        forall|k: int| 0 <= k < done.len() ==> (#[trigger] done[k]) is Some,
        forall|k: int| 0 <= k < done.len() ==> element_of(#[trigger] out[k], done[k]->0),
    ensures
        items_map_before(all, done.len() as int),
{
    assert forall|j: int| 0 <= j < done.len() implies (#[trigger] all[j] is Some && tag_maps(all[j]->0)) by {
        assert(all[j] == done[j]);
        assert(element_of(out[j], done[j]->0));
    }
}

/// The ID constants of the EBML header elements.
pub open spec fn base_constants() -> Seq<char> {
    "pub const ID_EBML: u64 = 0x1A45DFA3; pub const ID_EBMLVERSION: u64 = 0x4286; pub const ID_EBMLREAD_VERSION: u64 = 0x42F7; pub const ID_EBMLMAX_IDLENGTH: u64 = 0x42F2; pub const ID_EBMLMAX_SIZE_LENGTH: u64 = 0x42F3; pub const ID_DOCTYPE: u64 = 0x4282; pub const ID_DOCTYPE_VERSION: u64 = 0x4287; pub const ID_DOCTYPE_READ_VERSION: u64 = 0x4285; pub const ID_DOCTYPE_EXTENSION: u64 = 0x4281; pub const ID_DOCTYPE_EXTENSION_NAME: u64 = 0x4283; pub const ID_DOCTYPE_EXTENSION_VERSION: u64 = 0x4284; pub const ID_CRC32: u64 = 0xBF; pub const ID_VOID: u64 = 0xEC;"@
}

/// The constant declaring one element's ID.
pub open spec fn constant_line(e: Element) -> Seq<char> {
    " pub const "@ + "ID_"@ + const_suffix(e.name@) + ": u64 = "@ + dec_digits(e.id as nat) + "u64;"@
}

pub open spec fn constant_lines(es: Seq<Element>) -> Seq<char>
    decreases es.len(),
{
    if es.len() == 0 {
        Seq::empty()
    } else {
        constant_lines(es.drop_last()) + constant_line(es.last())
    }
}

/// Rust source declaring one `ID_...` constant per element: the EBML header elements,
/// then one for each element the schema document describes, in document order.
pub fn id_constants(xml: &str) -> (r: Result<String, SchemaError>)
    ensures
        match r {
            Ok(t) => exists|es: Seq<Element>|
                es.len() == schema_items(xml@).len() && (forall|k: int|
                    0 <= k < es.len() ==> (#[trigger] schema_items(xml@)[k]) is Some) && (forall|k: int|
                    0 <= k < es.len() ==> element_of(#[trigger] es[k], schema_items(xml@)[k]->0))
                    && t@ == base_constants() + constant_lines(es),
            Err(SchemaError::Xml) => exists|k: int|
                0 <= k < schema_items(xml@).len() && #[trigger] schema_items(xml@)[k] is None
                    && items_map_before(schema_items(xml@), k),
            Err(SchemaError::Element { name }) => exists|k: int|
                0 <= k < schema_items(xml@).len() && #[trigger] schema_items(xml@)[k] is Some
                    && !tag_maps(schema_items(xml@)[k]->0) && name@ == attr_text(
                    schema_items(xml@)[k]->0,
                    "name"@,
                ) && items_map_before(schema_items(xml@), k),
        },
{
    let elements = match parse_schema(xml) {
        Ok(v) => v,
        Err(e) => return Err(e),
    };
    let mut out = String::new();
    push_str(&mut out, "pub const ID_EBML: u64 = 0x1A45DFA3; pub const ID_EBMLVERSION: u64 = 0x4286; pub const ID_EBMLREAD_VERSION: u64 = 0x42F7; pub const ID_EBMLMAX_IDLENGTH: u64 = 0x42F2; pub const ID_EBMLMAX_SIZE_LENGTH: u64 = 0x42F3; pub const ID_DOCTYPE: u64 = 0x4282; pub const ID_DOCTYPE_VERSION: u64 = 0x4287; pub const ID_DOCTYPE_READ_VERSION: u64 = 0x4285; pub const ID_DOCTYPE_EXTENSION: u64 = 0x4281; pub const ID_DOCTYPE_EXTENSION_NAME: u64 = 0x4283; pub const ID_DOCTYPE_EXTENSION_VERSION: u64 = 0x4284; pub const ID_CRC32: u64 = 0xBF; pub const ID_VOID: u64 = 0xEC;");
    let ghost head = out@;
    let mut i: usize = 0;
    while i < elements.len()
        invariant
            i <= elements@.len(),
            out@ == head + constant_lines(elements@.take(i as int)),
        decreases elements@.len() - i,
    {
        let ghost before = out@;
        push_str(&mut out, " pub const ");
        let name = id_const_name(elements[i].name.as_str());
        push_str(&mut out, name.as_str());
        push_str(&mut out, ": u64 = ");
        push_digits(&mut out, elements[i].id);
        push_str(&mut out, "u64;");
        proof {
            assert(elements@.take(i + 1).drop_last() =~= elements@.take(i as int));
            assert(out@ =~= before + constant_line(elements@[i as int]));
        }
        i += 1;
    }
    proof {
        assert(elements@.take(elements@.len() as int) =~= elements@);
        let es = elements@;
        assert(es.len() == schema_items(xml@).len() && (forall|k: int|
            0 <= k < es.len() ==> (#[trigger] schema_items(xml@)[k]) is Some) && (forall|k: int|
            0 <= k < es.len() ==> element_of(#[trigger] es[k], schema_items(xml@)[k]->0))
            && out@ == base_constants() + constant_lines(es));
    }
    Ok(out)
}

} // verus!
