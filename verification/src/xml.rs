//! Reading XML documents event by event through `quick-xml`, and the
//! library's own queries over the events read.

use vstd::prelude::*;
use crate::text::{opt_view, str_eq};

verus! {

broadcast use vstd::string::group_string_axioms;

/// `quick_xml::Reader`, carried opaquely.
#[verifier::external_type_specification]
#[verifier::external_body]
#[verifier::reject_recursive_types(R)]
pub struct ExXmlReader<R>(quick_xml::Reader<R>);

/// `quick_xml::events::BytesStart`, carried opaquely.
#[verifier::external_type_specification]
#[verifier::external_body]
pub struct ExBytesStart<'i>(quick_xml::events::BytesStart<'i>);

/// One reader event, as plain values.
#[derive(Debug, Clone)]
pub enum XmlEvent {
    /// A start tag, or an empty element when `empty`: its well-formed
    /// attributes with their values unescaped, the same attributes with their
    /// values as written, and the message of the first malformed attribute,
    /// if one is.
    Open {
        name: String,
        attributes: Vec<(String, String)>,
        raw: Vec<(String, String)>,
        attribute_error: Option<String>,
        empty: bool,
    },
    /// An end tag.
    Close { name: String },
    /// The end of the document.
    End,
    /// Text, comments and the like.
    Other,
    /// The document is malformed here; the reader's message.
    Invalid(String),
}

/// The event `quick_xml::Reader::read_event` hands out on its call number
/// `k` (counting from zero) on a reader made by `Reader::from_str(doc)`,
/// converted as `next_event` converts it. The reader does the same on the
/// same document every time, so this is a function of the two.
pub uninterp spec fn xml_event(doc: Seq<char>, k: nat) -> XmlEvent;

/// A reader over a document, with the document and how many events it has
/// handed out so far. Only `open_cursor` makes one and only `next_event`
/// moves it on.
pub struct XmlCursor<'a> {
    reader: quick_xml::Reader<&'a [u8]>,
    doc: Ghost<Seq<char>>,
    read: Ghost<nat>,
}

impl<'a> XmlCursor<'a> {
    pub closed spec fn document(&self) -> Seq<char> {
        self.doc@
    }

    pub closed spec fn events_read(&self) -> nat {
        self.read@
    }
}

/// `quick_xml::Reader::from_str`: a fresh reader over the document.
#[verifier::external_body]
fn open_cursor<'a>(xml: &'a str) -> (r: XmlCursor<'a>)
    ensures
        r.document() == xml@,
        r.events_read() == 0,
{
    XmlCursor { reader: quick_xml::Reader::from_str(xml), doc: Ghost(xml@), read: Ghost(0) }
}

/// `BytesStart::attributes`, each attribute as (name, value): the value as
/// `Attribute::normalized_value` unescapes it for XML 1.0, or as written
/// where that fails; malformed attributes are skipped, as `flatten` does.
/// Nothing is promised of the result.
#[verifier::external_body]
fn attribute_pairs(e: &quick_xml::events::BytesStart) -> (r: Vec<(String, String)>) {
    e.attributes().flatten().map(|a| (
        a.key.as_ref().to_string(),
        a.normalized_value(quick_xml::XmlVersion::Implicit1_0)
            .map(|c| c.into_owned())
            .unwrap_or_else(|_| a.value.to_string()),
    )).collect()
}

/// `BytesStart::attributes`, each attribute as (name, value) with the value
/// as written, entities and all; malformed attributes are skipped, as
/// `flatten` does. Nothing is promised of the result.
#[verifier::external_body]
fn raw_attribute_pairs(e: &quick_xml::events::BytesStart) -> (r: Vec<(String, String)>) {
    e.attributes().flatten().map(|a| (
        a.key.as_ref().to_string(),
        a.value.to_string(),
    )).collect()
}

/// The message of the first malformed attribute of a tag, as
/// `BytesStart::attributes` reports it, if one is. Nothing is promised of
/// the result.
#[verifier::external_body]
fn first_attribute_error(e: &quick_xml::events::BytesStart) -> (r: Option<String>) {
    match e.attributes().find(|a| a.is_err()) {
        Some(Err(error)) => Some(error.to_string()),
        _ => None,
    }
}

/// A start or empty tag converted: its name as written, its attributes as
/// `attribute_pairs`, `raw_attribute_pairs` and `first_attribute_error` give
/// them. Nothing is promised of the result.
#[verifier::external_body]
fn open_event(e: &quick_xml::events::BytesStart, empty: bool) -> (r: XmlEvent) {
    XmlEvent::Open {
        name: e.name().as_ref().to_string(),
        attributes: attribute_pairs(e),
        raw: raw_attribute_pairs(e),
        attribute_error: first_attribute_error(e),
        empty,
    }
}

/// `Reader::read_event`, converted: start and empty tags with their names
/// and attributes, end tags, the end of input, anything else, or an error
/// with the reader's message. The event is the one that call number hands
/// out on that document.
#[verifier::external_body]
fn next_event(c: &mut XmlCursor) -> (r: XmlEvent)
    ensures
        r == xml_event(old(c).document(), old(c).events_read()),
        final(c).document() == old(c).document(),
        final(c).events_read() == old(c).events_read() + 1,
{
    let r = match c.reader.read_event() {
        Ok(quick_xml::events::Event::Start(e)) => open_event(&e, false),
        Ok(quick_xml::events::Event::Empty(e)) => open_event(&e, true),
        Ok(quick_xml::events::Event::End(e)) => XmlEvent::Close { name: e.name().as_ref().to_string() },
        Ok(quick_xml::events::Event::Eof) => XmlEvent::End,
        Ok(_) => XmlEvent::Other,
        Err(e) => XmlEvent::Invalid(e.to_string()),
    };
    c.read = Ghost(c.read@ + 1);
    r
}

/// The end of input, or the document turning out malformed: no event
/// follows either.
pub open spec fn stops(e: XmlEvent) -> bool {
    e is End || e is Invalid
}

/// The events from call number `k` on, at most `left` of them, up to and
/// including the first end of input or error.
pub open spec fn events_from(doc: Seq<char>, k: nat, left: nat) -> Seq<XmlEvent>
    decreases left,
{
    if left == 0 {
        Seq::empty()
    } else if stops(xml_event(doc, k)) {
        seq![xml_event(doc, k)]
    } else {
        seq![xml_event(doc, k)] + events_from(doc, k + 1, (left - 1) as nat)
    }
}

/// How many events a document of `len` bytes is read for at most: one more
/// than it has bytes, as every event but the end consumes input.
pub open spec fn event_limit(len: usize) -> nat {
    if len < usize::MAX {
        (len + 1) as nat
    } else {
        len as nat
    }
}

/// The events a document reads out as.
pub open spec fn document_events(xml: &str) -> Seq<XmlEvent> {
    events_from(xml@, 0, event_limit(xml.len()))
}

/// The events of a document, up to and including the end of input or the
/// first error. Every event consumes input, so at most one more event than
/// the document has bytes is read.
pub fn read_events(xml: &str) -> (r: Vec<XmlEvent>)
    ensures
        r.len() <= xml.len() + 1,
        r@ == document_events(xml),
{
    let mut cursor = open_cursor(xml);
    let mut out: Vec<XmlEvent> = Vec::new();
    let limit: usize = if xml.len() < usize::MAX {
        xml.len() + 1
    } else {
        xml.len()
    };
    let mut n: usize = 0;
    while n < limit
        invariant
            out.len() == n,
            n <= limit,
            limit <= xml.len() + 1,
            limit == event_limit(xml.len()),
            cursor.document() == xml@,
            cursor.events_read() == n,
            out@ + events_from(xml@, n as nat, (limit - n) as nat) == document_events(xml),
        decreases limit - n,
    {
        let ghost rest = events_from(xml@, n as nat, (limit - n) as nat);
        let ev = next_event(&mut cursor);
        let stop = match &ev {
            XmlEvent::End => true,
            XmlEvent::Invalid(_) => true,
            _ => false,
        };
        out.push(ev);
        n += 1;
        if stop {
            assert(rest == seq![ev]);
            assert(out@ =~= document_events(xml));
            return out;
        }
        assert(out@ + events_from(xml@, n as nat, (limit - n) as nat) =~= document_events(xml));
    }
    assert(out@ + Seq::<XmlEvent>::empty() =~= out@);
    out
}

/// The value of the first attribute called `name`.
pub open spec fn attr_in(attrs: Seq<(String, String)>, name: Seq<char>) -> Option<Seq<char>>
    decreases attrs.len(),
{
    if attrs.len() == 0 {
        None
    } else if attrs[0].0@ == name {
        Some(attrs[0].1@)
    } else {
        attr_in(attrs.drop_first(), name)
    }
}

/// The first attribute called `name` on any element, in document order;
/// nothing once the input ends or turns out malformed.
pub open spec fn first_attribute_named(evs: Seq<XmlEvent>, name: Seq<char>) -> Option<Seq<char>>
    decreases evs.len(),
{
    if evs.len() == 0 {
        None
    } else {
        match evs[0] {
            XmlEvent::Open { attributes, .. } => match attr_in(attributes@, name) {
                Some(v) => Some(v),
                None => first_attribute_named(evs.drop_first(), name),
            },
            XmlEvent::End => None,
            XmlEvent::Invalid(_) => None,
            _ => first_attribute_named(evs.drop_first(), name),
        }
    }
}

fn attribute_of(attrs: &Vec<(String, String)>, name: &str) -> (r: Option<String>)
    ensures
        opt_view(r) == attr_in(attrs@, name@),
{
    let mut i: usize = 0;
    assert(attrs@.skip(0) =~= attrs@);
    while i < attrs.len()
        invariant
            i <= attrs.len(),
            attr_in(attrs@, name@) == attr_in(attrs@.skip(i as int), name@),
        decreases attrs.len() - i,
    {
        assert(attrs@.skip(i as int)[0] == attrs@[i as int]);
        if str_eq(attrs[i].0.as_str(), name) {
            return Some(attrs[i].1.clone());
        }
        assert(attrs@.skip(i as int).drop_first() =~= attrs@.skip(i + 1));
        i += 1;
    }
    None
}

/// The first attribute called `name` on any element of the events.
pub fn attribute_in(evs: &Vec<XmlEvent>, name: &str) -> (r: Option<String>)
    ensures
        opt_view(r) == first_attribute_named(evs@, name@),
{
    let mut i: usize = 0;
    assert(evs@.skip(0) =~= evs@);
    while i < evs.len()
        invariant
            i <= evs.len(),
            first_attribute_named(evs@, name@) == first_attribute_named(evs@.skip(i as int), name@),
        decreases evs.len() - i,
    {
        assert(evs@.skip(i as int)[0] == evs@[i as int]);
        assert(evs@.skip(i as int).drop_first() =~= evs@.skip(i + 1));
        match &evs[i] {
            XmlEvent::Open { attributes, .. } => {
                match attribute_of(attributes, name) {
                    Some(v) => return Some(v),
                    None => {},
                }
            },
            XmlEvent::End => return None,
            XmlEvent::Invalid(_) => return None,
            _ => {},
        }
        i += 1;
    }
    None
}

/// The `machineIdentifier` a server's identity document declares: the first
/// such attribute in the events the document reads out as.
pub fn identity_machine_identifier(xml: &str) -> (r: Option<String>)
    ensures
        opt_view(r) == first_attribute_named(document_events(xml), "machineIdentifier"@),
{
    let evs = read_events(xml);
    attribute_in(&evs, "machineIdentifier")
}

/// The value of the last attribute called `name` (later ones overwrite
/// earlier ones).
pub open spec fn attr_last(attrs: Seq<(String, String)>, name: Seq<char>) -> Option<Seq<char>>
    decreases attrs.len(),
{
    if attrs.len() == 0 {
        None
    } else if attrs.last().0@ == name {
        Some(attrs.last().1@)
    } else {
        attr_last(attrs.drop_last(), name)
    }
}

/// The last attribute called `name`.
pub fn last_attribute_of(attrs: &Vec<(String, String)>, name: &str) -> (r: Option<String>)
    ensures
        opt_view(r) == attr_last(attrs@, name@),
{
    let mut found: Option<String> = None;
    let mut i: usize = 0;
    while i < attrs.len()
        invariant
            i <= attrs.len(),
            opt_view(found) == attr_last(attrs@.take(i as int), name@),
        decreases attrs.len() - i,
    {
        let ghost t = attrs@.take(i + 1);
        assert(t.drop_last() =~= attrs@.take(i as int));
        assert(t.last() == attrs@[i as int]);
        if str_eq(attrs[i].0.as_str(), name) {
            found = Some(attrs[i].1.clone());
        }
        i += 1;
    }
    assert(attrs@.take(i as int) =~= attrs@);
    found
}

/// Some attribute called `name` has `needle` in its value.
pub open spec fn attr_any_contains(attrs: Seq<(String, String)>, name: Seq<char>, needle: Seq<char>) -> bool {
    exists|i: int|
        0 <= i < attrs.len() && (#[trigger] attrs[i]).0@ == name && crate::text::contains(
            attrs[i].1@,
            needle,
        )
}

pub fn any_attribute_contains(attrs: &Vec<(String, String)>, name: &str, needle: &str) -> (r: bool)
    ensures
        r == attr_any_contains(attrs@, name@, needle@),
{
    let mut i: usize = 0;
    while i < attrs.len()
        invariant
            i <= attrs.len(),
            forall|k: int|
                0 <= k < i ==> !((#[trigger] attrs@[k]).0@ == name@ && crate::text::contains(
                    attrs@[k].1@,
                    needle@,
                )),
        decreases attrs.len() - i,
    {
        if str_eq(attrs[i].0.as_str(), name) && crate::text::contains_str(
            attrs[i].1.as_str(),
            needle,
        ) {
            return true;
        }
        i += 1;
    }
    false
}

} // verus!
