//! XML documents as the sequence of events that a pull parser reports,
//! held as plain values.

use vstd::prelude::*;
use vstd::string::StringExecFns;
use xml::reader::XmlEvent as PullEvent;

verus! {

/// An attribute: its local name and its value.
#[derive(Debug)]
pub struct XmlAttribute {
    name: String,
    value: String,
}

impl View for XmlAttribute {
    type V = (Seq<char>, Seq<char>);

    closed spec fn view(&self) -> (Seq<char>, Seq<char>) {
        (self.name@, self.value@)
    }
}

impl XmlAttribute {
    pub fn new(name: String, value: String) -> (a: XmlAttribute)
        ensures
            a@ == (name@, value@),
    {
        XmlAttribute { name, value }
    }

    pub fn get_name(&self) -> (s: &String)
        ensures
            s@ == self@.0,
    {
        &self.name
    }

    pub fn get_value(&self) -> (s: &String)
        ensures
            s@ == self@.1,
    {
        &self.value
    }
}

/// One parser event; element names are local names.
#[derive(Debug)]
pub enum XmlEvent {
    StartElement { name: String, attributes: Vec<XmlAttribute> },
    EndElement { name: String },
    Characters(String),
    EndDocument,
    /// The parser failed; nothing follows.
    Error,
    /// Any other event (declarations, comments, CDATA, whitespace, ...).
    Other,
}

pub enum XmlEventView {
    StartElement(Seq<char>, Seq<(Seq<char>, Seq<char>)>),
    EndElement(Seq<char>),
    Characters(Seq<char>),
    EndDocument,
    Error,
    Other,
}

pub open spec fn attrs_view(attrs: Seq<XmlAttribute>) -> Seq<(Seq<char>, Seq<char>)> {
    attrs.map_values(|a: XmlAttribute| a@)
}

impl View for XmlEvent {
    type V = XmlEventView;

    open spec fn view(&self) -> XmlEventView {
        match self {
            XmlEvent::StartElement { name, attributes } => XmlEventView::StartElement(
                name@,
                attrs_view(attributes@),
            ),
            XmlEvent::EndElement { name } => XmlEventView::EndElement(name@),
            XmlEvent::Characters(text) => XmlEventView::Characters(text@),
            XmlEvent::EndDocument => XmlEventView::EndDocument,
            XmlEvent::Error => XmlEventView::Error,
            XmlEvent::Other => XmlEventView::Other,
        }
    }
}

pub open spec fn events_view(events: Seq<XmlEvent>) -> Seq<XmlEventView> {
    events.map_values(|e: XmlEvent| e@)
}

/// The events that the `xml` crate's pull parser reports for `bytes`, up to
/// and including the end of the document or the first error.
pub uninterp spec fn xml_events_of(bytes: Seq<u8>) -> Seq<XmlEventView>;

/// Runs the `xml` crate's `EventReader` over `bytes` and collects its
/// events (its iterator stops after `EndDocument` or the first error).
/// Trusted: the result is `xml_events_of(bytes)`, which nothing here
/// defines; element and attribute names are reduced to their local names.
#[verifier::external_body]
pub(crate) fn parse_xml_events(bytes: &[u8]) -> (events: Vec<XmlEvent>)
    ensures
        events_view(events@) == xml_events_of(bytes@),
{
    let mut events = Vec::new();
    for ev in xml::EventReader::new(bytes) {
        events.push(match ev {
            Ok(PullEvent::StartElement { name, attributes, .. }) => XmlEvent::StartElement { name: name.local_name, attributes: attributes.into_iter().map(|a| XmlAttribute { name: a.name.local_name, value: a.value }).collect() },
            Ok(PullEvent::EndElement { name }) => XmlEvent::EndElement { name: name.local_name },
            Ok(PullEvent::Characters(text)) => XmlEvent::Characters(text),
            Ok(PullEvent::EndDocument) => XmlEvent::EndDocument,
            Ok(_) => XmlEvent::Other,
            Err(_) => XmlEvent::Error,
        });
    }
    events
}

/// `s` equals the literal `lit`.
pub fn is_named(s: &String, lit: &str) -> (b: bool)
    ensures
        b == (s@ == lit@),
{
    let l = String::from_str(lit);
    *s == l
}

} // verus!
