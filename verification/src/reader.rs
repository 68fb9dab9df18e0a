//! Records from an XML document held in memory, tokenized by `xml-rs`.

use crate::builder::{events_of, process, records_of, Event, ParseEvent};
use crate::record::{nodes_of, Record};
use crate::schema::standard_schema;
use vstd::prelude::*;
use xml::reader::{EventReader, XmlEvent};

verus! {

/// The events that `xml-rs` reads from a document, up to and including
/// the end of the document or the first error.
pub uninterp spec fn xml_events(input: Seq<u8>) -> Seq<Event>;

/// Runs `xml::reader::EventReader`, with its default configuration, over
/// `input` and hands on every item of its iterator: a `StartElement` as
/// `Open` with the element's local name, `Characters` as `Text`, an
/// `EndElement` as `Close`, an error as `Malformed`, anything else as
/// `Other`. The iterator stops behind the end of the document or the
/// first error; what it yields depends on the bytes alone.
#[verifier::external_body]
fn tokenize(input: &[u8]) -> (events: Vec<ParseEvent>)
    ensures
        events_of(events@) == xml_events(input@),
{
    EventReader::new(input).into_iter().map(
        |item| match item {
            Ok(XmlEvent::StartElement { name, .. }) => ParseEvent::Open(name.local_name),
            Ok(XmlEvent::Characters(text)) => ParseEvent::Text(text),
            Ok(XmlEvent::EndElement { .. }) => ParseEvent::Close,
            Ok(_) => ParseEvent::Other,
            Err(_) => ParseEvent::Malformed,
        },
    ).collect()
}

/// The records of an XML document: the document is tokenized, and an
/// idle builder for the built-in schema is run over the events.
pub fn process_document(input: &[u8]) -> (records: Vec<Record>)
    ensures
        nodes_of(records@) == records_of(standard_schema(), xml_events(input@)),
{
    let events = tokenize(input);
    process(events.as_slice())
}

} // verus!
