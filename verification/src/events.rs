//! The events of XML documents as the rewriting sees them, and the reading
//! and writing of documents with `quick-xml`.
use quick_xml::events::attributes::Attribute;
use quick_xml::events::{BytesEnd, BytesStart, BytesText, Event};
use quick_xml::name::QName;
use quick_xml::{Reader, Writer};
use std::borrow::Cow;
use vstd::prelude::*;

verus! {

/// An event of `quick-xml`, carried through unchanged.
#[verifier::external_type_specification]
#[verifier::external_body]
pub struct ExXmlEvent<'a>(Event<'a>);

/// A start or empty-element tag of `quick-xml`.
#[verifier::external_type_specification]
#[verifier::external_body]
pub struct ExBytesStart<'a>(BytesStart<'a>);

/// An attribute of a start tag as it stands in the source: its key and its
/// value, both raw (the value still escaped).
pub struct XmlAttribute {
    pub key: Vec<u8>,
    pub value: Vec<u8>,
}

/// A start tag or an empty-element tag: the element's name and its
/// attributes, in order.
pub struct XmlTag {
    pub name: Vec<u8>,
    pub attributes: Vec<XmlAttribute>,
}

/// An event read from an XML document, as far as the rewriting looks at it.
pub enum XmlEvent {
    /// A start tag, `<name ...>`, and the event as read.
    Start(XmlTag, Event<'static>),
    /// An empty-element tag, `<name .../>`, and the event as read.
    Empty(XmlTag, Event<'static>),
    /// An end tag `</name>`, with the name, and the event as read.
    End(Vec<u8>, Event<'static>),
    /// Anything else, as read: text, comments, CDATA, declarations,
    /// processing instructions, document types and references.
    Other(Event<'static>),
}

/// An attribute of a tag that is written out.
pub enum OutAttribute {
    /// An attribute copied from the source, raw.
    Raw { key: Vec<u8>, value: Vec<u8> },
    /// An attribute with a new value, which the writer escapes.
    Escaped { key: String, value: String },
}

/// A tag that is written out.
pub struct OutTag {
    pub name: String,
    pub attributes: Vec<OutAttribute>,
}

/// An event to write out.
pub enum XmlOutput {
    /// The event read at this index, unchanged.
    Keep(usize),
    /// A start tag.
    Start(OutTag),
    /// An empty-element tag.
    Empty(OutTag),
    /// Text, which the writer escapes.
    Text(String),
    /// An end tag with this name.
    End(String),
}

/// The value of an attribute that is written out.
pub enum AttributeModel {
    Raw(Seq<u8>, Seq<u8>),
    Escaped(Seq<char>, Seq<char>),
}

/// The value of a tag that is written out.
pub struct TagModel {
    pub name: Seq<char>,
    pub attributes: Seq<AttributeModel>,
}

/// The value of an event to write out.
pub enum OutputModel {
    Keep(int),
    Start(TagModel),
    Empty(TagModel),
    Text(Seq<char>),
    End(Seq<char>),
}

impl View for OutAttribute {
    type V = AttributeModel;

    open spec fn view(&self) -> AttributeModel {
        match self {
            OutAttribute::Raw { key, value } => AttributeModel::Raw(key@, value@),
            OutAttribute::Escaped { key, value } => AttributeModel::Escaped(key@, value@),
        }
    }
}

impl View for OutTag {
    type V = TagModel;

    open spec fn view(&self) -> TagModel {
        TagModel { name: self.name@, attributes: self.attributes@.map_values(|a: OutAttribute| a@) }
    }
}

impl View for XmlOutput {
    type V = OutputModel;

    open spec fn view(&self) -> OutputModel {
        match self {
            XmlOutput::Keep(i) => OutputModel::Keep(*i as int),
            XmlOutput::Start(t) => OutputModel::Start(t@),
            XmlOutput::Empty(t) => OutputModel::Empty(t@),
            XmlOutput::Text(s) => OutputModel::Text(s@),
            XmlOutput::End(s) => OutputModel::End(s@),
        }
    }
}

/// The values of a list of events to write out.
pub open spec fn outputs(out: Seq<XmlOutput>) -> Seq<OutputModel> {
    out.map_values(|o: XmlOutput| o@)
}

/// The events that `quick-xml`'s reader reads from a document, with trimming
/// of text off, the end-name check as given, and attributes read in XML form
/// (or, with `html`, in HTML form); and whether the document was read to its
/// end without an error (else the events are those before the error).
pub uninterp spec fn xml_events_of(bytes: Seq<u8>, check_end_names: bool, html: bool) -> (Seq<XmlEvent>, bool);

/// The bytes that `quick-xml`'s writer writes for a list of events to write,
/// the kept ones taken from `events`.
pub uninterp spec fn xml_text_of(events: Seq<XmlEvent>, out: Seq<OutputModel>) -> Seq<u8>;

/// Reads a document with `quick_xml::Reader::read_event`, event after event
/// until the end or the first error, each event turned into the library's
/// form by `xml_event`. Claimed: the events and the outcome are a function of
/// the bytes and the two settings alone (`xml_events_of`).
#[verifier::external_body]
pub(crate) fn read_xml_events(bytes: &[u8], check_end_names: bool, html: bool) -> (r: (Vec<XmlEvent>, bool))
    ensures
        (r.0@, r.1) == xml_events_of(bytes@, check_end_names, html),
{
    let mut reader = Reader::from_reader(bytes);
    reader.config_mut().trim_text(false);
    reader.config_mut().check_end_names = check_end_names;
    let mut events = Vec::new();
    loop {
        match reader.read_event() {
            Ok(Event::Eof) => return (events, true),
            Ok(event) => events.push(xml_event(event.into_owned(), html)),
            Err(_) => return (events, false),
        }
    }
}

/// Turns an event of `quick-xml` into the library's form: start and
/// empty-element tags by `xml_tag`, end tags by their name, each event with
/// itself.
#[verifier::external_body]
fn xml_event(event: Event<'static>, html: bool) -> XmlEvent {
    match event {
        Event::Start(t) => XmlEvent::Start(xml_tag(&t, html), Event::Start(t)),
        Event::Empty(t) => XmlEvent::Empty(xml_tag(&t, html), Event::Empty(t)),
        Event::End(t) => XmlEvent::End(t.name().as_ref().to_vec(), Event::End(t)),
        other => XmlEvent::Other(other),
    }
}

/// Turns a tag of `quick-xml` into the library's form: its name and the
/// attributes that `BytesStart::attributes` (or, with `html`,
/// `html_attributes`) reads without error, raw.
#[verifier::external_body]
fn xml_tag(t: &BytesStart, html: bool) -> XmlTag {
    let attributes = if html { t.html_attributes() } else { t.attributes() };
    XmlTag {
        name: t.name().as_ref().to_vec(),
        attributes: attributes
            .filter_map(Result::ok)
            .map(|a| XmlAttribute { key: a.key.as_ref().to_vec(), value: a.value.to_vec() })
            .collect(),
    }
}

/// Writes events with `quick_xml::Writer::write_event` into a new buffer,
/// each turned into an event of `quick-xml` by `quick_event`. Claimed: the
/// bytes are a function of the events read and the events to write alone
/// (`xml_text_of`).
#[verifier::external_body]
pub(crate) fn write_xml(events: &Vec<XmlEvent>, out: &Vec<XmlOutput>) -> (r: Vec<u8>)
    requires
        keeps_read_events(events@, outputs(out@)),
    ensures
        r@ == xml_text_of(events@, outputs(out@)),
{
    let mut writer = Writer::new(Vec::new());
    for o in out {
        // Writing into a vector cannot fail.
        let _ = writer.write_event(quick_event(o, events));
    }
    writer.into_inner()
}

/// Turns an event to write into an event of `quick-xml`: a kept event is the
/// one read, tags are built by `quick_tag`, text with `BytesText::new`
/// (escaped) and end tags with `BytesEnd::new`.
#[verifier::external_body]
fn quick_event<'a>(o: &'a XmlOutput, events: &'a Vec<XmlEvent>) -> Event<'a> {
    match o {
        XmlOutput::Keep(i) => match &events[*i] {
            XmlEvent::Start(_, e) | XmlEvent::Empty(_, e) | XmlEvent::End(_, e) | XmlEvent::Other(e) => e.borrow(),
        },
        XmlOutput::Start(t) => Event::Start(quick_tag(t)),
        XmlOutput::Empty(t) => Event::Empty(quick_tag(t)),
        XmlOutput::Text(s) => Event::Text(BytesText::new(s.as_str())),
        XmlOutput::End(n) => Event::End(BytesEnd::new(n.as_str())),
    }
}

/// Builds a tag of `quick-xml` with `BytesStart::new` and `push_attribute`:
/// raw attributes as they were read, the others escaped.
#[verifier::external_body]
fn quick_tag(t: &OutTag) -> BytesStart<'_> {
    let mut e = BytesStart::new(t.name.as_str());
    for a in &t.attributes {
        match a {
            OutAttribute::Raw { key, value } => e.push_attribute(Attribute { key: QName(key), value: Cow::Borrowed(value) }),
            OutAttribute::Escaped { key, value } => e.push_attribute((key.as_str(), value.as_str())),
        }
    }
    e
}

/// A kept event is one that was read, which the writer can write back as it
/// was.
pub open spec fn keeps_read_event(events: Seq<XmlEvent>, o: OutputModel) -> bool {
    o matches OutputModel::Keep(i) ==> 0 <= i < events.len()
}

/// Every event kept in a list to write is one that was read.
pub open spec fn keeps_read_events(events: Seq<XmlEvent>, out: Seq<OutputModel>) -> bool {
    forall|k: int| 0 <= k < out.len() ==> keeps_read_event(events, #[trigger] out[k])
}

} // verus!
