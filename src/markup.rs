//! The markup event model: xml-rs's reader events, seen by Verus field by
//! field, and the two places where a document meets the parser and the
//! serializer of xml-rs.
use vstd::prelude::*;
use xml::attribute::OwnedAttribute;
use xml::common::XmlVersion;
use xml::name::OwnedName;
use xml::namespace::Namespace;
use xml::reader::XmlEvent;
use xml::reader::EventReader;
use xml::reader::ParserConfig;
use xml::writer::EmitterConfig;
use xml::writer::EventWriter;

verus! {

// xml-rs's event types, which Verus reads field by field from the crate's
// own definitions: the engine matches on them and builds them directly.
#[verifier::external_type_specification]
pub struct ExXmlVersion(XmlVersion);

#[verifier::external_type_specification]
pub struct ExOwnedName(OwnedName);

#[verifier::external_type_specification]
pub struct ExOwnedAttribute(OwnedAttribute);

#[verifier::external_type_specification]
pub struct ExNamespace(Namespace);

#[verifier::external_type_specification]
pub struct ExXmlEvent(XmlEvent);

// The reader's and the writer's errors, carried through as they are.
#[verifier::external_type_specification]
#[verifier::external_body]
pub struct ExReadError(xml::reader::Error);

#[verifier::external_type_specification]
#[verifier::external_body]
pub struct ExWriteError(xml::writer::Error);

/// A qualified name as plain text.
pub struct NameView {
    pub local: Seq<char>,
    pub namespace: Option<Seq<char>>,
    pub prefix: Option<Seq<char>>,
}

/// An attribute as plain text.
pub struct AttrView {
    pub name: NameView,
    pub value: Seq<char>,
}

/// A markup event as plain values.
pub enum EventView {
    StartDocument { version: XmlVersion, encoding: Seq<char>, standalone: Option<bool> },
    EndDocument,
    ProcessingInstruction { name: Seq<char>, data: Option<Seq<char>> },
    StartElement { name: NameView, attributes: Seq<AttrView>, namespace: Map<String, String> },
    EndElement { name: NameView },
    CData(Seq<char>),
    Comment(Seq<char>),
    Characters(Seq<char>),
    Whitespace(Seq<char>),
}

pub open spec fn opt_view(o: Option<String>) -> Option<Seq<char>> {
    match o {
        Some(s) => Some(s@),
        None => None,
    }
}

pub open spec fn name_view(n: OwnedName) -> NameView {
    NameView { local: n.local_name@, namespace: opt_view(n.namespace), prefix: opt_view(n.prefix) }
}

pub open spec fn attr_view(a: OwnedAttribute) -> AttrView {
    AttrView { name: name_view(a.name), value: a.value@ }
}

pub open spec fn attrs_view(s: Seq<OwnedAttribute>) -> Seq<AttrView> {
    s.map_values(|a: OwnedAttribute| attr_view(a))
}

/// The plain view of an event.
pub open spec fn event_view(e: XmlEvent) -> EventView {
    match e {
        XmlEvent::StartDocument { version, encoding, standalone } => EventView::StartDocument {
            version,
            encoding: encoding@,
            standalone,
        },
        XmlEvent::EndDocument => EventView::EndDocument,
        XmlEvent::ProcessingInstruction { name, data } => EventView::ProcessingInstruction {
            name: name@,
            data: opt_view(data),
        },
        XmlEvent::StartElement { name, attributes, namespace } => EventView::StartElement {
            name: name_view(name),
            attributes: attrs_view(attributes@),
            namespace: namespace.0@,
        },
        XmlEvent::EndElement { name } => EventView::EndElement { name: name_view(name) },
        XmlEvent::CData(s) => EventView::CData(s@),
        XmlEvent::Comment(s) => EventView::Comment(s@),
        XmlEvent::Characters(s) => EventView::Characters(s@),
        XmlEvent::Whitespace(s) => EventView::Whitespace(s@),
    }
}

pub open spec fn events_view(s: Seq<XmlEvent>) -> Seq<EventView> {
    s.map_values(|e: XmlEvent| event_view(e))
}

/// The views of the events behind a sequence of references.
pub open spec fn ref_events_view(s: Seq<&XmlEvent>) -> Seq<EventView> {
    s.map_values(|e: &XmlEvent| event_view(*e))
}

/// The events that xml-rs's reader yields for a document, or `None` where it
/// reports an error before the end.
pub uninterp spec fn parsed_markup(text: Seq<char>, ignore_comments: bool) -> Option<Seq<EventView>>;

/// The text that xml-rs's writer emits for a sequence of events, or `None`
/// where it refuses one of them.
pub uninterp spec fn markup_text(events: Seq<EventView>) -> Option<Seq<char>>;

/// The text of a JSON object that maps each key to its string value, as
/// serde_json writes it.
pub uninterp spec fn json_object_text(entries: Seq<(Seq<char>, Seq<char>)>) -> Seq<char>;

/// The plain-text view of a sequence of key/value string pairs.
pub open spec fn pair_views(s: Seq<(String, String)>) -> Seq<(Seq<char>, Seq<char>)> {
    s.map_values(|p: (String, String)| (p.0@, p.1@))
}

/// Relies on xml::reader::EventReader (iterated to its end): the events of a
/// document depend on its text and the comment setting alone, and iteration
/// stops at the first error.
#[verifier::external_body]
pub(crate) fn read_markup(text: &str, ignore_comments: bool) -> (r: Result<
    Vec<XmlEvent>,
    xml::reader::Error,
>)
    ensures
        match r {
            Ok(v) => parsed_markup(text@, ignore_comments) == Some(events_view(v@)),
            Err(_) => parsed_markup(text@, ignore_comments) is None,
        },
{
    let config = ParserConfig::new().ignore_comments(ignore_comments);
    EventReader::new_with_config(text.as_bytes(), config).into_iter().collect()
}

/// Relies on xml::writer::EventWriter, configured without a document
/// declaration and without collapsing empty elements, fed each event through
/// xml-rs's `as_writer_event`: its output depends on the events alone.
#[verifier::external_body]
pub(crate) fn write_markup(events: &Vec<&XmlEvent>) -> (r: Result<String, xml::writer::Error>)
    ensures
        match r {
            Ok(s) => markup_text(ref_events_view(events@)) == Some(s@),
            Err(_) => markup_text(ref_events_view(events@)) is None,
        },
{
    let config = EmitterConfig::new().write_document_declaration(false).normalize_empty_elements(
        false,
    );
    let mut writer = EventWriter::new_with_config(Vec::new(), config);
    for event in events {
        if let Some(e) = event.as_writer_event() {
            writer.write(e)?;
        }
    }
    Ok(String::from_utf8_lossy(&writer.into_inner()).into_owned())
}

/// Relies on serde_json::to_string over a serde_json::Map of string values;
/// serializing such a map cannot fail, and its text depends on the pairs alone.
#[verifier::external_body]
pub(crate) fn write_json_object(entries: &Vec<(String, String)>) -> (r: String)
    ensures
        r@ == json_object_text(pair_views(entries@)),
{
    let map: serde_json::Map<String, serde_json::Value> = entries.iter().map(
        |(k, v)| (k.clone(), serde_json::Value::String(v.clone())),
    ).collect();
    serde_json::to_string(&map).unwrap_or_default()
}

/// The text of a qualified name as xml-rs displays it:
/// `{namespace}prefix:local`, each part only where present.
pub open spec fn name_text(n: NameView) -> Seq<char> {
    (match n.namespace {
        Some(u) => seq!['{'] + u + seq!['}'],
        None => Seq::empty(),
    }) + (match n.prefix {
        Some(p) => p + seq![':'],
        None => Seq::empty(),
    }) + n.local
}

/// The displayed text of a qualified name.
pub fn name_string(n: &OwnedName) -> (r: String)
    ensures
        r@ == name_text(name_view(*n)),
{
    let mut s = String::new();
    match &n.namespace {
        Some(u) => {
            s.append("{");
            s.append(u.as_str());
            s.append("}");
        },
        None => {},
    }
    match &n.prefix {
        Some(p) => {
            s.append(p.as_str());
            s.append(":");
        },
        None => {},
    }
    s.append(n.local_name.as_str());
    proof {
        reveal_strlit("{");
        reveal_strlit("}");
        reveal_strlit(":");
        assert(s@ =~= name_text(name_view(*n)));
    }
    s
}

/// A name without namespace or prefix.
pub fn local_name(s: &str) -> (r: OwnedName)
    ensures
        name_view(r) == (NameView { local: s@, namespace: None, prefix: None }),
{
    let r = OwnedName { local_name: s.to_string(), namespace: None, prefix: None };
    r
}

} // verus!
