//! The XML token stream the parsers consume.
//!
//! A document is tokenized once, up front, into a vector of plain events:
//! the XML declaration, start tags with their attributes, end tags, text,
//! and a trailing marker when the text is not well formed.  Tokenization is
//! the one place the library leans on an outside XML reader; everything that
//! interprets the events afterwards is verified.

use vstd::prelude::*;

use quick_xml::events::Event;

verus! {

/// One event of an XML document, in document order.
///
/// `Other` stands for anything the track grammars never read: comments,
/// processing instructions, CDATA sections, DOCTYPE, entity references and
/// self-closing elements.  `Malformed` is emitted once, as the last event,
/// when the reader rejects the text; `Decl` is the `<?xml ...?>` declaration.
pub enum XmlEvent {
    Decl,
    Start(String, Vec<(String, String)>),
    End(String),
    Text(String),
    Other,
    Malformed,
}

/// The mathematical image of one `XmlEvent`.
pub enum XmlEventV {
    Decl,
    Start(Seq<char>, Seq<(Seq<char>, Seq<char>)>),
    End(Seq<char>),
    Text(Seq<char>),
    Other,
    Malformed,
}

impl View for XmlEvent {
    type V = XmlEventV;

    open spec fn view(&self) -> XmlEventV {
        match self {
            XmlEvent::Decl => XmlEventV::Decl,
            XmlEvent::Start(name, attrs) => XmlEventV::Start(name@, attrs.deep_view()),
            XmlEvent::End(name) => XmlEventV::End(name@),
            XmlEvent::Text(text) => XmlEventV::Text(text@),
            XmlEvent::Other => XmlEventV::Other,
            XmlEvent::Malformed => XmlEventV::Malformed,
        }
    }
}

impl DeepView for XmlEvent {
    type V = XmlEventV;

    open spec fn deep_view(&self) -> XmlEventV {
        self.view()
    }
}

/// The event stream an XML text tokenizes to.  Named, not stated: it stands
/// for what the outside reader returns, which depends on the text alone.
pub uninterp spec fn xml_events_of(text: Seq<char>) -> Seq<XmlEventV>;

/// The outside reader's event type, opaque to the library: values of it
/// only pass from `read_event` into `convert_event`.
#[verifier::external_type_specification]
#[verifier::external_body]
pub struct ExEvent<'a>(quick_xml::events::Event<'a>);

/// Relies on the quick_xml event accessors `BytesStart::name`,
/// `BytesStart::attributes`, `Attribute::normalized_value`, `BytesEnd::name`
/// and `BytesText::xml10_content`: copies one event of the outside reader
/// into the library's own event type, attribute values unescaped, an
/// unreadable attribute value left empty.
#[verifier::external_body]
fn convert_event(ev: Event<'_>) -> XmlEvent {
    match ev {
        Event::Decl(_) => XmlEvent::Decl,
        Event::Start(e) => XmlEvent::Start(
            e.name().as_ref().to_string(),
            e.attributes().flatten().map(|a| (a.key.as_ref().to_string(), a.normalized_value(quick_xml::XmlVersion::Implicit1_0).unwrap_or_default().into_owned())).collect(),
        ),
        Event::End(e) => XmlEvent::End(e.name().as_ref().to_string()),
        Event::Text(t) => XmlEvent::Text(t.xml10_content().into_owned()),
        _ => XmlEvent::Other,
    }
}

/// Relies on `quick_xml::Reader`: `from_str`, `config_mut` and
/// `read_event`.  Pulls every event of `text` in document order, with
/// surrounding whitespace of text nodes trimmed, each converted by
/// `convert_event`; a reader error ends the stream with `Malformed`.
#[verifier::external_body]
pub(crate) fn tokenize(text: &str) -> (r: Vec<XmlEvent>)
    ensures
        r.deep_view() == xml_events_of(text@),
{
    let mut rd = quick_xml::Reader::from_str(text);
    rd.config_mut().trim_text(true);
    let mut out: Vec<XmlEvent> = Vec::new();
    loop {
        match rd.read_event() {
            Ok(Event::Eof) => return out,
            Ok(ev) => out.push(convert_event(ev)),
            Err(_) => {
                out.push(XmlEvent::Malformed);
                return out;
            },
        }
    }
}

/// The Unix second a timestamp text denotes, or `None` when it does not
/// parse.  Named, not stated: it stands for what the outside date-time
/// parser returns, which depends on the characters alone.
pub uninterp spec fn utc_seconds_of(s: Seq<char>) -> Option<i64>;

/// Relies on chrono: `DateTime<Utc> as FromStr` (RFC 3339 with offset) and
/// `DateTime::timestamp`.  Which strings parse, and to which Unix second,
/// is a function of the characters alone.
#[verifier::external_body]
pub(crate) fn parse_timestamp(s: &str) -> (r: Option<i64>)
    ensures
        r == utc_seconds_of(s@),
{
    match s.parse::<chrono::DateTime<chrono::Utc>>() {
        Ok(t) => Some(t.timestamp()),
        Err(_) => None,
    }
}

/// Does the string equal the literal?
pub(crate) fn str_eq(s: &String, lit: &str) -> (r: bool)
    ensures
        r == (s@ == lit@),
{
    let l: String = lit.to_owned();
    *s == l
}

/// The value of the first attribute named `key`, if any.
pub open spec fn spec_find_attr(attrs: Seq<(Seq<char>, Seq<char>)>, key: Seq<char>) -> Option<
    Seq<char>,
>
    decreases attrs.len(),
{
    if attrs.len() == 0 {
        None
    } else if attrs[0].0 == key {
        Some(attrs[0].1)
    } else {
        spec_find_attr(attrs.drop_first(), key)
    }
}

/// Looks an attribute up by name, returning a copy of its value.
pub(crate) fn find_attr(attrs: &Vec<(String, String)>, key: &str) -> (r: Option<String>)
    ensures
        match r {
            Some(v) => spec_find_attr(attrs.deep_view(), key@) == Some(v@),
            None => spec_find_attr(attrs.deep_view(), key@) is None,
        },
{
    let ghost full = attrs.deep_view();
    proof {
        assert(full.skip(0) =~= full);
    }
    let mut i: usize = 0;
    while i < attrs.len()
        invariant
            0 <= i <= attrs.len(),
            full == attrs.deep_view(),
            spec_find_attr(full, key@) == spec_find_attr(full.skip(i as int), key@),
        decreases attrs.len() - i,
    {
        proof {
            assert(full.skip(i as int)[0] == full[i as int]);
            assert(full[i as int].0 == attrs[i as int].0@);
            assert(full.skip(i as int).drop_first() =~= full.skip(i + 1));
        }
        if str_eq(&attrs[i].0, key) {
            return Some(attrs[i].1.clone());
        }
        i = i + 1;
    }
    proof {
        assert(full.skip(attrs.len() as int).len() == 0);
    }
    None
}

} // verus!
