use quick_xml::events::Event;
use quick_xml::Reader;
use vstd::prelude::*;

use crate::text::{chars_eq, push_chars, str_chars};

verus! {

#[verifier::external_type_specification]
#[verifier::external_body]
pub struct ExXmlEvent<'a>(quick_xml::events::Event<'a>);

/// The kind of an XML event.
#[derive(PartialEq, Eq, Structural, Clone, Copy)]
pub enum XmlKind {
    Start,
    End,
    Empty,
    Text,
    Other,
    Eof,
}

/// One XML event as plain values: its kind, the local name of its element
/// (for tags), its attributes as (local name, value) pairs (for start and
/// empty tags), its unescaped text (for text) and its serialized form.
pub struct XmlToken {
    pub kind: XmlKind,
    pub name: String,
    pub attrs: Vec<(String, String)>,
    pub text: String,
    pub raw: String,
}

/// `Event` tag kinds, telling the variants of `quick_xml::events::Event`
/// apart.
#[verifier::external_body]
fn event_kind(e: &Event) -> XmlKind {
    match e {
        Event::Start(_) => XmlKind::Start,
        Event::End(_) => XmlKind::End,
        Event::Empty(_) => XmlKind::Empty,
        Event::Text(_) => XmlKind::Text,
        Event::Eof => XmlKind::Eof,
        _ => XmlKind::Other,
    }
}

/// `BytesStart::local_name` / `BytesEnd::local_name` of a tag event, as text.
#[verifier::external_body]
fn event_local_name(e: &Event) -> String {
    match e {
        Event::Start(b) => String::from_utf8_lossy(b.local_name().as_ref()).into_owned(),
        Event::Empty(b) => String::from_utf8_lossy(b.local_name().as_ref()).into_owned(),
        Event::End(b) => String::from_utf8_lossy(b.local_name().as_ref()).into_owned(),
        _ => String::new(),
    }
}

/// `BytesStart::attributes` of a start or empty tag, well-formed ones only,
/// as (local name, value) text pairs.
#[verifier::external_body]
fn event_attributes(e: &Event) -> Vec<(String, String)> {
    let conv = |a: quick_xml::events::attributes::Attribute| {
        (String::from_utf8_lossy(a.key.local_name().as_ref()).into_owned(), String::from_utf8_lossy(&a.value).into_owned())
    };
    match e {
        Event::Start(b) => b.attributes().flatten().map(conv).collect(),
        Event::Empty(b) => b.attributes().flatten().map(conv).collect(),
        _ => Vec::new(),
    }
}

/// `BytesText::unescape` of a text event, empty when it fails.
#[verifier::external_body]
fn event_unescaped_text(e: &Event) -> String {
    match e {
        Event::Text(t) => t.unescape().map(|c| c.into_owned()).unwrap_or_default(),
        _ => String::new(),
    }
}

/// What `quick_xml::Writer::write_event` writes for the event.
#[verifier::external_body]
fn event_serialized(e: &Event) -> String {
    let mut w = quick_xml::Writer::new(Vec::new());
    let _ = w.write_event(e);
    String::from_utf8_lossy(&w.into_inner()).into_owned()
}

pub open spec fn no_eof(ts: Seq<XmlToken>) -> bool {
    forall|i: int| 0 <= i < ts.len() ==> (#[trigger] ts[i]).kind != XmlKind::Eof
}

/// An XML event as plain values: its kind, local name, attributes,
/// unescaped text and serialized form.
pub type TokenView = (XmlKind, Seq<char>, Seq<(Seq<char>, Seq<char>)>, Seq<char>, Seq<char>);

pub open spec fn token_view(t: XmlToken) -> TokenView {
    (t.kind, t.name@, t.attrs@.map_values(|a: (String, String)| (a.0@, a.1@)), t.text@, t.raw@)
}

pub open spec fn tokens_view(ts: Seq<XmlToken>) -> Seq<TokenView> {
    ts.map_values(|t: XmlToken| token_view(t))
}

/// The events that quick-xml's reader yields for a text, up to its end (with
/// `trim`, blank text around markup skipped), each as plain values; or the
/// message of the syntax error that stops it.
pub uninterp spec fn xml_events(xml: Seq<char>, trim: bool) -> Result<Seq<TokenView>, Seq<char>>;

/// The tokens are what quick-xml reads from the text.
pub open spec fn parsed_as(xml: Seq<char>, trim: bool, ts: Seq<XmlToken>) -> bool {
    xml_events(xml, trim) == Ok::<Seq<TokenView>, Seq<char>>(tokens_view(ts))
}

/// Reads the whole text with quick-xml's `Reader::from_str`, `trim_text` and
/// `read_event` until the end, each event converted to plain values; on a
/// syntax error, the error's message. What quick-xml reads is named, not
/// restated: the tokens are `xml_events` of the text, and the end-of-input
/// event is not among them.
#[verifier::external_body]
pub(crate) fn tokenize(xml: &str, trim: bool) -> (r: Result<Vec<XmlToken>, String>)
    ensures
        r matches Ok(ts) ==> xml_events(xml@, trim) is Ok && xml_events(xml@, trim)->Ok_0 == tokens_view(ts@) && no_eof(ts@),
        r matches Err(m) ==> xml_events(xml@, trim) is Err && xml_events(xml@, trim)->Err_0 == m@,
{
    let mut reader = Reader::from_str(xml);
    reader.trim_text(trim);
    let mut out: Vec<XmlToken> = Vec::new();
    loop {
        match reader.read_event() {
            Ok(Event::Eof) => return Ok(out),
            Ok(ev) => out.push(XmlToken { kind: event_kind(&ev), name: event_local_name(&ev), attrs: event_attributes(&ev),
                text: event_unescaped_text(&ev), raw: event_serialized(&ev) }),
            Err(e) => return Err(e.to_string()),
        }
    }
}

/// The token is a tag of that kind with that local name.
pub open spec fn is_tag(t: XmlToken, kind: XmlKind, name: Seq<char>) -> bool {
    t.kind == kind && t.name@ == name
}

pub fn tag_is(t: &XmlToken, kind: XmlKind, name: &str) -> (b: bool)
    ensures
        b == is_tag(*t, kind, name@),
{
    if t.kind != kind {
        return false;
    }
    chars_eq(str_chars(t.name.as_str()).as_slice(), str_chars(name).as_slice())
}

/// The serialized tokens, in order.
pub open spec fn raw_concat(ts: Seq<XmlToken>) -> Seq<char>
    decreases ts.len(),
{
    if ts.len() == 0 {
        Seq::empty()
    } else {
        raw_concat(ts.drop_last()) + ts.last().raw@
    }
}

pub proof fn lemma_raw_concat_take(ts: Seq<XmlToken>, i: int)
    requires
        0 <= i < ts.len(),
    ensures
        raw_concat(ts.take(i + 1)) == raw_concat(ts.take(i)) + ts[i].raw@,
{
    assert(ts.take(i + 1).drop_last() == ts.take(i));
}

pub proof fn lemma_raw_concat_append(a: Seq<XmlToken>, b: Seq<XmlToken>)
    ensures
        raw_concat(a + b) == raw_concat(a) + raw_concat(b),
    decreases b.len(),
{
    if b.len() == 0 {
        assert(a + b == a);
    } else {
        assert((a + b).drop_last() == a + b.drop_last());
        lemma_raw_concat_append(a, b.drop_last());
    }
}

/// The value of the last attribute with that local name.
pub open spec fn attr_value(attrs: Seq<(String, String)>, key: Seq<char>) -> Option<Seq<char>>
    decreases attrs.len(),
{
    if attrs.len() == 0 {
        None
    } else if attrs.last().0@ == key {
        Some(attrs.last().1@)
    } else {
        attr_value(attrs.drop_last(), key)
    }
}

pub fn get_attr(attrs: &Vec<(String, String)>, key: &str) -> (r: Option<String>)
    ensures
        r matches Some(v) ==> attr_value(attrs@, key@) == Some(v@),
        r is None ==> attr_value(attrs@, key@) is None,
{
    let k = str_chars(key);
    let mut j = attrs.len();
    assert(attrs@.take(attrs.len() as int) == attrs@);
    while j > 0
        invariant
            j <= attrs.len(),
            k@ == key@,
            attr_value(attrs@, key@) == attr_value(attrs@.take(j as int), key@),
        decreases j,
    {
        assert(attrs@.take(j as int).drop_last() == attrs@.take(j - 1));
        if chars_eq(str_chars(attrs[j - 1].0.as_str()).as_slice(), k.as_slice()) {
            return Some(attrs[j - 1].1.clone());
        }
        j -= 1;
    }
    None
}

} // verus!
