use quick_xml::events::Event;
use quick_xml::Reader;
use vstd::prelude::*;

verus! {

#[verifier::external_type_specification]
#[verifier::external_body]
#[verifier::reject_recursive_types(R)]
pub struct ExXmlReader<R>(Reader<R>);

/// An attribute of a start tag: its local name and raw value, or a mark where the
/// reader found a malformed one.
#[derive(Debug, Clone)]
pub enum XmlAttribute {
    Read { name: Vec<u8>, value: Vec<u8> },
    Malformed,
}

/// What the XML reader reports next.
#[derive(Debug, Clone)]
pub enum XmlToken {
    /// A start tag: its local name and its attributes in order.
    Start { name: Vec<u8>, attributes: Vec<XmlAttribute> },
    /// Character data, raw (still escaped).
    Text(Vec<u8>),
    /// An end tag: its local name.
    End { name: Vec<u8> },
    /// The end of the input.
    Eof,
    /// Anything else the reader reports (comments, empty elements, declarations).
    Other,
    /// A syntax error.
    Error,
}

pub enum XmlAttributeView {
    Read { name: Seq<u8>, value: Seq<u8> },
    Malformed,
}

pub enum XmlTokenView {
    Start { name: Seq<u8>, attributes: Seq<XmlAttributeView> },
    Text(Seq<u8>),
    End { name: Seq<u8> },
    Eof,
    Other,
    Error,
}

impl View for XmlAttribute {
    type V = XmlAttributeView;

    open spec fn view(&self) -> XmlAttributeView {
        match self {
            XmlAttribute::Read { name, value } => XmlAttributeView::Read {
                name: name@,
                value: value@,
            },
            XmlAttribute::Malformed => XmlAttributeView::Malformed,
        }
    }
}

impl View for XmlToken {
    type V = XmlTokenView;

    open spec fn view(&self) -> XmlTokenView {
        match self {
            XmlToken::Start { name, attributes } => XmlTokenView::Start {
                name: name@,
                attributes: attributes@.map_values(|a: XmlAttribute| a@),
            },
            XmlToken::Text(t) => XmlTokenView::Text(t@),
            XmlToken::End { name } => XmlTokenView::End { name: name@ },
            XmlToken::Eof => XmlTokenView::Eof,
            XmlToken::Other => XmlTokenView::Other,
            XmlToken::Error => XmlTokenView::Error,
        }
    }
}

/// The events that a `quick_xml::Reader` made by `Reader::from_str` over a document
/// (with `trim_text(false)`) reports, one per call of `read_event`, each converted as
/// `next_xml_token` converts it, up to and including the first `Eof` or error. The
/// reader works on the document's bytes alone, so the events depend on the document
/// alone.
pub uninterp spec fn xml_tokens_of(input: Seq<char>) -> Seq<XmlTokenView>;

/// A `quick_xml` reader over a document, with the document and the number of events
/// it has reported so far. Only `xml_reader` makes one and only `next_xml_token`
/// advances it, so the two always describe the reader.
pub struct XmlCursor<'a> {
    reader: Reader<&'a [u8]>,
    input: Ghost<Seq<char>>,
    read: Ghost<nat>,
}

impl<'a> XmlCursor<'a> {
    /// The document being read.
    pub closed spec fn input(&self) -> Seq<char> {
        self.input@
    }

    /// How many events the reader has reported.
    pub closed spec fn read(&self) -> nat {
        self.read@
    }
}

/// Makes a `quick_xml::Reader` over `input` with `Reader::from_str` and keeps
/// whitespace in text (`trim_text(false)`); nothing has been read yet. Every event but
/// the last consumes at least one byte of the input (a text event is never empty and
/// every other event is markup), so there is at most one event more than there are
/// bytes, and there is at least the final one.
#[verifier::external_body]
pub(crate) fn xml_reader(input: &str) -> (r: XmlCursor<'_>)
    ensures
        r.input() == input@,
        r.read() == 0,
        0 < xml_tokens_of(r.input()).len() <= input.len() + 1,
{
    let mut reader = Reader::from_str(input);
    reader.config_mut().trim_text(false);
    XmlCursor { reader, input: Ghost(input@), read: Ghost(0) }
}

/// Calls `Reader::read_event` of `quick_xml` and converts the event into a token:
/// start and end tags with their local names, a start tag's attributes in order
/// (a malformed one as `Malformed`), text as its raw bytes, any other event as
/// `Other`, an error as `Error`. The token is the next one of the document's events;
/// `Eof` and `Error` come only last.
#[verifier::external_body]
pub(crate) fn next_xml_token(cursor: &mut XmlCursor) -> (r: XmlToken)
    requires
        old(cursor).read() < xml_tokens_of(old(cursor).input()).len(),
    ensures
        final(cursor).input() == old(cursor).input(),
        final(cursor).read() == old(cursor).read() + 1,
        r@ == xml_tokens_of(old(cursor).input())[old(cursor).read() as int],
        (r is Eof || r is Error) <==> final(cursor).read() == xml_tokens_of(
            final(cursor).input(),
        ).len(),
{
    match cursor.reader.read_event() {
        Ok(Event::Start(e)) => XmlToken::Start {
            name: e.local_name().as_ref().to_vec(),
            attributes: e.attributes().map(|a| match a {
                Ok(a) => XmlAttribute::Read { name: a.key.local_name().as_ref().to_vec(), value: a.value.to_vec() },
                Err(_) => XmlAttribute::Malformed,
            }).collect(),
        },
        Ok(Event::Text(t)) => XmlToken::Text(t.to_vec()),
        Ok(Event::End(e)) => XmlToken::End { name: e.local_name().as_ref().to_vec() },
        Ok(Event::Eof) => XmlToken::Eof,
        Ok(_) => XmlToken::Other,
        Err(_) => XmlToken::Error,
    }
}

/// The text that `String::from_utf8_lossy` makes of some bytes.
pub uninterp spec fn lossy_utf8(bytes: Seq<u8>) -> Seq<char>;

/// Calls `String::from_utf8_lossy` of std; the contract names the result
/// `lossy_utf8(bytes)`, a function of the bytes alone.
#[verifier::external_body]
pub(crate) fn utf8_lossy(bytes: &[u8]) -> (r: String)
    ensures
        r@ == lossy_utf8(bytes@),
{
    String::from_utf8_lossy(bytes).into_owned()
}

/// What `quick_xml::escape::unescape` makes of a text: the text with its entity
/// and character references resolved, or `None` where it reports an error.
pub uninterp spec fn xml_unescape_of(text: Seq<char>) -> Option<Seq<char>>;

/// Calls `quick_xml::escape::unescape`; the contract names the result
/// `xml_unescape_of(text)`, a function of the text alone, with an error as `None`.
#[verifier::external_body]
pub(crate) fn xml_unescape(text: &str) -> (r: Option<String>)
    ensures
        match xml_unescape_of(text@) {
            Some(s) => r is Some && r->0@ == s,
            None => r is None,
        },
{
    match quick_xml::escape::unescape(text) {
        Ok(s) => Some(s.into_owned()),
        Err(_) => None,
    }
}

} // verus!
