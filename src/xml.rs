use vstd::prelude::*;

use quick_xml::events::{BytesDecl, BytesEnd, BytesStart, BytesText, Event};
use quick_xml::reader::Reader;
use quick_xml::writer::Writer;
use quick_xml::Error as XmlError;

use crate::error::Error;

verus! {

/// quick-xml's streaming reader, held opaque.
#[verifier::external_type_specification]
#[verifier::external_body]
#[verifier::reject_recursive_types(R)]
pub struct ExReader<R>(Reader<R>);

/// quick-xml's error, returned by the writing calls.
#[verifier::external_type_specification]
#[verifier::external_body]
pub struct ExXmlError(XmlError);

/// A start tag as quick-xml holds it.
#[verifier::external_type_specification]
#[verifier::external_body]
pub struct ExBytesStart<'a>(BytesStart<'a>);

/// An XML declaration as quick-xml holds it.
#[verifier::external_type_specification]
#[verifier::external_body]
pub struct ExBytesDecl<'a>(BytesDecl<'a>);

/// An attribute of a start tag, its value unescaped.
#[derive(Debug, Clone, PartialEq)]
pub struct XmlAttribute {
    pub key: String,
    pub value: String,
}

/// One step of an XML document, with names and text as plain strings.
#[derive(Debug, Clone, PartialEq)]
pub enum XmlToken {
    /// The XML declaration, with its `encoding` if it has one.
    Decl { encoding: Option<String> },
    /// A start tag with its attributes.
    Start { name: String, attributes: Vec<XmlAttribute> },
    /// An end tag.
    End { name: String },
    /// Character data, unescaped.
    Text { text: String },
    /// The end of the input.
    Eof,
    /// Anything else: comments, processing instructions, CDATA, doctype.
    Other,
    /// An XML declaration whose `encoding` cannot be read.
    UnreadableEncoding,
    /// The input is not well-formed XML from here on.
    Malformed,
}

/// The view of a token: its strings as character sequences.
pub enum TokenView {
    Decl(Option<Seq<char>>),
    Start(Seq<char>, Seq<(Seq<char>, Seq<char>)>),
    End(Seq<char>),
    Text(Seq<char>),
    Eof,
    Other,
    UnreadableEncoding,
    Malformed,
}

/// The view of a list of attributes.
pub open spec fn attributes_view(a: Seq<XmlAttribute>) -> Seq<(Seq<char>, Seq<char>)> {
    a.map_values(|x: XmlAttribute| (x.key@, x.value@))
}

impl View for XmlToken {
    type V = TokenView;

    open spec fn view(&self) -> TokenView {
        match self {
            XmlToken::Decl { encoding } => TokenView::Decl(
                match encoding {
                    Some(e) => Some(e@),
                    None => None,
                },
            ),
            XmlToken::Start { name, attributes } => TokenView::Start(
                name@,
                attributes_view(attributes@),
            ),
            XmlToken::End { name } => TokenView::End(name@),
            XmlToken::Text { text } => TokenView::Text(text@),
            XmlToken::Eof => TokenView::Eof,
            XmlToken::Other => TokenView::Other,
            XmlToken::UnreadableEncoding => TokenView::UnreadableEncoding,
            XmlToken::Malformed => TokenView::Malformed,
        }
    }
}

/// The view of a list of tokens.
pub open spec fn tokens_view(t: Seq<XmlToken>) -> Seq<TokenView> {
    t.map_values(|x: XmlToken| x@)
}

/// True for the token that ends a token list: the end of the input, or the
/// first place where the input is not well-formed.
pub open spec fn is_last_token(t: TokenView) -> bool {
    t is Eof || t is Malformed
}

// ---------------------------------------------------------------------------
// quick-xml, reading

/// The tokens that quick-xml's reader, trimming text and expanding empty
/// elements, yields for a text: one per event, up to and including the end
/// of the input or the first error.
pub uninterp spec fn xml_tokens(text: Seq<char>) -> Seq<TokenView>;

/// Relies on `Reader::from_str`, with text trimmed and empty elements
/// expanded into a start and an end tag.
#[verifier::external_body]
fn open_reader<'a>(text: &'a str) -> Reader<&'a [u8]> {
    let mut reader = Reader::from_str(text);
    reader.trim_text(true).expand_empty_elements(true);
    reader
}

/// Relies on `BytesDecl::encoding`: the declaration's `encoding`, or
/// `UnreadableEncoding` where it cannot be read.
#[verifier::external_body]
fn decl_token(d: &BytesDecl) -> XmlToken {
    match d.encoding() {
        None => XmlToken::Decl { encoding: None },
        Some(Ok(e)) => XmlToken::Decl { encoding: Some(String::from_utf8_lossy(&e).into_owned()) },
        Some(Err(_)) => XmlToken::UnreadableEncoding,
    }
}

/// Relies on `BytesStart::name`, `BytesStart::attributes` and
/// `Attribute::unescape_value`: the name and the attributes in the order
/// written, or `Malformed` where an attribute cannot be read.
#[verifier::external_body]
fn start_token(s: &BytesStart) -> XmlToken {
    let attributes: Result<Vec<XmlAttribute>, ()> = s.attributes().map(|a| match a {
        Ok(a) => match a.unescape_value() {
            Ok(v) => Ok(XmlAttribute { key: String::from_utf8_lossy(a.key.as_ref()).into_owned(), value: v.into_owned() }),
            Err(_) => Err(()),
        },
        Err(_) => Err(()),
    }).collect();
    match attributes {
        Ok(attributes) => XmlToken::Start { name: String::from_utf8_lossy(s.name().as_ref()).into_owned(), attributes },
        Err(_) => XmlToken::Malformed,
    }
}

/// Relies on `Reader::read_event` and on `BytesEnd::name` and
/// `BytesText::unescape` for its event: the next token of the text the
/// reader was opened on, which is the token at the tokenizer's position.
#[verifier::external_body]
fn read_token<'a>(src: &mut XmlTokenizer<'a>) -> (r: XmlToken)
    ensures
        final(src).text == old(src).text,
        final(src).position == old(src).position,
        xml_tokens(old(src).text@).len() > 0,
        old(src).position < xml_tokens(old(src).text@).len() ==> r@ == xml_tokens(
            old(src).text@,
        )[old(src).position as int],
        old(src).position < xml_tokens(old(src).text@).len() ==> (is_last_token(r@) <==> old(
            src,
        ).position == xml_tokens(old(src).text@).len() - 1),
{
    match src.reader.read_event() {
        Ok(Event::Decl(d)) => decl_token(&d),
        Ok(Event::Start(s)) => start_token(&s),
        Ok(Event::End(e)) => XmlToken::End { name: String::from_utf8_lossy(e.name().as_ref()).into_owned() },
        Ok(Event::Text(t)) => match t.unescape() {
            Ok(text) => XmlToken::Text { text: text.into_owned() },
            Err(_) => XmlToken::Malformed,
        },
        Ok(Event::Eof) => XmlToken::Eof,
        Ok(_) => XmlToken::Other,
        Err(_) => XmlToken::Malformed,
    }
}

/// A streaming reader of the tokens of an XML text. Its reader was opened on
/// `text` and has given the first `position` tokens of `xml_tokens(text)`;
/// only `new` and `next_token` touch its fields.
pub struct XmlTokenizer<'a> {
    reader: Reader<&'a [u8]>,
    text: Ghost<Seq<char>>,
    position: Ghost<nat>,
}

impl<'a> XmlTokenizer<'a> {
    /// The text being read.
    pub closed spec fn text(&self) -> Seq<char> {
        self.text@
    }

    /// The number of tokens read so far.
    pub closed spec fn position(&self) -> nat {
        self.position@
    }

    /// A tokenizer at the start of `text`.
    pub fn new(text: &'a str) -> (r: XmlTokenizer<'a>)
        ensures
            r.text() == text@,
            r.position() == 0,
    {
        XmlTokenizer { reader: open_reader(text), text: Ghost(text@), position: Ghost(0) }
    }

    /// The next token of `xml_tokens(text)`.
    pub fn next_token(&mut self) -> (r: XmlToken)
        ensures
            final(self).text() == old(self).text(),
            final(self).position() == old(self).position() + 1,
            xml_tokens(old(self).text()).len() > 0,
            old(self).position() < xml_tokens(old(self).text()).len() ==> r@ == xml_tokens(
                old(self).text(),
            )[old(self).position() as int],
            old(self).position() < xml_tokens(old(self).text()).len() ==> (is_last_token(r@)
                <==> old(self).position() == xml_tokens(old(self).text()).len() - 1),
    {
        let r = read_token(self);
        proof {
            self.position = Ghost(self.position@ + 1);
        }
        r
    }
}

// ---------------------------------------------------------------------------
// quick-xml, writing

/// What `Writer::write_event` writes for `BytesDecl::new(version, encoding, None)`.
pub uninterp spec fn decl_bytes(version: Seq<char>, encoding: Option<Seq<char>>) -> Seq<u8>;

/// What `Writer::write_event` writes for a start tag with these attributes.
pub uninterp spec fn start_bytes(name: Seq<char>, attributes: Seq<(Seq<char>, Seq<char>)>) -> Seq<u8>;

/// What `Writer::write_event` writes for `BytesText::new(text)`, which
/// escapes the text.
pub uninterp spec fn text_bytes(text: Seq<char>) -> Seq<u8>;

/// What `Writer::write_event` writes for an end tag.
pub uninterp spec fn end_bytes(name: Seq<char>) -> Seq<u8>;

/// The view of an optional string.
pub open spec fn opt_str_view(o: Option<&str>) -> Option<Seq<char>> {
    match o {
        Some(s) => Some(s@),
        None => None,
    }
}

/// Relies on `Writer::write_event` with `BytesDecl::new`: appends the
/// declaration to `out`; writing into a `Vec` does not fail.
#[verifier::external_body]
fn write_decl(out: &mut Vec<u8>, version: &str, encoding: Option<&str>) -> (r: Result<(), XmlError>)
    ensures
        r is Ok,
        final(out)@ == old(out)@ + decl_bytes(version@, opt_str_view(encoding)),
{
    Writer::new(out).write_event(Event::Decl(BytesDecl::new(version, encoding, None)))
}

/// Relies on `Writer::write_event` with `BytesStart::new(name)` and
/// `with_attributes`: appends the start tag to `out`; writing into a `Vec`
/// does not fail.
#[verifier::external_body]
fn write_start(out: &mut Vec<u8>, name: &str, attributes: &Vec<XmlAttribute>) -> (r: Result<(), XmlError>)
    ensures
        r is Ok,
        final(out)@ == old(out)@ + start_bytes(name@, attributes_view(attributes@)),
{
    let tag = BytesStart::new(name).with_attributes(attributes.iter().map(|a| (a.key.as_str(), a.value.as_str())));
    Writer::new(out).write_event(Event::Start(tag))
}

/// Relies on `Writer::write_event` with `BytesText::new`: appends the
/// escaped text to `out`; writing into a `Vec` does not fail.
#[verifier::external_body]
fn write_text(out: &mut Vec<u8>, text: &str) -> (r: Result<(), XmlError>)
    ensures
        r is Ok,
        final(out)@ == old(out)@ + text_bytes(text@),
{
    Writer::new(out).write_event(Event::Text(BytesText::new(text)))
}

/// Relies on `Writer::write_event` with `BytesEnd::new`: appends the end
/// tag to `out`; writing into a `Vec` does not fail.
#[verifier::external_body]
fn write_end(out: &mut Vec<u8>, name: &str) -> (r: Result<(), XmlError>)
    ensures
        r is Ok,
        final(out)@ == old(out)@ + end_bytes(name@),
{
    Writer::new(out).write_event(Event::End(BytesEnd::new(name)))
}

/// The bytes quick-xml writes for one token; the end of input, the other
/// kinds and a malformed place write nothing.
pub open spec fn token_bytes(t: TokenView) -> Seq<u8> {
    match t {
        TokenView::Decl(encoding) => decl_bytes("1.0"@, encoding),
        TokenView::Start(name, attributes) => start_bytes(name, attributes),
        TokenView::End(name) => end_bytes(name),
        TokenView::Text(text) => text_bytes(text),
        _ => Seq::empty(),
    }
}

/// The bytes quick-xml writes for a list of tokens, one after another.
pub open spec fn xml_written(tokens: Seq<TokenView>) -> Seq<u8>
    decreases tokens.len(),
{
    if tokens.len() == 0 {
        Seq::empty()
    } else {
        xml_written(tokens.drop_last()) + token_bytes(tokens.last())
    }
}

/// Writes tokens as XML with version 1.0 declarations, appending to `out`.
pub fn write_tokens(tokens: &Vec<XmlToken>, out: Vec<u8>) -> (r: Result<Vec<u8>, Error>)
    ensures
        r is Ok,
        r->Ok_0@ == out@ + xml_written(tokens_view(tokens@)),
{
    let mut out = out;
    let ghost start = out@;
    let mut i: usize = 0;
    while i < tokens.len()
        invariant
            i <= tokens@.len(),
            out@ == start + xml_written(tokens_view(tokens@).take(i as int)),
        decreases tokens.len() - i,
    {
        let ghost before = out@;
        let t = &tokens[i];
        proof {
            assert(tokens_view(tokens@).take(i + 1).drop_last() =~= tokens_view(tokens@).take(
                i as int,
            ));
            assert(tokens_view(tokens@).take(i + 1).last() == t@);
            reveal_strlit("1.0");
        }
        let _ = match t {
            XmlToken::Decl { encoding } => match encoding {
                Some(e) => write_decl(&mut out, "1.0", Some(e.as_str())),
                None => write_decl(&mut out, "1.0", None),
            },
            XmlToken::Start { name, attributes } => write_start(&mut out, name.as_str(), attributes),
            XmlToken::End { name } => write_end(&mut out, name.as_str()),
            XmlToken::Text { text } => write_text(&mut out, text.as_str()),
            _ => Ok(()),
        };
        proof {
            assert(out@ =~= before + token_bytes(t@));
            assert(out@ =~= start + xml_written(tokens_view(tokens@).take(i + 1)));
        }
        i = i + 1;
    }
    proof {
        assert(tokens_view(tokens@).take(tokens@.len() as int) =~= tokens_view(tokens@));
    }
    Ok(out)
}

} // verus!
