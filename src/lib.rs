//! Read and write files in the Sitemaps XML format.
use vstd::prelude::*;

pub mod columns;
pub mod decimal;
pub mod error;
pub mod float_text;
pub mod reader;
pub mod round_trip;
pub mod sitemap;
pub mod sitemap_index;
pub mod w3c_datetime;
pub mod writer;
pub mod xml;

use crate::error::Error;
use crate::reader::{doc_ok, parsed_url, kind_of_root, kind_of_root_name, loc_check, read_spec, validate_loc, DocumentKind};
use crate::sitemap::{empty_doc, DocView, EntryView, Sitemap, UrlEntry};
use crate::sitemap_index::{SitemapEntry, SitemapIndex};
use crate::w3c_datetime::w3c_written;
use crate::writer::document_tokens;
use crate::xml::{tokens_view, xml_tokens, xml_written, TokenView, XmlToken, XmlTokenizer};

verus! {

/// The namespace of the Sitemaps protocol, used when a document declares none.
pub const NAMESPACE: &'static str = "http://www.sitemaps.org/schemas/sitemap/0.9";

/// The largest number of characters allowed in a `<loc>` value.
pub const MAX_URL_LENGTH: usize = 2048;

/// The largest number of entries allowed in one document.
pub const MAX_ENTRIES: usize = 50000;

/// The data of a sitemap file: a sitemap (`<urlset>` root) or a sitemap
/// index (`<sitemapindex>` root).
pub enum SitemapsFile {
    Sitemap(Sitemap),
    SiteIndex(SitemapIndex),
}

/// The kind of document that the first start tag among the tokens names.
pub open spec fn sniff(tokens: Seq<TokenView>) -> Result<DocumentKind, Error>
    decreases tokens.len(),
{
    if tokens.len() == 0 {
        Err(Error::UnexpectedEof)
    } else {
        match tokens[0] {
            TokenView::Eof => Err(Error::UnexpectedEof),
            TokenView::Malformed => Err(Error::XmlSyntaxError),
            TokenView::Start(name, _) => kind_of_root_name(name),
            _ => sniff(tokens.skip(1)),
        }
    }
}

/// The document a list of tokens holds, of the kind its root names.
pub open spec fn file_spec(tokens: Seq<TokenView>) -> Result<(DocumentKind, DocView), Error> {
    match sniff(tokens) {
        Ok(kind) => match read_spec(kind, tokens) {
            Ok(doc) => Ok((kind, doc)),
            Err(e) => Err(e),
        },
        Err(e) => Err(e),
    }
}

impl SitemapsFile {
    /// The kind and content of the document.
    pub open spec fn view_of(self) -> (DocumentKind, DocView) {
        match self {
            SitemapsFile::Sitemap(s) => (DocumentKind::Urlset, s@),
            SitemapsFile::SiteIndex(i) => (DocumentKind::SitemapIndex, i@),
        }
    }

    /// The document's content.
    pub open spec fn document(self) -> DocView {
        self.view_of().1
    }

    /// Reads a sitemap or a sitemap index from a list of tokens, choosing
    /// by the name of the first start tag.
    pub fn from_tokens(tokens: &Vec<XmlToken>) -> (r: Result<SitemapsFile, Error>)
        ensures
            r is Ok ==> file_spec(tokens_view(tokens@)) == Ok::<(DocumentKind, DocView), Error>(
                r->Ok_0.view_of(),
            ),
            r is Err ==> file_spec(tokens_view(tokens@)) == Err::<(DocumentKind, DocView), Error>(
                r->Err_0,
            ),
    {
        let ghost tv = tokens_view(tokens@);
        let mut i: usize = 0;
        proof {
            assert(tv.skip(0) =~= tv);
        }
        while i < tokens.len()
            invariant
                i <= tokens@.len(),
                tv == tokens_view(tokens@),
                sniff(tv.skip(i as int)) == sniff(tv),
            decreases tokens.len() - i,
        {
            proof {
                assert(tv.skip(i as int)[0] == tokens@[i as int]@);
                assert(tv.skip(i as int).skip(1) =~= tv.skip(i + 1));
            }
            match &tokens[i] {
                XmlToken::Eof => {
                    return Err(Error::UnexpectedEof);
                },
                XmlToken::Malformed => {
                    return Err(Error::XmlSyntaxError);
                },
                XmlToken::Start { name, attributes: _ } => {
                    return match kind_of_root(name.as_str()) {
                        Ok(DocumentKind::Urlset) => match Sitemap::from_tokens(tokens) {
                            Ok(s) => Ok(SitemapsFile::Sitemap(s)),
                            Err(e) => Err(e),
                        },
                        Ok(DocumentKind::SitemapIndex) => match SitemapIndex::from_tokens(tokens) {
                            Ok(s) => Ok(SitemapsFile::SiteIndex(s)),
                            Err(e) => Err(e),
                        },
                        Err(e) => Err(e),
                    };
                },
                _ => {},
            }
            i = i + 1;
        }
        Err(Error::UnexpectedEof)
    }

    /// Reads a sitemap or a sitemap index from its text: a first pass finds
    /// the root element's name, a second reads the document of that kind.
    pub fn read(text: &str) -> (r: Result<SitemapsFile, Error>)
        ensures
            r is Ok ==> file_spec(xml_tokens(text@)) == Ok::<(DocumentKind, DocView), Error>(
                r->Ok_0.view_of(),
            ),
            r is Err ==> file_spec(xml_tokens(text@)) == Err::<(DocumentKind, DocView), Error>(
                r->Err_0,
            ),
            r is Ok ==> doc_ok(r->Ok_0.document()),
    {
        let ghost tokens = xml_tokens(text@);
        proof {
            assert(tokens.skip(0) =~= tokens);
        }
        let mut tokenizer = XmlTokenizer::new(text);
        loop
            invariant
                tokenizer.text() == text@,
                tokens == xml_tokens(text@),
                tokenizer.position() == 0 || tokenizer.position() < tokens.len(),
                tokenizer.position() <= tokens.len(),
                sniff(tokens.skip(tokenizer.position() as int)) == sniff(tokens),
            decreases tokens.len() - tokenizer.position(),
        {
            let ghost k = tokenizer.position() as int;
            let t = tokenizer.next_token();
            proof {
                assert(tokens.skip(k)[0] == t@);
                assert(tokens.skip(k).skip(1) =~= tokens.skip(k + 1));
            }
            match t {
                XmlToken::Eof => {
                    return Err(Error::UnexpectedEof);
                },
                XmlToken::Malformed => {
                    return Err(Error::XmlSyntaxError);
                },
                XmlToken::Start { name, attributes: _ } => {
                    return match kind_of_root(name.as_str()) {
                        Ok(DocumentKind::Urlset) => match Sitemap::read_from(text) {
                            Ok(s) => Ok(SitemapsFile::Sitemap(s)),
                            Err(e) => Err(e),
                        },
                        Ok(DocumentKind::SitemapIndex) => match SitemapIndex::read_from(text) {
                            Ok(s) => Ok(SitemapsFile::SiteIndex(s)),
                            Err(e) => Err(e),
                        },
                        Err(e) => Err(e),
                    };
                },
                _ => {},
            }
        }
    }
}

/// The text of an entry's `<lastmod>`, empty when it has none.
pub open spec fn lastmod_text(e: EntryView) -> Seq<char> {
    match e.last_mod {
        Some(w) => w3c_written(w),
        None => Seq::empty(),
    }
}

/// Collecting the `<loc>` and `<lastmod>` values of a document's entries.
pub trait Entries {
    /// The entries of the document.
    spec fn entry_views(&self) -> Seq<EntryView>;

    /// All the `<loc>` values, in order.
    fn locs(&self) -> (r: Vec<String>)
        ensures
            r@.len() == self.entry_views().len(),
            forall|i: int| 0 <= i < r@.len() ==> (#[trigger] r@[i])@ == self.entry_views()[i].loc,
    ;

    /// All the `<lastmod>` values as text, in order; empty where an entry
    /// has none.
    fn lastmods(&self) -> (r: Vec<String>)
        requires
            forall|i: int| 0 <= i < self.entry_views().len() ==> (#[trigger] self.entry_views()[i]).wf(),
        ensures
            r@.len() == self.entry_views().len(),
            forall|i: int| 0 <= i < r@.len() ==> (#[trigger] r@[i])@ == lastmod_text(
                self.entry_views()[i],
            ),
    ;
}

impl Entries for Sitemap {
    open spec fn entry_views(&self) -> Seq<EntryView> {
        self@.entries
    }

    fn locs(&self) -> (r: Vec<String>) {
        let mut out: Vec<String> = Vec::new();
        let mut i: usize = 0;
        while i < self.entries.len()
            invariant
                i <= self.entries@.len(),
                out@.len() == i,
                forall|k: int| 0 <= k < i ==> (#[trigger] out@[k])@ == self@.entries[k].loc,
            decreases self.entries.len() - i,
        {
            out.push(self.entries[i].loc.clone());
            i = i + 1;
        }
        out
    }

    fn lastmods(&self) -> (r: Vec<String>) {
        let mut out: Vec<String> = Vec::new();
        let mut i: usize = 0;
        while i < self.entries.len()
            invariant
                i <= self.entries@.len(),
                out@.len() == i,
                forall|k: int| 0 <= k < self.entry_views().len() ==> (#[trigger] self.entry_views()[k]).wf(),
                forall|k: int| 0 <= k < i ==> (#[trigger] out@[k])@ == lastmod_text(self@.entries[k]),
            decreases self.entries.len() - i,
        {
            proof {
                assert(self.entry_views()[i as int].wf());
            }
            let text = match self.entries[i].last_mod {
                Some(w) => w.to_string(),
                None => String::new(),
            };
            out.push(text);
            i = i + 1;
        }
        out
    }
}

impl Entries for SitemapIndex {
    open spec fn entry_views(&self) -> Seq<EntryView> {
        self@.entries
    }

    fn locs(&self) -> (r: Vec<String>) {
        let mut out: Vec<String> = Vec::new();
        let mut i: usize = 0;
        while i < self.entries.len()
            invariant
                i <= self.entries@.len(),
                out@.len() == i,
                forall|k: int| 0 <= k < i ==> (#[trigger] out@[k])@ == self@.entries[k].loc,
            decreases self.entries.len() - i,
        {
            out.push(self.entries[i].loc.clone());
            i = i + 1;
        }
        out
    }

    fn lastmods(&self) -> (r: Vec<String>) {
        let mut out: Vec<String> = Vec::new();
        let mut i: usize = 0;
        while i < self.entries.len()
            invariant
                i <= self.entries@.len(),
                out@.len() == i,
                forall|k: int| 0 <= k < self.entry_views().len() ==> (#[trigger] self.entry_views()[k]).wf(),
                forall|k: int| 0 <= k < i ==> (#[trigger] out@[k])@ == lastmod_text(self@.entries[k]),
            decreases self.entries.len() - i,
        {
            proof {
                assert(self.entry_views()[i as int].wf());
            }
            let text = match self.entries[i].last_mod {
                Some(w) => w.to_string(),
                None => String::new(),
            };
            out.push(text);
            i = i + 1;
        }
        out
    }
}

impl Entries for SitemapsFile {
    open spec fn entry_views(&self) -> Seq<EntryView> {
        self.document().entries
    }

    fn locs(&self) -> (r: Vec<String>) {
        match self {
            SitemapsFile::Sitemap(s) => s.locs(),
            SitemapsFile::SiteIndex(i) => i.locs(),
        }
    }

    fn lastmods(&self) -> (r: Vec<String>) {
        match self {
            SitemapsFile::Sitemap(s) => {
                proof {
                    assert forall|k: int| 0 <= k < s.entry_views().len() implies (
                    #[trigger] s.entry_views()[k]).wf() by {
                        assert(self.entry_views()[k] == s.entry_views()[k]);
                    }
                }
                s.lastmods()
            },
            SitemapsFile::SiteIndex(i) => {
                proof {
                    assert forall|k: int| 0 <= k < i.entry_views().len() implies (
                    #[trigger] i.entry_views()[k]).wf() by {
                        assert(self.entry_views()[k] == i.entry_views()[k]);
                    }
                }
                i.lastmods()
            },
        }
    }
}

/// What sitemaps and sitemap indexes share: an empty document, reading
/// one from its text, and writing one as XML.
pub trait Sitemaps: Sized {
    /// The document's content.
    spec fn document(&self) -> DocView;

    /// A document with no attributes and no entries.
    fn new() -> (r: Self)
        ensures
            r.document() == empty_doc(),
    ;

    /// The kind of document.
    spec fn kind() -> DocumentKind;

    /// Reads a document from its text: the result is what reading the text's
    /// tokens gives.
    fn read_from(text: &str) -> (r: Result<Self, Error>)
        ensures
            r is Ok ==> read_spec(Self::kind(), xml_tokens(text@)) == Ok::<DocView, Error>(
                r->Ok_0.document(),
            ),
            r is Err ==> read_spec(Self::kind(), xml_tokens(text@)) == Err::<DocView, Error>(
                r->Err_0,
            ),
            r is Ok ==> doc_ok(r->Ok_0.document()),
    ;

    /// Writes the document as XML, appending to `out`.
    fn write_to(&self, out: Vec<u8>) -> (r: Result<Vec<u8>, Error>)
        requires
            self.document().wf(),
        ensures
            r is Ok,
            r->Ok_0@ == out@ + xml_written(document_tokens(Self::kind(), self.document())),
    ;
}

impl Sitemaps for Sitemap {
    open spec fn document(&self) -> DocView {
        self@
    }

    open spec fn kind() -> DocumentKind {
        DocumentKind::Urlset
    }

    fn new() -> (r: Sitemap) {
        Sitemap::new()
    }

    fn read_from(text: &str) -> (r: Result<Sitemap, Error>) {
        Sitemap::read_from(text)
    }

    fn write_to(&self, out: Vec<u8>) -> (r: Result<Vec<u8>, Error>) {
        Sitemap::write_to(self, out)
    }
}

impl Sitemaps for SitemapIndex {
    open spec fn document(&self) -> DocView {
        self@
    }

    open spec fn kind() -> DocumentKind {
        DocumentKind::SitemapIndex
    }

    fn new() -> (r: SitemapIndex) {
        SitemapIndex::new()
    }

    fn read_from(text: &str) -> (r: Result<SitemapIndex, Error>) {
        SitemapIndex::read_from(text)
    }

    fn write_to(&self, out: Vec<u8>) -> (r: Result<Vec<u8>, Error>) {
        SitemapIndex::write_to(self, out)
    }
}

/// An entry of a sitemap (`<url>`) or of an index (`<sitemap>`): both have
/// a required `<loc>` and an optional `<lastmod>`.
pub trait SitemapsEntry {
    /// The entry's content.
    spec fn entry(&self) -> EntryView;

    /// The text of the entry's `<loc>`.
    fn loc(&self) -> (r: String)
        ensures
            r@ == self.entry().loc,
    ;

    /// The text of the entry's `<lastmod>`, empty when it has none.
    fn last_mod(&self) -> (r: String)
        requires
            self.entry().wf(),
        ensures
            r@ == lastmod_text(self.entry()),
    ;

    /// Checks the entry's `<loc>`: at most 2048 characters, and a URL;
    /// gives the URL as `Url::parse` serializes it.
    fn validate_loc(&self) -> (r: Result<String, Error>)
        ensures
            loc_check(self.entry().loc) is Err ==> r == Err::<String, Error>(
                loc_check(self.entry().loc)->Err_0,
            ),
            loc_check(self.entry().loc) is Ok ==> r is Ok && Some(r->Ok_0@) == parsed_url(
                self.entry().loc,
            ),
    ;
}

impl SitemapsEntry for UrlEntry {
    open spec fn entry(&self) -> EntryView {
        self@
    }

    fn loc(&self) -> (r: String) {
        self.loc.clone()
    }

    fn last_mod(&self) -> (r: String) {
        match self.last_mod {
            Some(w) => w.to_string(),
            None => String::new(),
        }
    }

    fn validate_loc(&self) -> (r: Result<String, Error>) {
        validate_loc(self.loc.as_str())
    }
}

impl SitemapsEntry for SitemapEntry {
    open spec fn entry(&self) -> EntryView {
        self@
    }

    fn loc(&self) -> (r: String) {
        self.loc.clone()
    }

    fn last_mod(&self) -> (r: String) {
        match self.last_mod {
            Some(w) => w.to_string(),
            None => String::new(),
        }
    }

    fn validate_loc(&self) -> (r: Result<String, Error>) {
        validate_loc(self.loc.as_str())
    }
}

} // verus!
