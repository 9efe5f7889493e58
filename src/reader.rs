use vstd::prelude::*;

use crate::error::Error;
use crate::sitemap_index::{SitemapEntry, SitemapIndex};
use crate::sitemap::{
    empty_doc, empty_entry, entries_view, freq_result, opt_view, priority_of_text, same_text,
    ChangeFreq, DocView, EntryView, Priority, Sitemap, UrlEntry,
};
use crate::w3c_datetime::{w3c_of, W3CDateTime};
use crate::xml::{attributes_view, tokens_view, xml_tokens, TokenView, XmlAttribute, XmlToken, XmlTokenizer};
use crate::{MAX_ENTRIES, MAX_URL_LENGTH};

verus! {

/// url's parse error, mapped to `UrlParseError`.
#[verifier::external_type_specification]
#[verifier::external_body]
pub struct ExUrlParseError(url::ParseError);

/// What `Url::parse` makes of a text: the URL as it serializes it
/// (`Url::as_str`), or nothing when the text is not an absolute URL.
pub uninterp spec fn parsed_url(s: Seq<char>) -> Option<Seq<char>>;

/// Whether `Url::parse` accepts a text.
pub open spec fn url_accepts(s: Seq<char>) -> bool {
    parsed_url(s) is Some
}

/// Relies on `url::Url::parse` and `Url::as_str`: whether a text parses as
/// an absolute URL, and the URL's text, depend on the text alone.
#[verifier::external_body]
fn parse_url(s: &str) -> (r: Result<String, url::ParseError>)
    ensures
        r is Ok == (parsed_url(s@) is Some),
        r is Ok ==> parsed_url(s@) == Some(r->Ok_0@),
{
    match url::Url::parse(s) {
        Ok(u) => Ok(u.as_str().to_owned()),
        Err(e) => Err(e),
    }
}

/// Whether a `<loc>` value is acceptable: at most 2048 characters, and an
/// absolute URL.
pub open spec fn loc_check(loc: Seq<char>) -> Result<(), Error> {
    if loc.len() > MAX_URL_LENGTH {
        Err(Error::UrlValueTooLong)
    } else if !url_accepts(loc) {
        Err(Error::UrlParseError)
    } else {
        Ok(())
    }
}

/// Checks a `<loc>` value, its length first, then its syntax, and gives
/// the URL as `Url::parse` serializes it.
pub fn validate_loc(loc: &str) -> (r: Result<String, Error>)
    ensures
        loc_check(loc@) is Err ==> r == Err::<String, Error>(loc_check(loc@)->Err_0),
        loc_check(loc@) is Ok ==> r is Ok && Some(r->Ok_0@) == parsed_url(loc@),
{
    if loc.unicode_len() > MAX_URL_LENGTH {
        return Err(Error::UrlValueTooLong);
    }
    match parse_url(loc) {
        Ok(u) => Ok(u),
        Err(_) => Err(Error::UrlParseError),
    }
}

/// The two kinds of document, each with its root and entry element.
#[derive(Debug, Clone, Copy, PartialEq, Eq, Structural)]
pub enum DocumentKind {
    /// A sitemap: `<urlset>` with `<url>` entries.
    Urlset,
    /// A sitemap index: `<sitemapindex>` with `<sitemap>` entries.
    SitemapIndex,
}

impl DocumentKind {
    /// The name of the root element.
    pub open spec fn root_name(self) -> Seq<char> {
        match self {
            DocumentKind::Urlset => "urlset"@,
            DocumentKind::SitemapIndex => "sitemapindex"@,
        }
    }

    /// The name of an entry element.
    pub open spec fn entry_name(self) -> Seq<char> {
        match self {
            DocumentKind::Urlset => "url"@,
            DocumentKind::SitemapIndex => "sitemap"@,
        }
    }

    /// The name of the root element.
    pub fn root(&self) -> (r: &'static str)
        ensures
            r@ == self.root_name(),
    {
        match self {
            DocumentKind::Urlset => "urlset",
            DocumentKind::SitemapIndex => "sitemapindex",
        }
    }

    /// The name of an entry element.
    pub fn entry(&self) -> (r: &'static str)
        ensures
            r@ == self.entry_name(),
    {
        match self {
            DocumentKind::Urlset => "url",
            DocumentKind::SitemapIndex => "sitemap",
        }
    }
}

/// The kind of document whose root element has this name.
pub open spec fn kind_of_root_name(name: Seq<char>) -> Result<DocumentKind, Error> {
    if name == "urlset"@ {
        Ok(DocumentKind::Urlset)
    } else if name == "sitemapindex"@ {
        Ok(DocumentKind::SitemapIndex)
    } else {
        Err(Error::NotASitemap)
    }
}

/// The kind of document whose root element has this name.
pub fn kind_of_root(name: &str) -> (r: Result<DocumentKind, Error>)
    ensures
        r == kind_of_root_name(name@),
{
    if same_text(name, "urlset") {
        Ok(DocumentKind::Urlset)
    } else if same_text(name, "sitemapindex") {
        Ok(DocumentKind::SitemapIndex)
    } else {
        Err(Error::NotASitemap)
    }
}

/// What a child element of an entry holds.
#[derive(Debug, Clone, Copy, PartialEq, Eq, Structural)]
pub enum ElementKind {
    Loc,
    LastMod,
    ChangeFreq,
    Priority,
    /// An element this reader does not know, which it skips.
    Other,
}

/// What the child element of this name holds in an entry of this kind of
/// document. Only sitemaps know `<changefreq>` and `<priority>`.
pub open spec fn element_kind(kind: DocumentKind, name: Seq<char>) -> ElementKind {
    if name == "loc"@ {
        ElementKind::Loc
    } else if name == "lastmod"@ {
        ElementKind::LastMod
    } else if kind == DocumentKind::Urlset && name == "changefreq"@ {
        ElementKind::ChangeFreq
    } else if kind == DocumentKind::Urlset && name == "priority"@ {
        ElementKind::Priority
    } else {
        ElementKind::Other
    }
}

/// What the child element of this name holds in an entry of this kind of
/// document.
pub fn element_kind_of(kind: DocumentKind, name: &str) -> (r: ElementKind)
    ensures
        r == element_kind(kind, name@),
{
    if same_text(name, "loc") {
        ElementKind::Loc
    } else if same_text(name, "lastmod") {
        ElementKind::LastMod
    } else if kind == DocumentKind::Urlset && same_text(name, "changefreq") {
        ElementKind::ChangeFreq
    } else if kind == DocumentKind::Urlset && same_text(name, "priority") {
        ElementKind::Priority
    } else {
        ElementKind::Other
    }
}

/// Where the reader stands in the document.
#[derive(Debug, Clone, Copy, PartialEq, Eq, Structural)]
pub enum Phase {
    /// Before the root element.
    Prolog,
    /// Inside the root element.
    Body,
    /// After the root element closed.
    Closed,
}

/// The state of reading a document: the phase, the document so far, the
/// entry being read, and the child element whose text is being read.
pub struct ReadState {
    pub phase: Phase,
    pub doc: DocView,
    pub entry: Option<EntryView>,
    pub field: ElementKind,
}

/// The state before the first token.
pub open spec fn start_state() -> ReadState {
    ReadState { phase: Phase::Prolog, doc: empty_doc(), entry: None, field: ElementKind::Other }
}

/// The document with the root element's attributes applied in order:
/// `xmlns:xsi`, `xsi:schemaLocation` and `xmlns` are kept, others skipped.
pub open spec fn apply_attributes(doc: DocView, attrs: Seq<(Seq<char>, Seq<char>)>) -> DocView
    decreases attrs.len(),
{
    if attrs.len() == 0 {
        doc
    } else {
        let (key, value) = attrs[0];
        let next = if key == "xmlns:xsi"@ {
            DocView { schema_instance: Some(value), ..doc }
        } else if key == "xsi:schemaLocation"@ {
            DocView { schema_location: Some(value), ..doc }
        } else if key == "xmlns"@ {
            DocView { namespace: value, ..doc }
        } else {
            doc
        };
        apply_attributes(next, attrs.skip(1))
    }
}

/// A declared encoding that names UTF-8, in any case.
pub open spec fn is_utf8_label(e: Seq<char>) -> bool {
    &&& e.len() == 5
    &&& (e[0] == 'u' || e[0] == 'U')
    &&& (e[1] == 't' || e[1] == 'T')
    &&& (e[2] == 'f' || e[2] == 'F')
    &&& e[3] == '-'
    &&& e[4] == '8'
}

/// What the XML declaration decides: it must declare UTF-8.
pub open spec fn decl_check(encoding: Option<Seq<char>>) -> Result<(), Error> {
    match encoding {
        Some(e) => if is_utf8_label(e) {
            Ok(())
        } else {
            Err(Error::EncodingError)
        },
        None => Err(Error::EncodingError),
    }
}

/// The entry after the text of one of its child elements.
pub open spec fn entry_with_text(e: EntryView, field: ElementKind, text: Seq<char>) -> Result<
    EntryView,
    Error,
> {
    match field {
        ElementKind::Loc => Ok(EntryView { loc: e.loc + text, ..e }),
        ElementKind::LastMod => match w3c_of(text) {
            Ok(w) => Ok(EntryView { last_mod: Some(w), ..e }),
            Err(x) => Err(x),
        },
        ElementKind::ChangeFreq => match freq_result(text) {
            Ok(f) => Ok(EntryView { change_freq: Some(f), ..e }),
            Err(x) => Err(x),
        },
        ElementKind::Priority => match priority_of_text(text) {
            Ok(p) => Ok(EntryView { priority: Some(p), ..e }),
            Err(x) => Err(x),
        },
        ElementKind::Other => Ok(e),
    }
}

/// The state after an entry element closes: its location is checked and
/// the entry is added, unless the document already has 50,000.
pub open spec fn close_entry(st: ReadState, e: EntryView) -> Result<ReadState, Error> {
    match loc_check(e.loc) {
        Err(x) => Err(x),
        Ok(()) => if st.doc.entries.len() >= MAX_ENTRIES {
            Err(Error::TooManyUrls)
        } else {
            Ok(
                ReadState {
                    doc: DocView { entries: st.doc.entries.push(e), ..st.doc },
                    entry: None,
                    field: ElementKind::Other,
                    ..st
                },
            )
        },
    }
}

/// The state after one token.
pub open spec fn step(kind: DocumentKind, st: ReadState, token: TokenView) -> Result<
    ReadState,
    Error,
> {
    match token {
        TokenView::Decl(encoding) => match decl_check(encoding) {
            Ok(()) => Ok(st),
            Err(x) => Err(x),
        },
        TokenView::Start(name, attrs) => match st.phase {
            Phase::Prolog => if name == kind.root_name() {
                Ok(ReadState { phase: Phase::Body, doc: apply_attributes(st.doc, attrs), ..st })
            } else {
                Err(Error::NotASitemap)
            },
            Phase::Body => if name == kind.entry_name() {
                Ok(ReadState { entry: Some(empty_entry()), field: ElementKind::Other, ..st })
            } else if st.entry is Some {
                Ok(ReadState { field: element_kind(kind, name), ..st })
            } else {
                Ok(ReadState { field: ElementKind::Other, ..st })
            },
            Phase::Closed => Ok(st),
        },
        TokenView::End(name) => match st.phase {
            Phase::Body => if name == kind.entry_name() && st.entry is Some {
                close_entry(st, st.entry->Some_0)
            } else if name == kind.root_name() {
                Ok(ReadState { phase: Phase::Closed, entry: None, field: ElementKind::Other, ..st })
            } else {
                Ok(ReadState { field: ElementKind::Other, ..st })
            },
            _ => Ok(st),
        },
        TokenView::Text(text) => if st.phase == Phase::Body && st.entry is Some {
            match entry_with_text(st.entry->Some_0, st.field, text) {
                Ok(e) => Ok(ReadState { entry: Some(e), ..st }),
                Err(x) => Err(x),
            }
        } else {
            Ok(st)
        },
        TokenView::Eof => Ok(st),
        TokenView::Other => Ok(st),
        TokenView::UnreadableEncoding => Err(Error::EncodingError),
        TokenView::Malformed => Err(Error::XmlSyntaxError),
    }
}

/// The document once the input ends: complete only if the root closed.
pub open spec fn finish(st: ReadState) -> Result<DocView, Error> {
    if st.phase == Phase::Closed {
        Ok(st.doc)
    } else {
        Err(Error::UnexpectedEof)
    }
}

/// What reading the tokens from a state gives: the first error, or the
/// document at the end of the input (the first `Eof`, or the last token).
pub open spec fn run(kind: DocumentKind, st: ReadState, tokens: Seq<TokenView>) -> Result<
    DocView,
    Error,
>
    decreases tokens.len(),
{
    if tokens.len() == 0 {
        finish(st)
    } else if tokens[0] is Eof {
        finish(st)
    } else {
        match step(kind, st, tokens[0]) {
            Ok(next) => run(kind, next, tokens.skip(1)),
            Err(x) => Err(x),
        }
    }
}

/// What reading a whole list of tokens gives.
pub open spec fn read_spec(kind: DocumentKind, tokens: Seq<TokenView>) -> Result<DocView, Error> {
    run(kind, start_state(), tokens)
}

/// The state after reading all the tokens, none of which ends the input.
pub open spec fn advance(kind: DocumentKind, st: ReadState, tokens: Seq<TokenView>) -> Result<
    ReadState,
    Error,
>
    decreases tokens.len(),
{
    if tokens.len() == 0 {
        Ok(st)
    } else {
        match step(kind, st, tokens[0]) {
            Ok(next) => advance(kind, next, tokens.skip(1)),
            Err(e) => Err(e),
        }
    }
}

/// None of the tokens ends the input.
pub open spec fn no_eof(tokens: Seq<TokenView>) -> bool {
    forall|i: int| 0 <= i < tokens.len() ==> !(#[trigger] tokens[i] is Eof)
}

pub proof fn lemma_advance_append(
    kind: DocumentKind,
    st: ReadState,
    a: Seq<TokenView>,
    b: Seq<TokenView>,
)
    ensures
        advance(kind, st, a + b) == match advance(kind, st, a) {
            Ok(next) => advance(kind, next, b),
            Err(e) => Err(e),
        },
    decreases a.len(),
{
    if a.len() == 0 {
        assert(a + b =~= b);
    } else {
        assert((a + b)[0] == a[0]);
        assert((a + b).skip(1) =~= a.skip(1) + b);
        if let Ok(next) = step(kind, st, a[0]) {
            lemma_advance_append(kind, next, a.skip(1), b);
        }
    }
}

pub proof fn lemma_run_advance(kind: DocumentKind, st: ReadState, tokens: Seq<TokenView>)
    requires
        no_eof(tokens),
    ensures
        run(kind, st, tokens) == match advance(kind, st, tokens) {
            Ok(next) => finish(next),
            Err(e) => Err(e),
        },
    decreases tokens.len(),
{
    if tokens.len() > 0 {
        assert(!(tokens[0] is Eof));
        if let Ok(next) = step(kind, st, tokens[0]) {
            assert(no_eof(tokens.skip(1))) by {
                assert forall|i: int| 0 <= i < tokens.skip(1).len() implies !(
                #[trigger] tokens.skip(1)[i] is Eof) by {
                    assert(tokens.skip(1)[i] == tokens[i + 1]);
                }
            }
            lemma_run_advance(kind, next, tokens.skip(1));
        }
    }
}

/// Reading tokens after a prefix without `Eof` goes on from the state the
/// prefix reaches.
pub proof fn lemma_run_prefix(
    kind: DocumentKind,
    st: ReadState,
    a: Seq<TokenView>,
    b: Seq<TokenView>,
)
    requires
        no_eof(a),
    ensures
        run(kind, st, a + b) == match advance(kind, st, a) {
            Ok(next) => run(kind, next, b),
            Err(e) => Err(e),
        },
    decreases a.len(),
{
    if a.len() == 0 {
        assert(a + b =~= b);
    } else {
        assert((a + b)[0] == a[0]);
        assert(!(a[0] is Eof));
        assert((a + b).skip(1) =~= a.skip(1) + b);
        if let Ok(next) = step(kind, st, a[0]) {
            assert(no_eof(a.skip(1))) by {
                assert forall|i: int| 0 <= i < a.skip(1).len() implies !(
                #[trigger] a.skip(1)[i] is Eof) by {
                    assert(a.skip(1)[i] == a[i + 1]);
                }
            }
            lemma_run_prefix(kind, next, a.skip(1), b);
        }
    }
}

/// The view of the result of reading a sitemap.
pub open spec fn sitemap_result_view(r: Result<Sitemap, Error>) -> Result<DocView, Error> {
    match r {
        Ok(s) => Ok(s@),
        Err(e) => Err(e),
    }
}

/// An entry that a reader may add: its location checks and its values lie
/// in range.
pub open spec fn entry_ok(e: EntryView) -> bool {
    loc_check(e.loc) is Ok && e.wf()
}

/// A document that a reader may give: at most 50,000 entries, each of them
/// acceptable.
pub open spec fn doc_ok(doc: DocView) -> bool {
    &&& doc.entries.len() <= MAX_ENTRIES
    &&& forall|i: int| 0 <= i < doc.entries.len() ==> entry_ok(#[trigger] doc.entries[i])
}

/// A state that reading can reach.
pub open spec fn state_ok(st: ReadState) -> bool {
    &&& doc_ok(st.doc)
    &&& (st.entry matches Some(e) ==> e.wf())
}

proof fn lemma_apply_attributes_entries(doc: DocView, attrs: Seq<(Seq<char>, Seq<char>)>)
    ensures
        apply_attributes(doc, attrs).entries == doc.entries,
    decreases attrs.len(),
{
    if attrs.len() > 0 {
        let (key, value) = attrs[0];
        let next = if key == "xmlns:xsi"@ {
            DocView { schema_instance: Some(value), ..doc }
        } else if key == "xsi:schemaLocation"@ {
            DocView { schema_location: Some(value), ..doc }
        } else if key == "xmlns"@ {
            DocView { namespace: value, ..doc }
        } else {
            doc
        };
        lemma_apply_attributes_entries(next, attrs.skip(1));
    }
}

/// Every step keeps the state reachable.
pub proof fn lemma_step_ok(kind: DocumentKind, st: ReadState, token: TokenView)
    requires
        state_ok(st),
    ensures
        step(kind, st, token) matches Ok(next) ==> state_ok(next),
{
    match token {
        TokenView::Start(name, attrs) => {
            lemma_apply_attributes_entries(st.doc, attrs);
        },
        TokenView::Text(text) => {
            crate::w3c_datetime::lemma_w3c_of_wf(text);
            crate::sitemap::lemma_priority_of_text_wf(text);
        },
        TokenView::End(name) => {
            if let Ok(next) = step(kind, st, token) {
                if st.phase == Phase::Body && name == kind.entry_name() && st.entry is Some {
                    let e = st.entry->Some_0;
                    assert forall|i: int| 0 <= i < next.doc.entries.len() implies entry_ok(
                        #[trigger] next.doc.entries[i],
                    ) by {
                        if i < st.doc.entries.len() {
                            assert(next.doc.entries[i] == st.doc.entries[i]);
                        }
                    }
                }
            }
        },
        _ => {},
    }
}

/// Reading from a reachable state gives an acceptable document, if any.
pub proof fn lemma_run_ok(kind: DocumentKind, st: ReadState, tokens: Seq<TokenView>)
    requires
        state_ok(st),
    ensures
        run(kind, st, tokens) matches Ok(doc) ==> doc_ok(doc),
    decreases tokens.len(),
{
    if tokens.len() > 0 && !(tokens[0] is Eof) {
        lemma_step_ok(kind, st, tokens[0]);
        if let Ok(next) = step(kind, st, tokens[0]) {
            lemma_run_ok(kind, next, tokens.skip(1));
        }
    }
}

/// A reader of one document, fed one token at a time.
pub struct DocumentReader {
    kind: DocumentKind,
    phase: Phase,
    doc: Sitemap,
    entry: Option<UrlEntry>,
    field: ElementKind,
}

impl View for DocumentReader {
    type V = ReadState;

    closed spec fn view(&self) -> ReadState {
        ReadState {
            phase: self.phase,
            doc: self.doc@,
            entry: match self.entry {
                Some(e) => Some(e@),
                None => None,
            },
            field: self.field,
        }
    }
}

/// True when a declared encoding names UTF-8.
pub fn is_utf8(encoding: &str) -> (r: bool)
    ensures
        r == is_utf8_label(encoding@),
{
    if encoding.unicode_len() != 5 {
        return false;
    }
    let c0 = encoding.get_char(0);
    let c1 = encoding.get_char(1);
    let c2 = encoding.get_char(2);
    let c3 = encoding.get_char(3);
    let c4 = encoding.get_char(4);
    (c0 == 'u' || c0 == 'U') && (c1 == 't' || c1 == 'T') && (c2 == 'f' || c2 == 'F') && c3 == '-'
        && c4 == '8'
}

/// Checks the encoding of an XML declaration: it must be present and name
/// UTF-8, in any case.
pub fn check_encoding(encoding: &Option<String>) -> (r: Result<(), Error>)
    ensures
        r == decl_check(opt_view(*encoding)),
{
    match encoding {
        Some(e) => if is_utf8(e.as_str()) {
            Ok(())
        } else {
            Err(Error::EncodingError)
        },
        None => Err(Error::EncodingError),
    }
}

impl DocumentReader {
    /// The kind of document being read.
    pub closed spec fn kind(&self) -> DocumentKind {
        self.kind
    }

    /// A reader before the first token.
    pub fn new(kind: DocumentKind) -> (r: DocumentReader)
        ensures
            r@ == start_state(),
            r.kind() == kind,
    {
        let r = DocumentReader {
            kind,
            phase: Phase::Prolog,
            doc: Sitemap::new(),
            entry: None,
            field: ElementKind::Other,
        };
        r
    }

    /// Keeps the root element's attributes.
    fn apply_attributes(&mut self, attrs: &Vec<XmlAttribute>)
        ensures
            final(self)@ == (ReadState {
                doc: apply_attributes(old(self)@.doc, attributes_view(attrs@)),
                ..old(self)@
            }),
            final(self).kind() == old(self).kind(),
    {
        let mut i: usize = 0;
        proof {
            assert(attributes_view(attrs@).skip(0) =~= attributes_view(attrs@));
        }
        while i < attrs.len()
            invariant
                i <= attrs@.len(),
                self.kind() == old(self).kind(),
                apply_attributes(self@.doc, attributes_view(attrs@).skip(i as int)) == apply_attributes(
                    old(self)@.doc,
                    attributes_view(attrs@),
                ),
                self@ == (ReadState { doc: self@.doc, ..old(self)@ }),
            decreases attrs.len() - i,
        {
            let a = &attrs[i];
            let ghost rest = attributes_view(attrs@).skip(i as int);
            proof {
                assert(rest[0] == (a.key@, a.value@));
                assert(rest.skip(1) =~= attributes_view(attrs@).skip(i + 1));
            }
            if same_text(a.key.as_str(), "xmlns:xsi") {
                self.doc.schema_instance = Some(a.value.clone());
            } else if same_text(a.key.as_str(), "xsi:schemaLocation") {
                self.doc.schema_location = Some(a.value.clone());
            } else if same_text(a.key.as_str(), "xmlns") {
                self.doc.namespace = a.value.clone();
            }
            i = i + 1;
        }
        proof {
            assert(attributes_view(attrs@).skip(attrs@.len() as int) =~= Seq::empty());
        }
    }
}

/// The entry after the text of one of its child elements.
fn add_text(entry: &mut UrlEntry, field: ElementKind, text: &String) -> (r: Result<(), Error>)
    ensures
        entry_with_text(old(entry)@, field, text@) is Ok ==> r is Ok && final(entry)@
            == entry_with_text(old(entry)@, field, text@)->Ok_0,
        entry_with_text(old(entry)@, field, text@) is Err ==> r is Err && r->Err_0
            == entry_with_text(old(entry)@, field, text@)->Err_0,
{
    match field {
        ElementKind::Loc => {
            entry.loc.append(text.as_str());
            Ok(())
        },
        ElementKind::LastMod => match W3CDateTime::new(text.as_str()) {
            Ok(w) => {
                entry.last_mod = Some(w);
                Ok(())
            },
            Err(x) => Err(x),
        },
        ElementKind::ChangeFreq => match ChangeFreq::new(text.clone()) {
            Ok(f) => {
                entry.change_freq = Some(f);
                Ok(())
            },
            Err(x) => Err(x),
        },
        ElementKind::Priority => match Priority::from_text(text.as_str()) {
            Ok(p) => {
                entry.priority = Some(p);
                Ok(())
            },
            Err(x) => Err(x),
        },
        ElementKind::Other => Ok(()),
    }
}

impl DocumentReader {
    /// Adds the entry being read to the document, once its location checks.
    fn close_entry(&mut self) -> (r: Result<(), Error>)
        requires
            old(self).entry is Some,
        ensures
            final(self).kind() == old(self).kind(),
            close_entry(old(self)@, old(self)@.entry->Some_0) is Ok ==> r is Ok && final(self)@
                == close_entry(old(self)@, old(self)@.entry->Some_0)->Ok_0,
            close_entry(old(self)@, old(self)@.entry->Some_0) is Err ==> r is Err && r->Err_0
                == close_entry(old(self)@, old(self)@.entry->Some_0)->Err_0,
    {
        let e = self.entry.take().unwrap();
        match validate_loc(e.loc.as_str()) {
            Err(x) => Err(x),
            Ok(_) => {
                if self.doc.entries.len() >= MAX_ENTRIES {
                    Err(Error::TooManyUrls)
                } else {
                    let ghost before = self.doc.entries@;
                    self.doc.entries.push(e);
                    self.field = ElementKind::Other;
                    proof {
                        assert(entries_view(self.doc.entries@) =~= entries_view(before).push(e@));
                    }
                    Ok(())
                }
            },
        }
    }

    /// Takes one token.
    pub fn step(&mut self, token: &XmlToken) -> (r: Result<(), Error>)
        ensures
            final(self).kind() == old(self).kind(),
            step(old(self).kind(), old(self)@, token@) is Ok ==> r is Ok && final(self)@ == step(
                old(self).kind(),
                old(self)@,
                token@,
            )->Ok_0,
            step(old(self).kind(), old(self)@, token@) is Err ==> r is Err && r->Err_0 == step(
                old(self).kind(),
                old(self)@,
                token@,
            )->Err_0,
    {
        match token {
            XmlToken::Decl { encoding } => check_encoding(encoding),
            XmlToken::Start { name, attributes } => match self.phase {
                Phase::Prolog => {
                    if same_text(name.as_str(), self.kind.root()) {
                        self.apply_attributes(attributes);
                        self.phase = Phase::Body;
                        Ok(())
                    } else {
                        Err(Error::NotASitemap)
                    }
                },
                Phase::Body => {
                    if same_text(name.as_str(), self.kind.entry()) {
                        self.entry = Some(UrlEntry::new());
                        self.field = ElementKind::Other;
                    } else if self.entry.is_some() {
                        self.field = element_kind_of(self.kind, name.as_str());
                    } else {
                        self.field = ElementKind::Other;
                    }
                    Ok(())
                },
                Phase::Closed => Ok(()),
            },
            XmlToken::End { name } => {
                if self.phase == Phase::Body {
                    if same_text(name.as_str(), self.kind.entry()) && self.entry.is_some() {
                        self.close_entry()
                    } else if same_text(name.as_str(), self.kind.root()) {
                        self.phase = Phase::Closed;
                        self.entry = None;
                        self.field = ElementKind::Other;
                        Ok(())
                    } else {
                        self.field = ElementKind::Other;
                        Ok(())
                    }
                } else {
                    Ok(())
                }
            },
            XmlToken::Text { text } => {
                if self.phase == Phase::Body && self.entry.is_some() {
                    let mut e = self.entry.take().unwrap();
                    match add_text(&mut e, self.field, text) {
                        Ok(()) => {
                            self.entry = Some(e);
                            Ok(())
                        },
                        Err(x) => Err(x),
                    }
                } else {
                    Ok(())
                }
            },
            XmlToken::Eof => Ok(()),
            XmlToken::Other => Ok(()),
            XmlToken::UnreadableEncoding => Err(Error::EncodingError),
            XmlToken::Malformed => Err(Error::XmlSyntaxError),
        }
    }

    /// The document, once the input has ended.
    pub fn finish(self) -> (r: Result<Sitemap, Error>)
        ensures
            sitemap_result_view(r) == finish(self@),
    {
        if self.phase == Phase::Closed {
            Ok(self.doc)
        } else {
            Err(Error::UnexpectedEof)
        }
    }
}

/// Reads a document of the given kind from a list of tokens, stopping at
/// the first error or at the first `Eof`.
pub fn read_tokens(kind: DocumentKind, tokens: &Vec<XmlToken>) -> (r: Result<Sitemap, Error>)
    ensures
        sitemap_result_view(r) == read_spec(kind, tokens_view(tokens@)),
        r matches Ok(s) ==> doc_ok(s@),
{
    proof {
        lemma_run_ok(kind, start_state(), tokens_view(tokens@));
    }
    let ghost tv = tokens_view(tokens@);
    let mut reader = DocumentReader::new(kind);
    let mut i: usize = 0;
    proof {
        assert(tv.skip(0) =~= tv);
    }
    while i < tokens.len()
        invariant
            i <= tokens@.len(),
            tv == tokens_view(tokens@),
            reader.kind() == kind,
            run(kind, reader@, tv.skip(i as int)) == read_spec(kind, tv),
            read_spec(kind, tv) matches Ok(d) ==> doc_ok(d),
        decreases tokens.len() - i,
    {
        let t = &tokens[i];
        proof {
            assert(tv.skip(i as int)[0] == t@);
            assert(tv.skip(i as int).skip(1) =~= tv.skip(i + 1));
        }
        if let XmlToken::Eof = t {
            return reader.finish();
        }
        match reader.step(t) {
            Err(e) => {
                return Err(e);
            },
            Ok(()) => {},
        }
        i = i + 1;
    }
    proof {
        assert(tv.skip(i as int).len() == 0);
    }
    reader.finish()
}

/// Reads a document of the given kind from its text in one pass, stopping
/// at the first error: the result is what reading the text's tokens gives.
pub fn read_document(kind: DocumentKind, text: &str) -> (r: Result<Sitemap, Error>)
    ensures
        sitemap_result_view(r) == read_spec(kind, xml_tokens(text@)),
        r matches Ok(s) ==> doc_ok(s@),
{
    let ghost tokens = xml_tokens(text@);
    proof {
        lemma_run_ok(kind, start_state(), tokens);
        assert(tokens.skip(0) =~= tokens);
    }
    let mut tokenizer = XmlTokenizer::new(text);
    let mut reader = DocumentReader::new(kind);
    loop
        invariant
            reader.kind() == kind,
            tokenizer.text() == text@,
            tokens == xml_tokens(text@),
            tokenizer.position() == 0 || tokenizer.position() < tokens.len(),
            tokenizer.position() <= tokens.len(),
            run(kind, reader@, tokens.skip(tokenizer.position() as int)) == read_spec(kind, tokens),
            read_spec(kind, tokens) matches Ok(d) ==> doc_ok(d),
        decreases tokens.len() - tokenizer.position(),
    {
        let ghost k = tokenizer.position() as int;
        let t = tokenizer.next_token();
        proof {
            assert(tokens.skip(k)[0] == t@);
            assert(tokens.skip(k).skip(1) =~= tokens.skip(k + 1));
        }
        match t {
            XmlToken::Eof => {
                return reader.finish();
            },
            _ => {
                match reader.step(&t) {
                    Err(e) => {
                        return Err(e);
                    },
                    Ok(()) => {},
                }
            },
        }
    }
}

/// An entry without the values that only sitemaps have.
pub open spec fn is_index_entry(e: EntryView) -> bool {
    e.change_freq is None && e.priority is None
}

/// A state of reading an index: no entry has a change frequency or a
/// priority, and no element that would set one is open.
pub open spec fn index_state(st: ReadState) -> bool {
    &&& forall|i: int| 0 <= i < st.doc.entries.len() ==> is_index_entry(#[trigger] st.doc.entries[i])
    &&& (st.entry matches Some(e) ==> is_index_entry(e))
    &&& st.field != ElementKind::ChangeFreq
    &&& st.field != ElementKind::Priority
}

proof fn lemma_step_index(st: ReadState, token: TokenView)
    requires
        index_state(st),
    ensures
        step(DocumentKind::SitemapIndex, st, token) matches Ok(next) ==> index_state(next),
{
    let kind = DocumentKind::SitemapIndex;
    match token {
        TokenView::Start(name, attrs) => {
            lemma_apply_attributes_entries(st.doc, attrs);
        },
        TokenView::End(name) => {
            if let Ok(next) = step(kind, st, token) {
                if st.phase == Phase::Body && name == kind.entry_name() && st.entry is Some {
                    assert forall|i: int| 0 <= i < next.doc.entries.len() implies is_index_entry(
                        #[trigger] next.doc.entries[i],
                    ) by {
                        if i < st.doc.entries.len() {
                            assert(next.doc.entries[i] == st.doc.entries[i]);
                        }
                    }
                }
            }
        },
        _ => {},
    }
}

proof fn lemma_run_index(st: ReadState, tokens: Seq<TokenView>)
    requires
        index_state(st),
    ensures
        run(DocumentKind::SitemapIndex, st, tokens) matches Ok(doc) ==> forall|i: int|
            0 <= i < doc.entries.len() ==> is_index_entry(#[trigger] doc.entries[i]),
    decreases tokens.len(),
{
    if tokens.len() > 0 && !(tokens[0] is Eof) {
        lemma_step_index(st, tokens[0]);
        if let Ok(next) = step(DocumentKind::SitemapIndex, st, tokens[0]) {
            lemma_run_index(next, tokens.skip(1));
        }
    }
}

/// The view of the result of reading an index.
pub open spec fn index_result_view(r: Result<SitemapIndex, Error>) -> Result<DocView, Error> {
    match r {
        Ok(s) => Ok(s@),
        Err(e) => Err(e),
    }
}

/// The index that holds the document's attributes and entries.
fn index_of(doc: Sitemap) -> (r: SitemapIndex)
    requires
        forall|i: int| 0 <= i < doc@.entries.len() ==> is_index_entry(#[trigger] doc@.entries[i]),
    ensures
        r@ == doc@,
{
    let mut entries: Vec<SitemapEntry> = Vec::new();
    let mut i: usize = 0;
    while i < doc.entries.len()
        invariant
            i <= doc.entries@.len(),
            forall|k: int| 0 <= k < doc@.entries.len() ==> is_index_entry(#[trigger] doc@.entries[k]),
            crate::sitemap_index::index_entries_view(entries@) == doc@.entries.take(i as int),
        decreases doc.entries.len() - i,
    {
        let e = &doc.entries[i];
        let ghost before = entries@;
        let item = SitemapEntry { loc: e.loc.clone(), last_mod: e.last_mod };
        proof {
            assert(doc@.entries[i as int] == e@);
            assert(is_index_entry(doc@.entries[i as int]));
            assert(item@ == e@);
        }
        entries.push(item);
        proof {
            assert(crate::sitemap_index::index_entries_view(entries@) =~= crate::sitemap_index::index_entries_view(before).push(item@));
            assert(doc@.entries.take(i + 1) =~= doc@.entries.take(i as int).push(e@));
            assert(crate::sitemap_index::index_entries_view(entries@) =~= doc@.entries.take(i + 1));
        }
        i = i + 1;
    }
    proof {
        assert(doc@.entries.take(i as int) =~= doc@.entries);
    }
    SitemapIndex {
        entries,
        schema_instance: doc.schema_instance,
        schema_location: doc.schema_location,
        namespace: doc.namespace,
    }
}

impl Sitemap {
    /// Reads a sitemap from a list of tokens.
    pub fn from_tokens(tokens: &Vec<XmlToken>) -> (r: Result<Sitemap, Error>)
        ensures
            sitemap_result_view(r) == read_spec(DocumentKind::Urlset, tokens_view(tokens@)),
            r matches Ok(s) ==> doc_ok(s@),
    {
        read_tokens(DocumentKind::Urlset, tokens)
    }

    /// Reads a sitemap from the text of a `<urlset>` document: the result is
    /// what reading the text's tokens gives.
    pub fn read_from(text: &str) -> (r: Result<Sitemap, Error>)
        ensures
            sitemap_result_view(r) == read_spec(DocumentKind::Urlset, xml_tokens(text@)),
            r matches Ok(s) ==> doc_ok(s@),
    {
        read_document(DocumentKind::Urlset, text)
    }
}

impl SitemapIndex {
    /// Reads a sitemap index from a list of tokens.
    pub fn from_tokens(tokens: &Vec<XmlToken>) -> (r: Result<SitemapIndex, Error>)
        ensures
            index_result_view(r) == read_spec(DocumentKind::SitemapIndex, tokens_view(tokens@)),
            r matches Ok(s) ==> doc_ok(s@),
    {
        proof {
            lemma_run_index(start_state(), tokens_view(tokens@));
        }
        match read_tokens(DocumentKind::SitemapIndex, tokens) {
            Ok(doc) => Ok(index_of(doc)),
            Err(e) => Err(e),
        }
    }

    /// Reads a sitemap index from the text of a `<sitemapindex>` document:
    /// the result is what reading the text's tokens gives.
    pub fn read_from(text: &str) -> (r: Result<SitemapIndex, Error>)
        ensures
            index_result_view(r) == read_spec(DocumentKind::SitemapIndex, xml_tokens(text@)),
            r matches Ok(s) ==> doc_ok(s@),
    {
        proof {
            lemma_run_index(start_state(), xml_tokens(text@));
        }
        match read_document(DocumentKind::SitemapIndex, text) {
            Ok(doc) => Ok(index_of(doc)),
            Err(e) => Err(e),
        }
    }
}

/// A sitemap read from a path, with the text that was read.
pub struct SitemapReader<'a> {
    pub path: &'a str,
    pub contents: String,
}

impl<'a> SitemapReader<'a> {
    /// Reads the sitemap in the text that was read.
    pub fn parse(&self) -> (r: Result<Sitemap, Error>)
        ensures
            sitemap_result_view(r) == read_spec(DocumentKind::Urlset, xml_tokens(self.contents@)),
            r is Ok ==> doc_ok(r->Ok_0@),
    {
        Sitemap::read_from(self.contents.as_str())
    }
}

} // verus!
