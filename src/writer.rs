use vstd::prelude::*;

use crate::error::Error;
use crate::reader::DocumentKind;
use crate::sitemap::{freq_token, priority_text, ChangeFreq, DocView, EntryView, Priority, Sitemap};
use crate::sitemap_index::SitemapIndex;
use crate::w3c_datetime::{w3c_written, W3CDateTime};
use crate::xml::{tokens_view, write_tokens, xml_written, TokenView, XmlAttribute, XmlToken};
use crate::NAMESPACE;

verus! {

/// An element that holds only text: its start tag, the text, its end tag.
pub open spec fn text_element(name: Seq<char>, text: Seq<char>) -> Seq<TokenView> {
    seq![TokenView::Start(name, Seq::empty()), TokenView::Text(text), TokenView::End(name)]
}

/// The tokens of one entry: `<loc>`, then `<lastmod>`, `<changefreq>` and
/// `<priority>` where the entry has them, inside the entry element.
pub open spec fn entry_tokens(kind: DocumentKind, e: EntryView) -> Seq<TokenView> {
    seq![TokenView::Start(kind.entry_name(), Seq::empty())] + text_element("loc"@, e.loc) + (
    match e.last_mod {
        Some(w) => text_element("lastmod"@, w3c_written(w)),
        None => Seq::empty(),
    }) + (match e.change_freq {
        Some(f) => text_element("changefreq"@, freq_token(f)),
        None => Seq::empty(),
    }) + (match e.priority {
        Some(p) => text_element("priority"@, priority_text(p)),
        None => Seq::empty(),
    }) + seq![TokenView::End(kind.entry_name())]
}

/// The tokens of a list of entries, in order.
pub open spec fn entries_tokens(kind: DocumentKind, es: Seq<EntryView>) -> Seq<TokenView>
    decreases es.len(),
{
    if es.len() == 0 {
        Seq::empty()
    } else {
        entries_tokens(kind, es.drop_last()) + entry_tokens(kind, es.last())
    }
}

/// The namespace written on the root: the document's own, or the Sitemaps
/// namespace when it has none.
pub open spec fn written_namespace(doc: DocView) -> Seq<char> {
    if doc.namespace.len() == 0 {
        NAMESPACE@
    } else {
        doc.namespace
    }
}

/// The attributes of the root: `xmlns:xsi` and `xsi:schemaLocation` where
/// the document has them, then `xmlns`.
pub open spec fn root_attributes(doc: DocView) -> Seq<(Seq<char>, Seq<char>)> {
    (match doc.schema_instance {
        Some(v) => seq![("xmlns:xsi"@, v)],
        None => Seq::empty(),
    }) + (match doc.schema_location {
        Some(v) => seq![("xsi:schemaLocation"@, v)],
        None => Seq::empty(),
    }) + seq![("xmlns"@, written_namespace(doc))]
}

/// The tokens a document is written as: the UTF-8 declaration, the root
/// with its attributes, the entries, the end of the root.
pub open spec fn document_tokens(kind: DocumentKind, doc: DocView) -> Seq<TokenView> {
    seq![TokenView::Decl(Some("UTF-8"@)), TokenView::Start(kind.root_name(), root_attributes(doc))]
        + entries_tokens(kind, doc.entries) + seq![TokenView::End(kind.root_name())]
}

/// Appends an element that holds only text.
fn push_text_element(out: &mut Vec<XmlToken>, name: &str, text: String)
    ensures
        tokens_view(final(out)@) == tokens_view(old(out)@) + text_element(name@, text@),
{
    out.push(XmlToken::Start { name: name.to_owned(), attributes: Vec::new() });
    out.push(XmlToken::Text { text });
    out.push(XmlToken::End { name: name.to_owned() });
    proof {
        assert(crate::xml::attributes_view(Seq::<XmlAttribute>::empty()) =~= Seq::empty());
        assert(tokens_view(final(out)@) =~= tokens_view(old(out)@) + text_element(name@, text@));
    }
}

/// Appends the tokens of one entry.
fn push_entry(
    kind: DocumentKind,
    out: &mut Vec<XmlToken>,
    loc: &String,
    last_mod: Option<W3CDateTime>,
    change_freq: Option<ChangeFreq>,
    priority: Option<Priority>,
)
    requires
        last_mod matches Some(w) ==> w.wf(),
        priority matches Some(p) ==> p.wf(),
    ensures
        tokens_view(final(out)@) == tokens_view(old(out)@) + entry_tokens(
            kind,
            EntryView { loc: loc@, last_mod, change_freq, priority },
        ),
{
    let ghost e = EntryView { loc: loc@, last_mod, change_freq, priority };
    let ghost start = tokens_view(out@);
    out.push(XmlToken::Start { name: kind.entry().to_owned(), attributes: Vec::new() });
    proof {
        assert(crate::xml::attributes_view(Seq::<XmlAttribute>::empty()) =~= Seq::empty());
        assert(tokens_view(out@) =~= start + seq![TokenView::Start(kind.entry_name(), Seq::empty())]);
    }
    push_text_element(out, "loc", loc.clone());
    let ghost after_loc = tokens_view(out@);
    match last_mod {
        Some(w) => push_text_element(out, "lastmod", w.to_string()),
        None => {},
    }
    proof {
        assert(tokens_view(out@) =~= after_loc + match e.last_mod {
            Some(w) => text_element("lastmod"@, w3c_written(w)),
            None => Seq::empty(),
        });
    }
    let ghost after_lastmod = tokens_view(out@);
    match change_freq {
        Some(f) => push_text_element(out, "changefreq", f.to_string()),
        None => {},
    }
    proof {
        assert(tokens_view(out@) =~= after_lastmod + match e.change_freq {
            Some(f) => text_element("changefreq"@, freq_token(f)),
            None => Seq::empty(),
        });
    }
    let ghost after_freq = tokens_view(out@);
    match priority {
        Some(p) => push_text_element(out, "priority", p.to_string()),
        None => {},
    }
    proof {
        assert(tokens_view(out@) =~= after_freq + match e.priority {
            Some(p) => text_element("priority"@, priority_text(p)),
            None => Seq::empty(),
        });
    }
    let ghost before_end = tokens_view(out@);
    out.push(XmlToken::End { name: kind.entry().to_owned() });
    proof {
        assert(tokens_view(out@) =~= before_end + seq![TokenView::End(kind.entry_name())]);
        assert(tokens_view(out@) =~= start + entry_tokens(kind, e));
    }
}

/// Appends the declaration and the root's start tag.
fn push_prolog(
    kind: DocumentKind,
    out: &mut Vec<XmlToken>,
    namespace: &String,
    schema_instance: &Option<String>,
    schema_location: &Option<String>,
)
    ensures
        tokens_view(final(out)@) == tokens_view(old(out)@) + seq![
            TokenView::Decl(Some("UTF-8"@)),
            TokenView::Start(
                kind.root_name(),
                root_attributes(
                    DocView {
                        namespace: namespace@,
                        schema_instance: crate::sitemap::opt_view(*schema_instance),
                        schema_location: crate::sitemap::opt_view(*schema_location),
                        entries: Seq::empty(),
                    },
                ),
            ),
        ],
{
    let ghost doc = DocView {
        namespace: namespace@,
        schema_instance: crate::sitemap::opt_view(*schema_instance),
        schema_location: crate::sitemap::opt_view(*schema_location),
        entries: Seq::empty(),
    };
    let ghost start = tokens_view(out@);
    out.push(XmlToken::Decl { encoding: Some("UTF-8".to_owned()) });
    let mut attributes: Vec<XmlAttribute> = Vec::new();
    match schema_instance {
        Some(v) => attributes.push(XmlAttribute { key: "xmlns:xsi".to_owned(), value: v.clone() }),
        None => {},
    }
    match schema_location {
        Some(v) => attributes.push(
            XmlAttribute { key: "xsi:schemaLocation".to_owned(), value: v.clone() },
        ),
        None => {},
    }
    let ns = if namespace.unicode_len() == 0 {
        NAMESPACE.to_owned()
    } else {
        namespace.clone()
    };
    attributes.push(XmlAttribute { key: "xmlns".to_owned(), value: ns });
    proof {
        assert(crate::xml::attributes_view(attributes@) =~= root_attributes(doc));
    }
    out.push(XmlToken::Start { name: kind.root().to_owned(), attributes });
    proof {
        assert(tokens_view(out@) =~= start + seq![
            TokenView::Decl(Some("UTF-8"@)),
            TokenView::Start(kind.root_name(), root_attributes(doc)),
        ]);
    }
}

impl Sitemap {
    /// The tokens this sitemap is written as.
    pub fn to_tokens(&self) -> (r: Vec<XmlToken>)
        requires
            self@.wf(),
        ensures
            tokens_view(r@) == document_tokens(DocumentKind::Urlset, self@),
    {
        let kind = DocumentKind::Urlset;
        let mut out: Vec<XmlToken> = Vec::new();
        push_prolog(kind, &mut out, &self.namespace, &self.schema_instance, &self.schema_location);
        let ghost head = tokens_view(out@);
        let mut i: usize = 0;
        while i < self.entries.len()
            invariant
                i <= self.entries@.len(),
                self@.wf(),
                tokens_view(out@) == head + entries_tokens(kind, self@.entries.take(i as int)),
            decreases self.entries.len() - i,
        {
            let e = &self.entries[i];
            proof {
                assert(self@.entries[i as int] == e@);
                assert(self@.entries[i as int].wf());
                assert(self@.entries.take(i + 1).drop_last() =~= self@.entries.take(i as int));
            }
            push_entry(kind, &mut out, &e.loc, e.last_mod, e.change_freq, e.priority);
            i = i + 1;
        }
        proof {
            assert(self@.entries.take(i as int) =~= self@.entries);
        }
        let ghost body = tokens_view(out@);
        out.push(XmlToken::End { name: kind.root().to_owned() });
        proof {
            assert(tokens_view(out@) =~= body + seq![TokenView::End(kind.root_name())]);
            assert(tokens_view(out@) =~= document_tokens(kind, self@));
        }
        out
    }
}

impl Sitemap {
    /// Writes the sitemap as XML, appending to `out`.
    pub fn write_to(&self, out: Vec<u8>) -> (r: Result<Vec<u8>, Error>)
        requires
            self@.wf(),
        ensures
            r is Ok,
            r->Ok_0@ == out@ + xml_written(document_tokens(DocumentKind::Urlset, self@)),
    {
        let tokens = self.to_tokens();
        write_tokens(&tokens, out)
    }
}

impl SitemapIndex {
    /// Writes the index as XML, appending to `out`.
    pub fn write_to(&self, out: Vec<u8>) -> (r: Result<Vec<u8>, Error>)
        requires
            self@.wf(),
        ensures
            r is Ok,
            r->Ok_0@ == out@ + xml_written(document_tokens(DocumentKind::SitemapIndex, self@)),
    {
        let tokens = self.to_tokens();
        write_tokens(&tokens, out)
    }

    /// The tokens this index is written as.
    pub fn to_tokens(&self) -> (r: Vec<XmlToken>)
        requires
            self@.wf(),
        ensures
            tokens_view(r@) == document_tokens(DocumentKind::SitemapIndex, self@),
    {
        let kind = DocumentKind::SitemapIndex;
        let mut out: Vec<XmlToken> = Vec::new();
        push_prolog(kind, &mut out, &self.namespace, &self.schema_instance, &self.schema_location);
        let ghost head = tokens_view(out@);
        let mut i: usize = 0;
        while i < self.entries.len()
            invariant
                i <= self.entries@.len(),
                self@.wf(),
                tokens_view(out@) == head + entries_tokens(kind, self@.entries.take(i as int)),
            decreases self.entries.len() - i,
        {
            let e = &self.entries[i];
            proof {
                assert(self@.entries[i as int] == e@);
                assert(self@.entries[i as int].wf());
                assert(self@.entries.take(i + 1).drop_last() =~= self@.entries.take(i as int));
            }
            push_entry(kind, &mut out, &e.loc, e.last_mod, None, None);
            i = i + 1;
        }
        proof {
            assert(self@.entries.take(i as int) =~= self@.entries);
        }
        let ghost body = tokens_view(out@);
        out.push(XmlToken::End { name: kind.root().to_owned() });
        proof {
            assert(tokens_view(out@) =~= body + seq![TokenView::End(kind.root_name())]);
            assert(tokens_view(out@) =~= document_tokens(kind, self@));
        }
        out
    }
}

} // verus!
