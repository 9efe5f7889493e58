use vstd::prelude::*;

use crate::sitemap::{empty_doc, opt_view, DocView, EntryView};
use crate::w3c_datetime::W3CDateTime;

verus! {

/// An entry of a sitemap index: the required `<loc>` of a child sitemap
/// and the optional `<lastmod>`.
#[derive(Debug, Clone, PartialEq)]
pub struct SitemapEntry {
    pub loc: String,
    pub last_mod: Option<W3CDateTime>,
}

impl View for SitemapEntry {
    type V = EntryView;

    open spec fn view(&self) -> EntryView {
        EntryView { loc: self.loc@, last_mod: self.last_mod, change_freq: None, priority: None }
    }
}

impl SitemapEntry {
    /// A new, empty entry.
    pub fn new() -> (r: SitemapEntry)
        ensures
            r@ == crate::sitemap::empty_entry(),
    {
        SitemapEntry { loc: String::new(), last_mod: None }
    }
}

/// A sitemap index: the `<sitemapindex>` root's attributes and its
/// `<sitemap>` entries.
#[derive(Debug, Clone, PartialEq)]
pub struct SitemapIndex {
    /// The child sitemaps, in document order.
    pub entries: Vec<SitemapEntry>,
    /// The `xmlns:xsi` attribute.
    pub schema_instance: Option<String>,
    /// The `xsi:schemaLocation` attribute.
    pub schema_location: Option<String>,
    /// The `xmlns` attribute.
    pub namespace: String,
}

/// The view of a list of index entries.
pub open spec fn index_entries_view(e: Seq<SitemapEntry>) -> Seq<EntryView> {
    e.map_values(|x: SitemapEntry| x@)
}

impl View for SitemapIndex {
    type V = DocView;

    open spec fn view(&self) -> DocView {
        DocView {
            namespace: self.namespace@,
            schema_instance: opt_view(self.schema_instance),
            schema_location: opt_view(self.schema_location),
            entries: index_entries_view(self.entries@),
        }
    }
}

impl SitemapIndex {
    /// A new index with no attributes and no entries.
    pub fn new() -> (r: SitemapIndex)
        ensures
            r@ == empty_doc(),
    {
        let r = SitemapIndex {
            entries: Vec::new(),
            schema_location: None,
            schema_instance: None,
            namespace: String::new(),
        };
        proof {
            assert(r@.entries =~= Seq::<EntryView>::empty());
        }
        r
    }
}

} // verus!
