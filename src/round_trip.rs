use vstd::prelude::*;

use crate::error::Error;
use crate::reader::{
    advance, lemma_advance_append, lemma_run_advance, lemma_run_prefix, no_eof, apply_attributes, close_entry, decl_check, element_kind, entry_with_text, finish, is_index_entry,
    loc_check, read_spec, run, start_state, step, DocumentKind, ElementKind, Phase, ReadState,
};
use crate::sitemap::{
    empty_doc, empty_entry, freq_result, freq_token, lemma_freq_token_round_trip, lowercase_of,
    priority_of_text, priority_text, DocView, EntryView,
};
use crate::decimal::{digit_char, pow10, Decimal};
use crate::float_text::{first_exp, float_of, is_word, scan_mantissa, FloatText};
use crate::sitemap::{lowest_terms, priority_of, tenths, Priority};
use crate::w3c_datetime::{
    date_fields, datetime_fields, ends_with_z, has_point, is_date_text, is_datetime_text,
    lemma_date_round_trip, lemma_datetime_round_trip, w3c_of, w3c_written, W3CDateTime,
};
use crate::writer::{
    document_tokens, entries_tokens, entry_tokens, root_attributes, text_element, written_namespace,
};
use crate::xml::{xml_tokens, TokenView};
use crate::MAX_ENTRIES;

verus! {

proof fn lemma_no_eof_append(a: Seq<TokenView>, b: Seq<TokenView>)
    requires
        no_eof(a),
        no_eof(b),
    ensures
        no_eof(a + b),
{
    assert forall|i: int| 0 <= i < (a + b).len() implies !(#[trigger] (a + b)[i] is Eof) by {
        if i < a.len() {
            assert((a + b)[i] == a[i]);
        } else {
            assert((a + b)[i] == b[i - a.len()]);
        }
    }
}

proof fn lemma_entry_no_eof(kind: DocumentKind, e: EntryView)
    ensures
        no_eof(entry_tokens(kind, e)),
{
    let t = entry_tokens(kind, e);
    assert forall|i: int| 0 <= i < t.len() implies !(#[trigger] t[i] is Eof) by {
        let lm = match e.last_mod {
            Some(w) => text_element("lastmod"@, w3c_written(w)),
            None => Seq::empty(),
        };
        let cf = match e.change_freq {
            Some(f) => text_element("changefreq"@, freq_token(f)),
            None => Seq::empty(),
        };
        let pr = match e.priority {
            Some(p) => text_element("priority"@, priority_text(p)),
            None => Seq::empty(),
        };
        let a = seq![TokenView::Start(kind.entry_name(), Seq::empty())];
        let l = text_element("loc"@, e.loc);
        let z = seq![TokenView::End(kind.entry_name())];
        assert(no_eof(a));
        assert(no_eof(l));
        assert(no_eof(lm));
        assert(no_eof(cf));
        assert(no_eof(pr));
        assert(no_eof(z));
        lemma_no_eof_append(a, l);
        lemma_no_eof_append(a + l, lm);
        lemma_no_eof_append(a + l + lm, cf);
        lemma_no_eof_append(a + l + lm + cf, pr);
        lemma_no_eof_append(a + l + lm + cf + pr, z);
        assert(t == a + l + lm + cf + pr + z);
    }
}

proof fn lemma_entries_no_eof(kind: DocumentKind, es: Seq<EntryView>)
    ensures
        no_eof(entries_tokens(kind, es)),
    decreases es.len(),
{
    if es.len() > 0 {
        lemma_entries_no_eof(kind, es.drop_last());
        lemma_entry_no_eof(kind, es.last());
        lemma_no_eof_append(entries_tokens(kind, es.drop_last()), entry_tokens(kind, es.last()));
    }
}

/// The names the reader and the writer use differ from one another.
proof fn lemma_names_differ()
    ensures
        "loc"@ != "url"@,
        "loc"@ != "sitemap"@,
        "loc"@ != "urlset"@,
        "loc"@ != "sitemapindex"@,
        "lastmod"@ != "url"@,
        "lastmod"@ != "sitemap"@,
        "lastmod"@ != "urlset"@,
        "lastmod"@ != "sitemapindex"@,
        "lastmod"@ != "loc"@,
        "changefreq"@ != "url"@,
        "changefreq"@ != "urlset"@,
        "changefreq"@ != "loc"@,
        "changefreq"@ != "lastmod"@,
        "priority"@ != "url"@,
        "priority"@ != "urlset"@,
        "priority"@ != "loc"@,
        "priority"@ != "lastmod"@,
        "priority"@ != "changefreq"@,
        "url"@ != "urlset"@,
        "sitemap"@ != "sitemapindex"@,
        "xmlns:xsi"@ != "xsi:schemaLocation"@,
        "xmlns:xsi"@ != "xmlns"@,
        "xsi:schemaLocation"@ != "xmlns"@,
{
    reveal_strlit("loc");
    reveal_strlit("url");
    reveal_strlit("sitemap");
    reveal_strlit("urlset");
    reveal_strlit("sitemapindex");
    reveal_strlit("lastmod");
    reveal_strlit("changefreq");
    reveal_strlit("priority");
    reveal_strlit("xmlns:xsi");
    reveal_strlit("xsi:schemaLocation");
    reveal_strlit("xmlns");
    assert("loc"@.len() == 3 && "url"@.len() == 3 && "urlset"@.len() == 6 && "sitemap"@.len() == 7);
    assert("sitemapindex"@.len() == 12 && "lastmod"@.len() == 7 && "changefreq"@.len() == 10);
    assert("priority"@.len() == 8 && "xmlns:xsi"@.len() == 9 && "xsi:schemaLocation"@.len() == 18);
    assert("xmlns"@.len() == 5);
    assert("loc"@[0] != "url"@[0]);
    assert("lastmod"@[0] != "sitemap"@[0]);
    assert("url"@.len() != "urlset"@.len());
    assert("sitemap"@.len() != "sitemapindex"@.len());
    assert("changefreq"@[0] != "loc"@[0]);
    assert("priority"@[0] != "lastmod"@[0]);
}

/// The values of an entry read back from the text they are written as.
pub open spec fn values_read_back(e: EntryView) -> bool {
    &&& (e.last_mod matches Some(w) ==> w3c_of(w3c_written(w)) == Ok::<_, Error>(w))
    &&& (e.priority matches Some(p) ==> priority_of_text(priority_text(p)) == Ok::<_, Error>(p))
}

/// An entry that a document of this kind can hold and write: its location
/// checks, its values lie in range and read back, and an index entry has no
/// change frequency or priority.
pub open spec fn entry_writable(kind: DocumentKind, e: EntryView) -> bool {
    &&& loc_check(e.loc) is Ok
    &&& e.wf()
    &&& values_read_back(e)
    &&& (kind == DocumentKind::SitemapIndex ==> is_index_entry(e))
}

/// A document whose entries can all be written and read back, with a
/// namespace of its own.
pub open spec fn doc_writable(kind: DocumentKind, doc: DocView) -> bool {
    &&& doc.namespace.len() > 0
    &&& forall|i: int| 0 <= i < doc.entries.len() ==> entry_writable(kind, #[trigger] doc.entries[i])
}

/// A state inside the root, between entries, with this document so far.
pub open spec fn between_entries(doc: DocView) -> ReadState {
    ReadState { phase: Phase::Body, doc, entry: None, field: ElementKind::Other }
}

/// The state after reading a text element of an open entry.
proof fn lemma_text_element(
    kind: DocumentKind,
    st: ReadState,
    name: Seq<char>,
    text: Seq<char>,
    field: ElementKind,
)
    requires
        st.phase == Phase::Body,
        st.entry is Some,
        name != kind.entry_name(),
        name != kind.root_name(),
        element_kind(kind, name) == field,
    ensures
        advance(kind, st, text_element(name, text)) == match entry_with_text(
            st.entry->Some_0,
            field,
            text,
        ) {
            Ok(e) => Ok::<_, Error>(ReadState { entry: Some(e), field: ElementKind::Other, ..st }),
            Err(x) => Err(x),
        },
{
    reveal_with_fuel(advance, 4);
    let t = text_element(name, text);
    let s1 = ReadState { field, ..st };
    assert(step(kind, st, t[0]) == Ok::<_, Error>(s1));
    assert(t.skip(1)[0] == TokenView::Text(text));
    assert(t.skip(1).skip(1)[0] == TokenView::End(name));
    assert(t.skip(1).skip(1).skip(1).len() == 0);
    match entry_with_text(st.entry->Some_0, field, text) {
        Ok(e) => {
            let s2 = ReadState { entry: Some(e), ..s1 };
            assert(step(kind, s1, t.skip(1)[0]) == Ok::<_, Error>(s2));
        },
        Err(x) => {},
    }
}

/// Reading the tokens of one entry between entries adds it, unless the
/// document already has 50,000.
proof fn lemma_entry(kind: DocumentKind, doc: DocView, e: EntryView)
    requires
        entry_writable(kind, e),
    ensures
        advance(kind, between_entries(doc), entry_tokens(kind, e)) == if doc.entries.len()
            >= MAX_ENTRIES {
            Err::<ReadState, Error>(Error::TooManyUrls)
        } else {
            Ok(between_entries(DocView { entries: doc.entries.push(e), ..doc }))
        },
{
    reveal_with_fuel(advance, 3);
    lemma_names_differ();
    lemma_freq_token_round_trip(
        match e.change_freq {
            Some(f) => f,
            None => crate::sitemap::ChangeFreq::Never,
        },
    );
    let st0 = between_entries(doc);
    let head = seq![TokenView::Start(kind.entry_name(), Seq::empty())];
    let loc = text_element("loc"@, e.loc);
    let lm = match e.last_mod {
        Some(w) => text_element("lastmod"@, w3c_written(w)),
        None => Seq::empty(),
    };
    let cf = match e.change_freq {
        Some(f) => text_element("changefreq"@, freq_token(f)),
        None => Seq::empty(),
    };
    let pr = match e.priority {
        Some(p) => text_element("priority"@, priority_text(p)),
        None => Seq::empty(),
    };
    let tail = seq![TokenView::End(kind.entry_name())];
    assert(entry_tokens(kind, e) == head + loc + lm + cf + pr + tail);
    // The entry element opens.
    let s1 = ReadState { entry: Some(empty_entry()), field: ElementKind::Other, ..st0 };
    assert(advance(kind, st0, head) == Ok::<_, Error>(s1)) by {
        assert(head.skip(1).len() == 0);
    }
    // `<loc>`
    let e1 = EntryView { loc: e.loc, ..empty_entry() };
    assert(Seq::<char>::empty() + e.loc =~= e.loc);
    lemma_text_element(kind, s1, "loc"@, e.loc, ElementKind::Loc);
    let s2 = ReadState { entry: Some(e1), field: ElementKind::Other, ..st0 };
    // `<lastmod>`
    let e2 = EntryView { last_mod: e.last_mod, ..e1 };
    let s3 = ReadState { entry: Some(e2), field: ElementKind::Other, ..st0 };
    if let Some(w) = e.last_mod {
        lemma_text_element(kind, s2, "lastmod"@, w3c_written(w), ElementKind::LastMod);
    } else {
        assert(lm.len() == 0);
    }
    assert(advance(kind, s2, lm) == Ok::<_, Error>(s3));
    // `<changefreq>`
    let e3 = EntryView { change_freq: e.change_freq, ..e2 };
    let s4 = ReadState { entry: Some(e3), field: ElementKind::Other, ..st0 };
    if let Some(f) = e.change_freq {
        assert(kind == DocumentKind::Urlset);
        crate::sitemap::lemma_lower_word_unchanged(freq_token(f));
        assert(lowercase_of(freq_token(f)) == freq_token(f));
        assert(freq_result(freq_token(f)) == Ok::<_, Error>(f));
        lemma_text_element(kind, s3, "changefreq"@, freq_token(f), ElementKind::ChangeFreq);
    } else {
        assert(cf.len() == 0);
    }
    assert(advance(kind, s3, cf) == Ok::<_, Error>(s4));
    // `<priority>`
    let e4 = EntryView { priority: e.priority, ..e3 };
    let s5 = ReadState { entry: Some(e4), field: ElementKind::Other, ..st0 };
    if let Some(p) = e.priority {
        assert(kind == DocumentKind::Urlset);
        lemma_text_element(kind, s4, "priority"@, priority_text(p), ElementKind::Priority);
    } else {
        assert(pr.len() == 0);
    }
    assert(advance(kind, s4, pr) == Ok::<_, Error>(s5));
    assert(e4 == e);
    // The entry element closes.
    assert(advance(kind, s5, tail) == close_entry(s5, e)) by {
        assert(tail.skip(1).len() == 0);
    }
    lemma_advance_append(kind, st0, head, loc);
    lemma_advance_append(kind, st0, head + loc, lm);
    lemma_advance_append(kind, st0, head + loc + lm, cf);
    lemma_advance_append(kind, st0, head + loc + lm + cf, pr);
    lemma_advance_append(kind, st0, head + loc + lm + cf + pr, tail);
    if doc.entries.len() < MAX_ENTRIES {
        assert(close_entry(s5, e) == Ok::<_, Error>(
            between_entries(DocView { entries: doc.entries.push(e), ..doc }),
        ));
    }
}

/// Reading the tokens of a list of entries between entries adds them all,
/// or fails with `TooManyUrls` once the document would pass 50,000.
proof fn lemma_entries(kind: DocumentKind, doc: DocView, es: Seq<EntryView>)
    requires
        doc.entries.len() <= MAX_ENTRIES,
        forall|i: int| 0 <= i < es.len() ==> entry_writable(kind, #[trigger] es[i]),
    ensures
        advance(kind, between_entries(doc), entries_tokens(kind, es)) == if doc.entries.len()
            + es.len() > MAX_ENTRIES {
            Err::<ReadState, Error>(Error::TooManyUrls)
        } else {
            Ok(between_entries(DocView { entries: doc.entries + es, ..doc }))
        },
    decreases es.len(),
{
    if es.len() == 0 {
        assert(doc.entries + es =~= doc.entries);
    } else {
        let init = es.drop_last();
        let last = es.last();
        assert(entry_writable(kind, es[es.len() - 1]));
        assert forall|i: int| 0 <= i < init.len() implies entry_writable(kind, #[trigger] init[i]) by {
            assert(init[i] == es[i]);
        }
        lemma_entries(kind, doc, init);
        lemma_advance_append(kind, between_entries(doc), entries_tokens(kind, init), entry_tokens(kind, last));
        if doc.entries.len() + init.len() <= MAX_ENTRIES {
            let d1 = DocView { entries: doc.entries + init, ..doc };
            lemma_entry(kind, d1, last);
            assert(d1.entries.push(last) =~= doc.entries + es);
        }
    }
}

/// Reading the tokens of a whole written document, up to its entries.
proof fn lemma_document(kind: DocumentKind, doc: DocView)
    requires
        doc_writable(kind, doc),
    ensures
        read_spec(kind, document_tokens(kind, doc)) == if doc.entries.len() > MAX_ENTRIES {
            Err::<DocView, Error>(Error::TooManyUrls)
        } else {
            Ok(doc)
        },
{
    reveal_with_fuel(advance, 3);
    lemma_names_differ();
    reveal_strlit("UTF-8");
    let head = seq![
        TokenView::Decl(Some("UTF-8"@)),
        TokenView::Start(kind.root_name(), root_attributes(doc)),
    ];
    let body = entries_tokens(kind, doc.entries);
    let tail = seq![TokenView::End(kind.root_name())];
    let all = document_tokens(kind, doc);
    assert(all == head + body + tail);
    lemma_document_no_eof(kind, doc);
    lemma_run_advance(kind, start_state(), all);
    // The declaration and the root.
    let attrs = root_attributes(doc);
    let header = apply_attributes(empty_doc(), attrs);
    assert(header == DocView { entries: Seq::empty(), ..doc }) by {
        lemma_root_attributes(doc);
    }
    assert(decl_check(Some("UTF-8"@)) == Ok::<(), Error>(()));
    assert(advance(kind, start_state(), head) == Ok::<_, Error>(between_entries(header))) by {
        assert(head.skip(1)[0] == head[1]);
        assert(head.skip(1).skip(1).len() == 0);
    }
    assert(forall|i: int| 0 <= i < doc.entries.len() ==> entry_writable(kind, #[trigger] doc.entries[i]));
    lemma_entries(kind, header, doc.entries);
    assert(Seq::<EntryView>::empty() + doc.entries =~= doc.entries);
    lemma_advance_append(kind, start_state(), head, body);
    lemma_advance_append(kind, start_state(), head + body, tail);
    if doc.entries.len() <= MAX_ENTRIES {
        let closed = ReadState {
            phase: Phase::Closed,
            doc,
            entry: None,
            field: ElementKind::Other,
        };
        assert(advance(kind, between_entries(doc), tail) == Ok::<_, Error>(closed)) by {
            assert(tail.skip(1).len() == 0);
        }
    }
}

proof fn lemma_document_no_eof(kind: DocumentKind, doc: DocView)
    ensures
        no_eof(document_tokens(kind, doc)),
{
    let head = seq![
        TokenView::Decl(Some("UTF-8"@)),
        TokenView::Start(kind.root_name(), root_attributes(doc)),
    ];
    let body = entries_tokens(kind, doc.entries);
    let tail = seq![TokenView::End(kind.root_name())];
    assert(document_tokens(kind, doc) == head + body + tail);
    lemma_entries_no_eof(kind, doc.entries);
    assert(no_eof(head));
    assert(no_eof(tail));
    lemma_no_eof_append(head, body);
    lemma_no_eof_append(head + body, tail);
}

/// Reading a text whose tokens are those a document is written as, followed
/// by the end of the input, gives that document, or `TooManyUrls` and no
/// document when it has more than 50,000 entries. This is what
/// `Sitemap::read_from` and `SitemapIndex::read_from` give for such a text.
pub proof fn lemma_read_text_of_written(kind: DocumentKind, doc: DocView, text: Seq<char>)
    requires
        doc_writable(kind, doc),
        xml_tokens(text) == document_tokens(kind, doc) + seq![TokenView::Eof],
    ensures
        read_spec(kind, xml_tokens(text)) == if doc.entries.len() > MAX_ENTRIES {
            Err::<DocView, Error>(Error::TooManyUrls)
        } else {
            Ok(doc)
        },
{
    let d = document_tokens(kind, doc);
    lemma_document(kind, doc);
    lemma_document_no_eof(kind, doc);
    lemma_run_prefix(kind, start_state(), d, seq![TokenView::Eof]);
    lemma_run_advance(kind, start_state(), d);
}

proof fn lemma_root_attributes(doc: DocView)
    requires
        doc.namespace.len() > 0,
    ensures
        apply_attributes(empty_doc(), root_attributes(doc)) == (DocView {
            entries: Seq::empty(),
            ..doc
        }),
{
    reveal_with_fuel(apply_attributes, 3);
    lemma_names_differ();
    let si = match doc.schema_instance {
        Some(v) => seq![("xmlns:xsi"@, v)],
        None => Seq::empty(),
    };
    let sl = match doc.schema_location {
        Some(v) => seq![("xsi:schemaLocation"@, v)],
        None => Seq::empty(),
    };
    let ns = seq![("xmlns"@, written_namespace(doc))];
    let attrs = root_attributes(doc);
    assert(attrs == si + sl + ns);
    let d0 = empty_doc();
    let d1 = DocView { schema_instance: doc.schema_instance, ..d0 };
    let d2 = DocView { schema_location: doc.schema_location, ..d1 };
    let d3 = DocView { namespace: doc.namespace, ..d2 };
    lemma_apply_append(d0, si, sl + ns);
    assert(si + (sl + ns) =~= si + sl + ns);
    assert(apply_attributes(d0, si) == d1) by {
        if si.len() > 0 {
            assert(si.skip(1).len() == 0);
        }
    }
    lemma_apply_append(d1, sl, ns);
    assert(apply_attributes(d1, sl) == d2) by {
        if sl.len() > 0 {
            assert(sl.skip(1).len() == 0);
        }
    }
    assert(apply_attributes(d2, ns) == d3) by {
        assert(ns.skip(1).len() == 0);
    }
    assert(d3 == DocView { entries: Seq::empty(), ..doc });
}

proof fn lemma_apply_append(
    doc: DocView,
    a: Seq<(Seq<char>, Seq<char>)>,
    b: Seq<(Seq<char>, Seq<char>)>,
)
    ensures
        apply_attributes(doc, a + b) == apply_attributes(apply_attributes(doc, a), b),
    decreases a.len(),
{
    if a.len() == 0 {
        assert(a + b =~= b);
    } else {
        assert((a + b)[0] == a[0]);
        assert((a + b).skip(1) =~= a.skip(1) + b);
        let (key, value) = a[0];
        let next = if key == "xmlns:xsi"@ {
            DocView { schema_instance: Some(value), ..doc }
        } else if key == "xsi:schemaLocation"@ {
            DocView { schema_location: Some(value), ..doc }
        } else if key == "xmlns"@ {
            DocView { namespace: value, ..doc }
        } else {
            doc
        };
        lemma_apply_append(next, a.skip(1), b);
    }
}

/// Reading a written document gives back that document, for every document
/// whose entries can be written and read back and that has a namespace of
/// its own and at most 50,000 entries. Writing what was read then gives back
/// the same tokens.
pub proof fn lemma_read_written(kind: DocumentKind, doc: DocView)
    requires
        doc_writable(kind, doc),
        doc.entries.len() <= MAX_ENTRIES,
    ensures
        read_spec(kind, document_tokens(kind, doc)) == Ok::<DocView, Error>(doc),
        document_tokens(kind, read_spec(kind, document_tokens(kind, doc))->Ok_0)
            == document_tokens(kind, doc),
{
    lemma_document(kind, doc);
}

/// A written document with more than 50,000 entries, each of which could be
/// written and read back, fails with `TooManyUrls` and gives no document.
pub proof fn lemma_too_many_entries(kind: DocumentKind, doc: DocView)
    requires
        doc_writable(kind, doc),
        doc.entries.len() > MAX_ENTRIES,
    ensures
        read_spec(kind, document_tokens(kind, doc)) == Err::<DocView, Error>(Error::TooManyUrls),
{
    lemma_document(kind, doc);
}

/// A well-formed `<lastmod>` text reads as a value that is written as the
/// same text and reads back as itself.
pub proof fn lemma_lastmod_reads_back(s: Seq<char>)
    requires
        is_date_text(s) || is_datetime_text(s),
    ensures
        w3c_of(s) is Ok,
        w3c_written(w3c_of(s)->Ok_0) == s,
        w3c_of(w3c_written(w3c_of(s)->Ok_0)) == w3c_of(s),
{
    crate::w3c_datetime::lemma_trim_well_formed(s);
    if is_date_text(s) {
        lemma_date_round_trip(s);
        assert(w3c_of(s) == Ok::<_, Error>(W3CDateTime::Date(date_fields(s))));
    } else {
        lemma_datetime_round_trip(s);
        assert(w3c_of(s) == Ok::<_, Error>(
            W3CDateTime::DateTime(datetime_fields(s), has_point(s), ends_with_z(s)),
        ));
    }
}

/// A priority written with one decimal digit, `0.0` to `1.0`, reads as a
/// value that is written as the same text and reads back as itself.
pub proof fn lemma_priority_reads_back(t: Seq<char>)
    requires
        t == seq!['1', '.', '0'] || (t.len() == 3 && t[0] == '0' && t[1] == '.' && '0' <= t[2]
            <= '9'),
    ensures
        priority_of_text(t) is Ok,
        priority_text(priority_of_text(t)->Ok_0) == t,
        priority_of_text(priority_text(priority_of_text(t)->Ok_0)) == priority_of_text(t),
{
    reveal_with_fuel(scan_mantissa, 4);
    reveal_with_fuel(first_exp, 5);
    reveal_with_fuel(pow10, 2);
    reveal_with_fuel(lowest_terms, 2);
    reveal_strlit("inf");
    reveal_strlit("INF");
    reveal_strlit("infinity");
    reveal_strlit("INFINITY");
    assert(!is_word(t, "inf"@, "INF"@)) by {
        assert(!(t[0] == "inf"@[0] || t[0] == "INF"@[0]));
    }
    assert(!is_word(t, "infinity"@, "INFINITY"@));
    assert(first_exp(t, 0) == 3);
    assert(t.take(3) =~= t);
    assert(t.drop_last().drop_last().drop_last() =~= Seq::<char>::empty());
    if t[0] == '1' {
        assert(scan_mantissa(t) == Some((10int, 2nat, -1int, true, 2nat)));
        assert(float_of(t) == Some(FloatText { negative: false, infinite: false, units: 10, shift: -1 }));
        let p = Priority { units: 1, scale: 0 };
        assert(priority_of(Decimal { negative: false, units: 10, scale: 1 }) == Ok::<_, Error>(p));
        assert(pow10(0) == 1);
        assert(20 * p.units + pow10(p.scale as nat) == 21);
        assert(2 * pow10(p.scale as nat) == 2);
        assert(21int / 2int == 10) by (nonlinear_arith);
        assert(tenths(p) == 10);
        assert(priority_text(p) =~= t);
    } else {
        let d = t[2] as int - '0' as int;
        let k: nat = if d > 0 { 1 } else { 0 };
        assert(scan_mantissa(t) == Some((d, k, -1int, true, 2nat)));
        assert(float_of(t) == Some(FloatText { negative: false, infinite: false, units: d, shift: -1 }));
        let p = if d == 0 {
            Priority { units: 0, scale: 0 }
        } else {
            Priority { units: d as u64, scale: 1 }
        };
        assert(priority_of_text(t) == Ok::<_, Error>(p));
        assert(pow10(0) == 1 && pow10(1) == 10);
        if d > 0 {
            assert(20 * p.units + pow10(p.scale as nat) == 20 * d + 10);
            assert(2 * pow10(p.scale as nat) == 20);
            assert((20 * d + 10) / 20 == d) by (nonlinear_arith)
                requires
                    1 <= d <= 9,
            ;
        } else {
            assert(20 * p.units + pow10(p.scale as nat) == 1);
            assert(2 * pow10(p.scale as nat) == 2);
            assert(1int / 2int == 0) by (nonlinear_arith);
        }
        assert(tenths(p) == d);
        assert(digit_char(d) == t[2]);
        assert(priority_text(p) =~= t);
    }
}

/// In any document, once 50,000 entries are held, closing one more entry
/// whose location checks fails with `TooManyUrls`; and reading any tokens
/// from a reachable state never gives a document of more than 50,000
/// entries.
pub proof fn lemma_entry_limit(kind: DocumentKind, st: ReadState, name: Seq<char>, tokens: Seq<TokenView>)
    requires
        crate::reader::state_ok(st),
    ensures
        st.phase == Phase::Body && st.entry is Some && name == kind.entry_name()
            && st.doc.entries.len() >= MAX_ENTRIES && loc_check(st.entry->Some_0.loc) is Ok
            ==> step(kind, st, TokenView::End(name)) == Err::<ReadState, Error>(Error::TooManyUrls),
        run(kind, st, tokens) matches Ok(doc) ==> doc.entries.len() <= MAX_ENTRIES,
{
    crate::reader::lemma_run_ok(kind, st, tokens);
}

} // verus!
