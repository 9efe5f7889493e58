use vstd::prelude::*;

use crate::sitemap::{freq_token, priority_text, EntryView, Sitemap};
use crate::lastmod_text;

verus! {

/// Which values of the entries to show, one column each.
#[derive(Debug, Clone, Copy, PartialEq, Eq, Structural)]
pub struct ColumnChoice {
    pub loc: bool,
    pub lastmod: bool,
    pub changefreq: bool,
    pub priority: bool,
}

/// The text of an entry's `<changefreq>`, empty when it has none.
pub open spec fn changefreq_text(e: EntryView) -> Seq<char> {
    match e.change_freq {
        Some(f) => freq_token(f),
        None => Seq::empty(),
    }
}

/// The text of an entry's `<priority>`, empty when it has none.
pub open spec fn priority_cell(e: EntryView) -> Seq<char> {
    match e.priority {
        Some(p) => priority_text(p),
        None => Seq::empty(),
    }
}

/// One of the four values of an entry, as text: 0 `loc`, 1 `lastmod`,
/// 2 `changefreq`, 3 `priority`.
pub open spec fn cell(e: EntryView, which: int) -> Seq<char> {
    if which == 0 {
        e.loc
    } else if which == 1 {
        lastmod_text(e)
    } else if which == 2 {
        changefreq_text(e)
    } else {
        priority_cell(e)
    }
}

/// True when some entry has the value (`loc` always counts).
pub open spec fn some_entry_has(es: Seq<EntryView>, which: int) -> bool {
    which == 0 || exists|i: int|
        0 <= i < es.len() && #[trigger] has_value(es[i], which)
}

/// True when the entry has the value.
pub open spec fn has_value(e: EntryView, which: int) -> bool {
    if which == 1 {
        e.last_mod is Some
    } else if which == 2 {
        e.change_freq is Some
    } else if which == 3 {
        e.priority is Some
    } else {
        true
    }
}

/// The header of each value.
pub open spec fn header_of(which: int) -> Seq<char> {
    if which == 0 {
        "loc"@
    } else if which == 1 {
        "lastmod"@
    } else if which == 2 {
        "changefreq"@
    } else {
        "priority"@
    }
}

/// Whether the value was chosen.
pub open spec fn chosen(c: ColumnChoice, which: int) -> bool {
    if which == 0 {
        c.loc
    } else if which == 1 {
        c.lastmod
    } else if which == 2 {
        c.changefreq
    } else {
        c.priority
    }
}

/// The values shown, in order: those chosen that some entry has.
pub open spec fn shown(c: ColumnChoice, es: Seq<EntryView>, upto: int) -> Seq<int>
    decreases upto,
{
    if upto <= 0 {
        Seq::empty()
    } else {
        let w = upto - 1;
        shown(c, es, w) + if chosen(c, w) && some_entry_has(es, w) {
            seq![w]
        } else {
            Seq::empty()
        }
    }
}

/// True when some entry has the value.
fn any_has(sitemap: &Sitemap, which: usize) -> (r: bool)
    requires
        which < 4,
    ensures
        r == some_entry_has(sitemap@.entries, which as int),
{
    if which == 0 {
        return true;
    }
    let mut i: usize = 0;
    while i < sitemap.entries.len()
        invariant
            1 <= which < 4,
            i <= sitemap.entries@.len(),
            forall|k: int| 0 <= k < i ==> !has_value(#[trigger] sitemap@.entries[k], which as int),
        decreases sitemap.entries.len() - i,
    {
        let e = &sitemap.entries[i];
        proof {
            assert(sitemap@.entries[i as int] == e@);
        }
        let has = if which == 1 {
            e.last_mod.is_some()
        } else if which == 2 {
            e.change_freq.is_some()
        } else {
            e.priority.is_some()
        };
        if has {
            proof {
                assert(has_value(sitemap@.entries[i as int], which as int));
            }
            return true;
        }
        i = i + 1;
    }
    false
}

/// One value of every entry, as text.
fn column(sitemap: &Sitemap, which: usize) -> (r: Vec<String>)
    requires
        which < 4,
        sitemap@.wf(),
    ensures
        r@.len() == sitemap@.entries.len(),
        forall|i: int| 0 <= i < r@.len() ==> (#[trigger] r@[i])@ == cell(sitemap@.entries[i], which as int),
{
    let mut out: Vec<String> = Vec::new();
    let mut i: usize = 0;
    while i < sitemap.entries.len()
        invariant
            which < 4,
            sitemap@.wf(),
            i <= sitemap.entries@.len(),
            out@.len() == i,
            forall|k: int| 0 <= k < i ==> (#[trigger] out@[k])@ == cell(sitemap@.entries[k], which as int),
        decreases sitemap.entries.len() - i,
    {
        let e = &sitemap.entries[i];
        proof {
            assert(sitemap@.entries[i as int] == e@);
            assert(sitemap@.entries[i as int].wf());
        }
        let text = if which == 0 {
            e.loc.clone()
        } else if which == 1 {
            match e.last_mod {
                Some(w) => w.to_string(),
                None => String::new(),
            }
        } else if which == 2 {
            match e.change_freq {
                Some(f) => f.to_string(),
                None => String::new(),
            }
        } else {
            match e.priority {
                Some(p) => p.to_string(),
                None => String::new(),
            }
        };
        out.push(text);
        i = i + 1;
    }
    out
}

/// The header of each value.
fn header(which: usize) -> (r: &'static str)
    requires
        which < 4,
    ensures
        r@ == header_of(which as int),
{
    if which == 0 {
        "loc"
    } else if which == 1 {
        "lastmod"
    } else if which == 2 {
        "changefreq"
    } else {
        "priority"
    }
}

/// Whether the value was chosen.
fn is_chosen(c: &ColumnChoice, which: usize) -> (r: bool)
    requires
        which < 4,
    ensures
        r == chosen(*c, which as int),
{
    if which == 0 {
        c.loc
    } else if which == 1 {
        c.lastmod
    } else if which == 2 {
        c.changefreq
    } else {
        c.priority
    }
}

/// The headers and the columns of a table of the sitemap's entries: one
/// column for each chosen value that some entry has (`loc` whenever chosen),
/// in the order `loc`, `lastmod`, `changefreq`, `priority`.
pub fn build_headers_and_columns(sitemap: &Sitemap, choice: &ColumnChoice) -> (r: (
    Vec<&'static str>,
    Vec<Vec<String>>,
))
    requires
        sitemap@.wf(),
    ensures
        r.0@.len() == shown(*choice, sitemap@.entries, 4).len(),
        r.1@.len() == shown(*choice, sitemap@.entries, 4).len(),
        forall|j: int| 0 <= j < r.0@.len() ==> (#[trigger] r.0@[j])@ == header_of(
            shown(*choice, sitemap@.entries, 4)[j],
        ),
        forall|j: int| 0 <= j < r.1@.len() ==> (#[trigger] r.1@[j])@.len() == sitemap@.entries.len(),
        forall|j: int, i: int|
            0 <= j < r.1@.len() && 0 <= i < sitemap@.entries.len() ==> (#[trigger] r.1@[j]@[i])@
                == cell(sitemap@.entries[i], shown(*choice, sitemap@.entries, 4)[j]),
{
    let mut headers: Vec<&'static str> = Vec::new();
    let mut columns: Vec<Vec<String>> = Vec::new();
    let mut which: usize = 0;
    while which < 4
        invariant
            which <= 4,
            sitemap@.wf(),
            headers@.len() == shown(*choice, sitemap@.entries, which as int).len(),
            columns@.len() == shown(*choice, sitemap@.entries, which as int).len(),
            forall|j: int| 0 <= j < headers@.len() ==> (#[trigger] headers@[j])@ == header_of(
                shown(*choice, sitemap@.entries, which as int)[j],
            ),
            forall|j: int| 0 <= j < columns@.len() ==> (#[trigger] columns@[j])@.len()
                == sitemap@.entries.len(),
            forall|j: int, i: int|
                0 <= j < columns@.len() && 0 <= i < sitemap@.entries.len() ==> (
                #[trigger] columns@[j]@[i])@ == cell(
                    sitemap@.entries[i],
                    shown(*choice, sitemap@.entries, which as int)[j],
                ),
        decreases 4 - which,
    {
        let ghost before = shown(*choice, sitemap@.entries, which as int);
        if is_chosen(choice, which) && any_has(sitemap, which) {
            headers.push(header(which));
            columns.push(column(sitemap, which));
            proof {
                assert(shown(*choice, sitemap@.entries, which + 1) == before + seq![which as int]);
            }
        } else {
            proof {
                assert(shown(*choice, sitemap@.entries, which + 1) =~= before);
            }
        }
        which = which + 1;
    }
    (headers, columns)
}

/// The rows of a table given by its columns, all of one length.
pub fn transpose_columns(columns: Vec<Vec<String>>) -> (r: Vec<Vec<String>>)
    requires
        columns@.len() > 0,
        forall|j: int| 0 <= j < columns@.len() ==> (#[trigger] columns@[j])@.len() == columns@[0]@.len(),
    ensures
        r@.len() == columns@[0]@.len(),
        forall|i: int| 0 <= i < r@.len() ==> (#[trigger] r@[i])@.len() == columns@.len(),
        forall|i: int, j: int|
            0 <= i < r@.len() && 0 <= j < columns@.len() ==> (#[trigger] r@[i]@[j])@ == columns@[j]@[i]@,
{
    let rows = columns[0].len();
    let mut out: Vec<Vec<String>> = Vec::new();
    let mut i: usize = 0;
    while i < rows
        invariant
            rows == columns@[0]@.len(),
            columns@.len() > 0,
            forall|j: int| 0 <= j < columns@.len() ==> (#[trigger] columns@[j])@.len() == rows,
            i <= rows,
            out@.len() == i,
            forall|k: int| 0 <= k < i ==> (#[trigger] out@[k])@.len() == columns@.len(),
            forall|k: int, j: int|
                0 <= k < i && 0 <= j < columns@.len() ==> (#[trigger] out@[k]@[j])@ == columns@[j]@[k]@,
        decreases rows - i,
    {
        let mut row: Vec<String> = Vec::new();
        let mut j: usize = 0;
        while j < columns.len()
            invariant
                rows == columns@[0]@.len(),
                forall|m: int| 0 <= m < columns@.len() ==> (#[trigger] columns@[m])@.len() == rows,
                i < rows,
                j <= columns@.len(),
                row@.len() == j,
                forall|m: int| 0 <= m < j ==> (#[trigger] row@[m])@ == columns@[m]@[i as int]@,
            decreases columns.len() - j,
        {
            proof {
                assert(columns@[j as int]@.len() == rows);
            }
            row.push(columns[j][i].clone());
            j = j + 1;
        }
        out.push(row);
        i = i + 1;
    }
    out
}

} // verus!
