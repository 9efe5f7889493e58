use vstd::prelude::*;

use crate::decimal::{digit_char, lemma_pow10_monotonic, lemma_pow10_positive, lemma_pow10_19, pow10, pow10_u64, Decimal, MAX_DIGITS};
use crate::error::Error;
use crate::float_text::{float_of, lemma_float_units, read_float, FloatText};
use crate::w3c_datetime::W3CDateTime;

verus! {

/// The lowercase form that `str::to_lowercase` gives a string that is not
/// all ASCII.
pub uninterp spec fn lower_of(s: Seq<char>) -> Seq<char>;

/// True when every character of `s` is an ASCII lowercase letter.
pub open spec fn is_lower_word(s: Seq<char>) -> bool {
    forall|i: int| 0 <= i < s.len() ==> 'a' <= #[trigger] s[i] <= 'z'
}

/// True when every character of `s` is ASCII.
pub open spec fn is_ascii_text(s: Seq<char>) -> bool {
    forall|i: int| 0 <= i < s.len() ==> (#[trigger] s[i] as int) < 128
}

/// The lowercase form of an ASCII character: `A` to `Z` become `a` to `z`.
pub open spec fn ascii_lower(c: char) -> char {
    if 'A' <= c <= 'Z' {
        seq![
            'a', 'b', 'c', 'd', 'e', 'f', 'g', 'h', 'i', 'j', 'k', 'l', 'm',
            'n', 'o', 'p', 'q', 'r', 's', 't', 'u', 'v', 'w', 'x', 'y', 'z',
        ][c as int - 'A' as int]
    } else {
        c
    }
}

/// The lowercase form of a string that `str::to_lowercase` gives.
pub open spec fn lowercase_of(s: Seq<char>) -> Seq<char> {
    if is_ascii_text(s) {
        s.map_values(|c: char| ascii_lower(c))
    } else {
        lower_of(s)
    }
}

/// A word of ASCII lowercase letters is its own lowercase form.
pub proof fn lemma_lower_word_unchanged(s: Seq<char>)
    requires
        is_lower_word(s),
    ensures
        lowercase_of(s) == s,
{
    assert forall|i: int| 0 <= i < s.len() implies (#[trigger] s[i] as int) < 128 by {
        assert('a' <= s[i] <= 'z');
    }
    assert(s.map_values(|c: char| ascii_lower(c)) =~= s);
}

/// Relies on `str::to_lowercase`: the result depends on the characters
/// alone, and on an ASCII string it lowers `A` to `Z` and keeps the rest.
#[verifier::external_body]
fn lowercase(s: &str) -> (r: String)
    ensures
        r@ == (if is_ascii_text(s@) {
            s@.map_values(|c: char| ascii_lower(c))
        } else {
            lower_of(s@)
        }),
{
    s.to_lowercase()
}

/// True when two strings hold the same characters.
pub fn same_text(a: &str, b: &str) -> (r: bool)
    ensures
        r == (a@ == b@),
{
    a.to_owned() == b.to_owned()
}

/// How frequently the page is likely to change.
#[derive(Debug, Clone, Copy, PartialEq, Eq, Structural)]
pub enum ChangeFreq {
    Always,
    Hourly,
    Daily,
    Weekly,
    Monthly,
    Yearly,
    Never,
}

/// The token that names a change frequency in a document.
pub open spec fn freq_token(f: ChangeFreq) -> Seq<char> {
    match f {
        ChangeFreq::Always => "always"@,
        ChangeFreq::Hourly => "hourly"@,
        ChangeFreq::Daily => "daily"@,
        ChangeFreq::Weekly => "weekly"@,
        ChangeFreq::Monthly => "monthly"@,
        ChangeFreq::Yearly => "yearly"@,
        ChangeFreq::Never => "never"@,
    }
}

/// The change frequency that a lowercase token names, if any.
pub open spec fn freq_of_token(t: Seq<char>) -> Option<ChangeFreq> {
    if t == "always"@ {
        Some(ChangeFreq::Always)
    } else if t == "hourly"@ {
        Some(ChangeFreq::Hourly)
    } else if t == "daily"@ {
        Some(ChangeFreq::Daily)
    } else if t == "weekly"@ {
        Some(ChangeFreq::Weekly)
    } else if t == "monthly"@ {
        Some(ChangeFreq::Monthly)
    } else if t == "yearly"@ {
        Some(ChangeFreq::Yearly)
    } else if t == "never"@ {
        Some(ChangeFreq::Never)
    } else {
        None
    }
}

/// What `ChangeFreq::new` gives for a token: the frequency its lowercase form
/// names, or an error.
pub open spec fn freq_result(token: Seq<char>) -> Result<ChangeFreq, Error> {
    match freq_of_token(lowercase_of(token)) {
        Some(f) => Ok(f),
        None => Err(Error::UnrecognizedChangeFreq),
    }
}

impl ChangeFreq {
    /// Builds a change frequency from a token, ignoring case.
    pub fn new(string: String) -> (r: Result<ChangeFreq, Error>)
        ensures
            r == freq_result(string@),
    {
        let folded = lowercase(string.as_str());
        match ChangeFreq::from_lowercase(folded.as_str()) {
            Some(f) => Ok(f),
            None => Err(Error::UnrecognizedChangeFreq),
        }
    }

    /// Builds a change frequency from a token that is already lowercase.
    pub fn from_lowercase(token: &str) -> (r: Option<ChangeFreq>)
        ensures
            r == freq_of_token(token@),
    {
        if same_text(token, "always") {
            Some(ChangeFreq::Always)
        } else if same_text(token, "hourly") {
            Some(ChangeFreq::Hourly)
        } else if same_text(token, "daily") {
            Some(ChangeFreq::Daily)
        } else if same_text(token, "weekly") {
            Some(ChangeFreq::Weekly)
        } else if same_text(token, "monthly") {
            Some(ChangeFreq::Monthly)
        } else if same_text(token, "yearly") {
            Some(ChangeFreq::Yearly)
        } else if same_text(token, "never") {
            Some(ChangeFreq::Never)
        } else {
            None
        }
    }

    /// The token that names this frequency.
    pub fn as_str(&self) -> (r: &'static str)
        ensures
            r@ == freq_token(*self),
    {
        match self {
            ChangeFreq::Always => "always",
            ChangeFreq::Hourly => "hourly",
            ChangeFreq::Daily => "daily",
            ChangeFreq::Weekly => "weekly",
            ChangeFreq::Monthly => "monthly",
            ChangeFreq::Yearly => "yearly",
            ChangeFreq::Never => "never",
        }
    }

    /// The token that names this frequency, as an owned string.
    pub fn to_string(&self) -> (r: String)
        ensures
            r@ == freq_token(*self),
    {
        self.as_str().to_owned()
    }
}

/// Reading a frequency's own token back gives the same frequency.
pub proof fn lemma_freq_token_round_trip(f: ChangeFreq)
    ensures
        is_lower_word(freq_token(f)),
        freq_of_token(freq_token(f)) == Some(f),
{
    reveal_strlit("always");
    reveal_strlit("hourly");
    reveal_strlit("daily");
    reveal_strlit("weekly");
    reveal_strlit("monthly");
    reveal_strlit("yearly");
    reveal_strlit("never");
    assert("always"@[0] == 'a');
    assert("hourly"@[0] == 'h');
    assert("daily"@[0] == 'd');
    assert("weekly"@[0] == 'w');
    assert("monthly"@[0] == 'm');
    assert("yearly"@[0] == 'y');
    assert("never"@[0] == 'n');
}

/// A token names a change frequency exactly when its lowercase form is one
/// of the seven tokens; any other token is refused as unrecognized.
pub proof fn lemma_change_freq_accepts(token: Seq<char>)
    ensures
        freq_result(token) is Ok <==> exists|f: ChangeFreq| lowercase_of(token) == #[trigger] freq_token(f),
        freq_result(token) is Ok ==> freq_token(freq_result(token)->Ok_0) == lowercase_of(token),
        freq_result(token) is Err ==> freq_result(token) == Err::<ChangeFreq, Error>(
            Error::UnrecognizedChangeFreq,
        ),
{
    let l = lowercase_of(token);
    reveal_strlit("always");
    reveal_strlit("hourly");
    reveal_strlit("daily");
    reveal_strlit("weekly");
    reveal_strlit("monthly");
    reveal_strlit("yearly");
    reveal_strlit("never");
    if exists|f: ChangeFreq| l == #[trigger] freq_token(f) {
        let f = choose|f: ChangeFreq| l == #[trigger] freq_token(f);
        lemma_freq_token_round_trip(f);
    }
    if let Some(f) = freq_of_token(l) {
        assert(l == freq_token(f));
    }
}

/// The priority of a URL relative to the other URLs of its site: the
/// decimal number `units / 10^scale`, from 0.0 to 1.0; the constructors give it
/// in lowest terms.
#[derive(Debug, Clone, Copy, PartialEq, Eq, Structural)]
pub struct Priority {
    pub units: u64,
    pub scale: u32,
}

/// `units / 10^scale` with the trailing zeros of the fraction removed.
pub open spec fn lowest_terms(units: nat, scale: nat) -> (nat, nat)
    decreases scale,
{
    if scale > 0 && units % 10 == 0 {
        lowest_terms(units / 10, (scale - 1) as nat)
    } else {
        (units, scale)
    }
}

/// What `Priority::new` gives for a decimal.
pub open spec fn priority_of(value: Decimal) -> Result<Priority, Error> {
    if value.is_below_zero() {
        Err(Error::PriorityTooLow)
    } else if value.is_above_one() {
        Err(Error::PriorityTooHigh)
    } else {
        let (u, s) = lowest_terms(value.units as nat, value.scale as nat);
        Ok(Priority { units: u as u64, scale: s as u32 })
    }
}

/// What a priority written as a float gives: an infinite one lies out of
/// range on its side; zero, of either sign, is 0.0; any other negative
/// number is too low; a number from one up is 1.0 or too high; a smaller
/// one is kept as a decimal of at most 19 places, later places dropped.
pub open spec fn priority_of_float(f: FloatText) -> Result<Priority, Error> {
    if f.infinite {
        if f.negative {
            Err(Error::PriorityTooLow)
        } else {
            Err(Error::PriorityTooHigh)
        }
    } else if f.units == 0 {
        Ok(Priority { units: 0, scale: 0 })
    } else if f.negative {
        Err(Error::PriorityTooLow)
    } else if f.shift >= 0 {
        if f.units == 1 && f.shift == 0 {
            Ok(Priority { units: 1, scale: 0 })
        } else {
            Err(Error::PriorityTooHigh)
        }
    } else if f.shift >= -19 {
        priority_of(Decimal { negative: false, units: f.units as u64, scale: (-f.shift) as u32 })
    } else {
        priority_of(
            Decimal {
                negative: false,
                units: (f.units / pow10((-f.shift - 19) as nat) as int) as u64,
                scale: 19,
            },
        )
    }
}

/// What `Priority::from_text` gives for a text: the text read as a float,
/// then placed in range.
pub open spec fn priority_of_text(text: Seq<char>) -> Result<Priority, Error> {
    match float_of(text) {
        Some(f) => priority_of_float(f),
        None => Err(Error::ParsePriorityError),
    }
}

/// The priority rounded to tenths, halves rounded up.
pub open spec fn tenths(p: Priority) -> int {
    (20 * p.units + pow10(p.scale as nat)) / (2 * pow10(p.scale as nat)) as int
}

/// A priority written with one decimal digit, such as `0.8` or `1.0`.
pub open spec fn priority_text(p: Priority) -> Seq<char> {
    if tenths(p) >= 10 {
        seq!['1', '.', '0']
    } else {
        seq!['0', '.', digit_char(tenths(p))]
    }
}

proof fn lemma_lowest_terms(units: nat, scale: nat)
    ensures
        ({
            let (u, s) = lowest_terms(units, scale);
            &&& u * pow10(scale) == units * pow10(s)
            &&& s <= scale
            &&& u <= units
            &&& (s == 0 || u % 10 != 0)
        }),
    decreases scale,
{
    if scale > 0 && units % 10 == 0 {
        let (u, s) = lowest_terms(units / 10, (scale - 1) as nat);
        lemma_lowest_terms(units / 10, (scale - 1) as nat);
        let p = pow10((scale - 1) as nat);
        let q = pow10(s);
        let k = units / 10;
        assert(units == 10 * k);
        assert(u * pow10(scale) == units * pow10(s)) by (nonlinear_arith)
            requires
                u * p == k * q,
                pow10(scale) == 10 * p,
                units == 10 * k,
                q == pow10(s),
        ;
    }
}

impl Priority {
    /// A priority from 0.0 to 1.0 with at most 19 places.
    pub open spec fn wf(self) -> bool {
        &&& self.scale <= MAX_DIGITS
        &&& self.units <= pow10(self.scale as nat)
    }

    /// Whether the priority lies from 0.0 to 1.0 with at most 19 places.
    pub fn is_valid(&self) -> (r: bool)
        ensures
            r == self.wf(),
    {
        self.scale <= MAX_DIGITS && self.units <= pow10_u64(self.scale)
    }

    /// Builds a priority from a decimal, which must lie from 0.0 to 1.0.
    pub fn new(value: Decimal) -> (r: Result<Priority, Error>)
        requires
            value.wf(),
        ensures
            r == priority_of(value),
            r matches Ok(p) ==> p.wf(),
    {
        if value.negative && value.units > 0 {
            return Err(Error::PriorityTooLow);
        }
        if value.units > pow10_u64(value.scale) {
            return Err(Error::PriorityTooHigh);
        }
        let mut units = value.units;
        let mut scale = value.scale;
        while scale > 0 && units % 10 == 0
            invariant
                scale <= value.scale <= MAX_DIGITS,
                lowest_terms(units as nat, scale as nat) == lowest_terms(
                    value.units as nat,
                    value.scale as nat,
                ),
            decreases scale,
        {
            units = units / 10;
            scale = scale - 1;
        }
        proof {
            lemma_lowest_terms(value.units as nat, value.scale as nat);
            let (u, s) = lowest_terms(value.units as nat, value.scale as nat);
            lemma_pow10_positive(value.scale as nat);
            lemma_pow10_positive(s);
            assert(u <= pow10(s)) by (nonlinear_arith)
                requires
                    u * pow10(value.scale as nat) == value.units * pow10(s),
                    value.units <= pow10(value.scale as nat),
                    pow10(value.scale as nat) >= 1,
                    pow10(s) >= 1,
            ;
        }
        Ok(Priority { units, scale })
    }

    /// Checks that a priority lies from 0.0 to 1.0, and gives it in lowest terms.
    pub fn validate(&self) -> (r: Result<Priority, Error>)
        requires
            self.scale <= MAX_DIGITS,
        ensures
            r == priority_of(Decimal { negative: false, units: self.units, scale: self.scale }),
    {
        Priority::new(Decimal { negative: false, units: self.units, scale: self.scale })
    }

    /// Reads a priority from its text, such as `0.8`, `8e-1` or `1`, in the
    /// forms a float is read from, then places it in range.
    pub fn from_text(text: &str) -> (r: Result<Priority, Error>)
        ensures
            r == priority_of_text(text@),
            r matches Ok(p) ==> p.wf(),
    {
        let parts = match read_float(text) {
            Some(p) => p,
            None => {
                return Err(Error::ParsePriorityError);
            },
        };
        let ghost f = float_of(text@)->Some_0;
        proof {
            lemma_float_units(text@);
            lemma_pow10_19();
        }
        if parts.infinite {
            return if parts.negative {
                Err(Error::PriorityTooLow)
            } else {
                Err(Error::PriorityTooHigh)
            };
        }
        if parts.units == 0 {
            return Ok(Priority { units: 0, scale: 0 });
        }
        if parts.negative {
            return Err(Error::PriorityTooLow);
        }
        if parts.shift >= 0 {
            return if parts.units == 1 && parts.shift == 0 {
                Ok(Priority { units: 1, scale: 0 })
            } else {
                Err(Error::PriorityTooHigh)
            };
        }
        if parts.shift >= -19 {
            return Priority::new(
                Decimal { negative: false, units: parts.units, scale: (-parts.shift) as u32 },
            );
        }
        proof {
            assert(parts.shift >= -(20 * crate::float_text::EXPONENT_CAP as int));
        }
        let drop = -parts.shift - 19;
        let units = if drop >= 19 {
            proof {
                let k = (-f.shift - 19) as nat;
                lemma_pow10_monotonic(19, k);
                assert(f.units / pow10(k) as int == 0) by (nonlinear_arith)
                    requires
                        0 <= f.units < pow10(19),
                        pow10(19) <= pow10(k),
                ;
            }
            0
        } else {
            proof {
                lemma_pow10_positive(drop as nat);
            }
            parts.units / pow10_u64(drop as u32)
        };
        proof {
            lemma_pow10_positive(19);
        }
        Priority::new(Decimal { negative: false, units, scale: 19 })
    }

    /// The priority rounded to tenths, halves rounded up.
    pub fn tenths(&self) -> (r: u64)
        requires
            self.wf(),
        ensures
            r == tenths(*self),
            r <= 10,
    {
        let p = pow10_u64(self.scale) as u128;
        let u = self.units as u128;
        proof {
            lemma_pow10_monotonic(self.scale as nat, 19);
            lemma_pow10_19();
            lemma_pow10_positive(self.scale as nat);
            assert((20 * u + p) / (2 * p) <= 10) by (nonlinear_arith)
                requires
                    u <= p,
                    p >= 1,
            ;
        }
        ((20 * u + p) / (2 * p)) as u64
    }

    /// The priority written with one decimal digit, such as `0.8`.
    pub fn to_string(&self) -> (r: String)
        requires
            self.wf(),
        ensures
            r@ == priority_text(*self),
    {
        let t = self.tenths();
        let text = match t {
            0 => "0.0",
            1 => "0.1",
            2 => "0.2",
            3 => "0.3",
            4 => "0.4",
            5 => "0.5",
            6 => "0.6",
            7 => "0.7",
            8 => "0.8",
            9 => "0.9",
            _ => "1.0",
        };
        proof {
            reveal_strlit("0.0");
            reveal_strlit("0.1");
            reveal_strlit("0.2");
            reveal_strlit("0.3");
            reveal_strlit("0.4");
            reveal_strlit("0.5");
            reveal_strlit("0.6");
            reveal_strlit("0.7");
            reveal_strlit("0.8");
            reveal_strlit("0.9");
            reveal_strlit("1.0");
            assert(text@ =~= priority_text(*self));
        }
        text.to_owned()
    }
}

/// The view of an optional string.
pub open spec fn opt_view(o: Option<String>) -> Option<Seq<char>> {
    match o {
        Some(s) => Some(s@),
        None => None,
    }
}

/// An entry of a document: a `<url>` of a sitemap or a `<sitemap>` of an
/// index, as a value.
pub struct EntryView {
    pub loc: Seq<char>,
    pub last_mod: Option<W3CDateTime>,
    pub change_freq: Option<ChangeFreq>,
    pub priority: Option<Priority>,
}

/// An entry with no location and no optional values.
pub open spec fn empty_entry() -> EntryView {
    EntryView { loc: Seq::empty(), last_mod: None, change_freq: None, priority: None }
}

impl EntryView {
    /// Each optional value lies in its range.
    pub open spec fn wf(self) -> bool {
        &&& (self.last_mod matches Some(w) ==> w.wf())
        &&& (self.priority matches Some(p) ==> p.wf())
    }
}

/// A document, sitemap or index, as a value.
pub struct DocView {
    pub namespace: Seq<char>,
    pub schema_instance: Option<Seq<char>>,
    pub schema_location: Option<Seq<char>>,
    pub entries: Seq<EntryView>,
}

/// A document with no attributes and no entries.
pub open spec fn empty_doc() -> DocView {
    DocView {
        namespace: Seq::empty(),
        schema_instance: None,
        schema_location: None,
        entries: Seq::empty(),
    }
}

impl DocView {
    /// Each entry's optional values lie in their ranges.
    pub open spec fn wf(self) -> bool {
        forall|i: int| 0 <= i < self.entries.len() ==> (#[trigger] self.entries[i]).wf()
    }
}

/// A URL entry: the required `<loc>` and the optional `<lastmod>`,
/// `<changefreq>` and `<priority>`.
#[derive(Debug, Clone, PartialEq)]
pub struct UrlEntry {
    /// The URL of the page.
    pub loc: String,
    /// When the page last changed.
    pub last_mod: Option<W3CDateTime>,
    /// How frequently the page is likely to change.
    pub change_freq: Option<ChangeFreq>,
    /// The priority of this URL relative to other URLs on the site.
    pub priority: Option<Priority>,
}

impl View for UrlEntry {
    type V = EntryView;

    open spec fn view(&self) -> EntryView {
        EntryView {
            loc: self.loc@,
            last_mod: self.last_mod,
            change_freq: self.change_freq,
            priority: self.priority,
        }
    }
}

impl UrlEntry {
    /// A new, empty entry.
    pub fn new() -> (r: UrlEntry)
        ensures
            r@ == empty_entry(),
    {
        UrlEntry { loc: String::new(), last_mod: None, change_freq: None, priority: None }
    }
}

impl Default for UrlEntry {
    fn default() -> (r: UrlEntry)
        ensures
            r@ == empty_entry(),
    {
        UrlEntry::new()
    }
}

/// A sitemap: the `<urlset>` root's attributes and its `<url>` entries.
#[derive(Debug, Clone, PartialEq)]
pub struct Sitemap {
    /// The `xmlns:xsi` attribute.
    pub schema_instance: Option<String>,
    /// The `xsi:schemaLocation` attribute.
    pub schema_location: Option<String>,
    /// The `xmlns` attribute.
    pub namespace: String,
    /// The URLs of the sitemap, in document order.
    pub entries: Vec<UrlEntry>,
}

/// The view of a list of entries.
pub open spec fn entries_view(e: Seq<UrlEntry>) -> Seq<EntryView> {
    e.map_values(|x: UrlEntry| x@)
}

impl View for Sitemap {
    type V = DocView;

    open spec fn view(&self) -> DocView {
        DocView {
            namespace: self.namespace@,
            schema_instance: opt_view(self.schema_instance),
            schema_location: opt_view(self.schema_location),
            entries: entries_view(self.entries@),
        }
    }
}

impl Sitemap {
    /// A new sitemap with no attributes and no entries.
    pub fn new() -> (r: Sitemap)
        ensures
            r@ == empty_doc(),
    {
        let r = Sitemap {
            schema_instance: None,
            schema_location: None,
            namespace: String::new(),
            entries: Vec::new(),
        };
        proof {
            assert(r@.entries =~= Seq::<EntryView>::empty());
        }
        r
    }
}

impl Sitemap {
    /// Whether every entry's values lie in their ranges.
    pub fn values_in_range(&self) -> (r: bool)
        ensures
            r == self@.wf(),
    {
        let mut i: usize = 0;
        while i < self.entries.len()
            invariant
                i <= self.entries@.len(),
                forall|k: int| 0 <= k < i ==> (#[trigger] self@.entries[k]).wf(),
            decreases self.entries.len() - i,
        {
            let e = &self.entries[i];
            proof {
                assert(self@.entries[i as int] == e@);
            }
            let lastmod_ok = match e.last_mod {
                Some(w) => w.is_valid(),
                None => true,
            };
            let priority_ok = match e.priority {
                Some(p) => p.is_valid(),
                None => true,
            };
            if !(lastmod_ok && priority_ok) {
                return false;
            }
            i = i + 1;
        }
        true
    }
}

/// The `<urlset>` root element as a list of URLs.
#[derive(Debug, Clone, PartialEq)]
pub struct Urlset {
    pub schema_instance: Option<String>,
    pub schema_location: Option<String>,
    pub namespace: String,
    pub urls: Vec<UrlEntry>,
}

impl Urlset {
    /// A new urlset with no attributes and no URLs.
    pub fn new() -> (r: Urlset)
        ensures
            r.schema_instance is None,
            r.schema_location is None,
            r.namespace@ == Seq::<char>::empty(),
            r.urls@.len() == 0,
    {
        Urlset {
            schema_instance: None,
            schema_location: None,
            namespace: String::new(),
            urls: Vec::new(),
        }
    }
}

/// A priority read from a text lies from 0.0 to 1.0.
pub proof fn lemma_priority_of_text_wf(text: Seq<char>)
    ensures
        priority_of_text(text) matches Ok(p) ==> p.wf(),
{
    lemma_float_units(text);
    lemma_pow10_19();
    if let Some(f) = float_of(text) {
        if !f.infinite && f.units != 0 && !f.negative && f.shift < 0 {
            if f.shift >= -19 {
                lemma_priority_of_wf(
                    Decimal { negative: false, units: f.units as u64, scale: (-f.shift) as u32 },
                );
            } else {
                lemma_priority_of_wf(
                    Decimal {
                        negative: false,
                        units: (f.units / pow10((-f.shift - 19) as nat) as int) as u64,
                        scale: 19,
                    },
                );
            }
        }
    }
}

/// A priority built from a decimal lies from 0.0 to 1.0.
pub proof fn lemma_priority_of_wf(value: Decimal)
    requires
        value.wf(),
    ensures
        priority_of(value) matches Ok(p) ==> p.wf(),
{
    if !value.is_below_zero() && !value.is_above_one() {
        lemma_lowest_terms(value.units as nat, value.scale as nat);
        let (u, s) = lowest_terms(value.units as nat, value.scale as nat);
        lemma_pow10_positive(value.scale as nat);
        lemma_pow10_positive(s);
        assert(u <= pow10(s)) by (nonlinear_arith)
            requires
                u * pow10(value.scale as nat) == value.units * pow10(s),
                value.units <= pow10(value.scale as nat),
                pow10(value.scale as nat) >= 1,
                pow10(s) >= 1,
        ;
    }
}

/// A priority can be built exactly from the decimals from 0.0 to 1.0, and
/// it keeps their value.
pub proof fn lemma_priority_range(value: Decimal)
    requires
        value.wf(),
    ensures
        priority_of(value) is Ok <==> !value.is_below_zero() && !value.is_above_one(),
        value.is_below_zero() ==> priority_of(value) == Err::<Priority, Error>(
            Error::PriorityTooLow,
        ),
        value.is_above_one() ==> priority_of(value) == Err::<Priority, Error>(
            Error::PriorityTooHigh,
        ),
        priority_of(value) matches Ok(p) ==> p.units * pow10(value.scale as nat) == value.units
            * pow10(p.scale as nat),
{
    lemma_lowest_terms(value.units as nat, value.scale as nat);
}

} // verus!
