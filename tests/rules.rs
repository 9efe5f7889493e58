use sitemaps::decimal::Decimal;
use sitemaps::error::Error;
use sitemaps::reader::{kind_of_root, validate_loc, DocumentKind};
use sitemaps::sitemap::{ChangeFreq, Priority, Sitemap};
use sitemaps::sitemap_index::SitemapIndex;
use sitemaps::w3c_datetime::{CalendarDate, W3CDateTime};
use sitemaps::xml::{XmlAttribute, XmlToken};

fn urlset_with(count: usize) -> String {
    let mut text = String::from(
        r#"<?xml version="1.0" encoding="UTF-8"?><urlset xmlns="http://www.sitemaps.org/schemas/sitemap/0.9">"#,
    );
    for i in 0..count {
        text.push_str(&format!("<url><loc>http://www.example.com/{}</loc></url>", i));
    }
    text.push_str("</urlset>");
    text
}

#[test]
fn change_freq_ignores_case() {
    assert_eq!(ChangeFreq::new(String::from("monthly")), Ok(ChangeFreq::Monthly));
    assert_eq!(ChangeFreq::new(String::from("MONTHLY")), Ok(ChangeFreq::Monthly));
    assert_eq!(ChangeFreq::new(String::from("Hourly")), Ok(ChangeFreq::Hourly));
    assert_eq!(ChangeFreq::new(String::from("nEvEr")), Ok(ChangeFreq::Never));
}

#[test]
fn change_freq_refuses_other_tokens() {
    assert_eq!(ChangeFreq::new(String::from("sometimes")), Err(Error::UnrecognizedChangeFreq));
    assert_eq!(ChangeFreq::new(String::from("")), Err(Error::UnrecognizedChangeFreq));
    assert_eq!(ChangeFreq::new(String::from(" daily")), Err(Error::UnrecognizedChangeFreq));
    assert_eq!(ChangeFreq::from_lowercase("DAILY"), None);
}

#[test]
fn change_freq_tokens_round_trip() {
    for f in [
        ChangeFreq::Always,
        ChangeFreq::Hourly,
        ChangeFreq::Daily,
        ChangeFreq::Weekly,
        ChangeFreq::Monthly,
        ChangeFreq::Yearly,
        ChangeFreq::Never,
    ] {
        assert_eq!(ChangeFreq::new(f.to_string()), Ok(f));
    }
}

#[test]
fn priority_accepts_zero_to_one() {
    assert_eq!(Priority::from_text("0.0"), Ok(Priority { units: 0, scale: 0 }));
    assert_eq!(Priority::from_text("1.0"), Ok(Priority { units: 1, scale: 0 }));
    assert_eq!(Priority::from_text("1"), Ok(Priority { units: 1, scale: 0 }));
    assert_eq!(Priority::from_text("0.50"), Ok(Priority { units: 5, scale: 1 }));
    assert_eq!(Priority::from_text(".25"), Ok(Priority { units: 25, scale: 2 }));
    assert_eq!(Priority::from_text("-0.0"), Ok(Priority { units: 0, scale: 0 }));
}

#[test]
fn priority_refuses_out_of_range() {
    assert_eq!(Priority::from_text("-0.1"), Err(Error::PriorityTooLow));
    assert_eq!(Priority::from_text("1.01"), Err(Error::PriorityTooHigh));
    assert_eq!(Priority::from_text("2"), Err(Error::PriorityTooHigh));
    assert_eq!(
        Priority::new(Decimal { negative: true, units: 5, scale: 1 }),
        Err(Error::PriorityTooLow)
    );
    assert_eq!(
        Priority::new(Decimal { negative: false, units: 11, scale: 1 }),
        Err(Error::PriorityTooHigh)
    );
    assert_eq!(Priority { units: 3, scale: 0 }.validate(), Err(Error::PriorityTooHigh));
}

#[test]
fn priority_refuses_non_numbers() {
    for text in ["", "abc", "0.5.1", "+", ".", "e5", "0.5e", "1e+", "0.5 ", "NaN", "nan"] {
        assert_eq!(Priority::from_text(text), Err(Error::ParsePriorityError), "{}", text);
    }
}

#[test]
fn priority_reads_float_forms() {
    assert_eq!(Priority::from_text("8e-1"), Ok(Priority { units: 8, scale: 1 }));
    assert_eq!(Priority::from_text("0.50000000000000000000"), Ok(Priority { units: 5, scale: 1 }));
    assert_eq!(Priority::from_text("1.00000000000000000001"), Ok(Priority { units: 1, scale: 0 }));
    assert_eq!(Priority::from_text("1E0"), Ok(Priority { units: 1, scale: 0 }));
    assert_eq!(Priority::from_text("5."), Err(Error::PriorityTooHigh));
    assert_eq!(Priority::from_text("1e-30"), Ok(Priority { units: 0, scale: 0 }));
    assert_eq!(Priority::from_text("-1e0"), Err(Error::PriorityTooLow));
    assert_eq!(Priority::from_text("1e1"), Err(Error::PriorityTooHigh));
    assert_eq!(Priority::from_text("-0.00000000000000000000001"), Err(Error::PriorityTooLow));
    assert_eq!(Priority::from_text("inf"), Err(Error::PriorityTooHigh));
    assert_eq!(Priority::from_text("-Infinity"), Err(Error::PriorityTooLow));
    assert_eq!(Priority::from_text("25e999999999999999999999999999999999"), Err(Error::PriorityTooHigh));
    assert_eq!(Priority::from_text("25e-999999999999999999999999999999999"), Ok(Priority { units: 0, scale: 0 }));
}

#[test]
fn priority_not_in_lowest_terms_is_written() {
    assert_eq!(Priority { units: 80, scale: 2 }.to_string(), "0.8");
}

#[test]
fn exponent_priority_in_a_document() {
    let low = r#"<urlset xmlns="n"><url><loc>http://a.example/</loc><priority>-1e0</priority></url></urlset>"#;
    assert!(matches!(Sitemap::read_from(low), Err(Error::PriorityTooLow)));
    let ok = r#"<urlset xmlns="n"><url><loc>http://a.example/</loc><priority>8e-1</priority></url></urlset>"#;
    assert_eq!(Sitemap::read_from(ok).unwrap().entries[0].priority, Some(Priority { units: 8, scale: 1 }));
}

#[test]
fn priority_is_written_with_one_digit() {
    assert_eq!(Priority::from_text("0.8").unwrap().to_string(), "0.8");
    assert_eq!(Priority::from_text("0.85").unwrap().to_string(), "0.9");
    assert_eq!(Priority::from_text("0.84").unwrap().to_string(), "0.8");
    assert_eq!(Priority::from_text("1").unwrap().to_string(), "1.0");
    assert_eq!(Priority::from_text("0").unwrap().to_string(), "0.0");
    assert_eq!(Priority::from_text("0.96").unwrap().to_string(), "1.0");
}

#[test]
fn decimal_numerals_are_read() {
    assert_eq!(Decimal::parse("0.8"), Some(Decimal { negative: false, units: 8, scale: 1 }));
    assert_eq!(Decimal::parse("-12.50"), Some(Decimal { negative: true, units: 1250, scale: 2 }));
    assert_eq!(Decimal::parse("12345678901234567890"), None);
}

#[test]
fn one_url_scenario() {
    let text = r#"<urlset xmlns="http://www.sitemaps.org/schemas/sitemap/0.9"><url><loc>http://www.example.com/</loc><lastmod>2005-01-01</lastmod><changefreq>monthly</changefreq><priority>0.8</priority></url></urlset>"#;
    let sitemap = Sitemap::read_from(text).unwrap();
    assert_eq!(sitemap.entries.len(), 1);
    assert_eq!(sitemap.entries[0].loc, "http://www.example.com/");
    assert_eq!(
        sitemap.entries[0].last_mod,
        Some(W3CDateTime::Date(CalendarDate { year: 2005, month: 1, day: 1 }))
    );
    assert_eq!(sitemap.entries[0].change_freq, Some(ChangeFreq::Monthly));
    assert_eq!(sitemap.entries[0].priority, Some(Priority { units: 8, scale: 1 }));
}

#[test]
fn two_index_entries_keep_their_order() {
    let text = r#"<?xml version="1.0" encoding="UTF-8"?><sitemapindex xmlns="urn:example:ns"><sitemap><loc>http://a.example/1.xml</loc></sitemap><sitemap><loc>http://a.example/2.xml</loc><lastmod>2005-01-01</lastmod></sitemap></sitemapindex>"#;
    let index = SitemapIndex::read_from(text).unwrap();
    assert_eq!(index.namespace, "urn:example:ns");
    assert_eq!(index.entries.len(), 2);
    assert_eq!(index.entries[0].loc, "http://a.example/1.xml");
    assert_eq!(index.entries[1].loc, "http://a.example/2.xml");
    assert!(index.entries[0].last_mod.is_none());
    assert!(index.entries[1].last_mod.is_some());
}

#[test]
fn too_many_urls_gives_no_model() {
    let text = urlset_with(50_001);
    assert!(matches!(Sitemap::read_from(&text), Err(Error::TooManyUrls)));
}

#[test]
fn fifty_thousand_urls_are_accepted() {
    let text = urlset_with(50_000);
    let sitemap = Sitemap::read_from(&text).unwrap();
    assert_eq!(sitemap.entries.len(), 50_000);
    assert_eq!(sitemap.entries[49_999].loc, "http://www.example.com/49999");
}

#[test]
fn long_loc_is_refused() {
    let long = format!("http://www.example.com/{}", "a".repeat(2049 - 23));
    assert_eq!(long.chars().count(), 2049);
    let text = format!(r#"<urlset xmlns="n"><url><loc>{}</loc></url></urlset>"#, long);
    assert!(matches!(Sitemap::read_from(&text), Err(Error::UrlValueTooLong)));
    assert_eq!(validate_loc(&long), Err(Error::UrlValueTooLong));
    let longest = format!("http://www.example.com/{}", "a".repeat(2048 - 23));
    assert_eq!(validate_loc(&longest), Ok(longest.clone()));
    assert_eq!(validate_loc("HTTP://Example.COM"), Ok(String::from("http://example.com/")));
}

#[test]
fn invalid_loc_is_refused() {
    assert_eq!(validate_loc("not a url"), Err(Error::UrlParseError));
    assert_eq!(validate_loc(""), Err(Error::UrlParseError));
    let text = r#"<urlset xmlns="n"><url><loc>/relative/path</loc></url></urlset>"#;
    assert!(matches!(Sitemap::read_from(text), Err(Error::UrlParseError)));
    let missing = r#"<urlset xmlns="n"><url><lastmod>2005-01-01</lastmod></url></urlset>"#;
    assert!(matches!(Sitemap::read_from(missing), Err(Error::UrlParseError)));
}

#[test]
fn latin1_declaration_is_refused_before_entries() {
    let text = r#"<?xml version="1.0" encoding="ISO-8859-1"?><urlset xmlns="n"><url><loc>bad</loc></url></urlset>"#;
    assert!(matches!(Sitemap::read_from(text), Err(Error::EncodingError)));
}

#[test]
fn declaration_without_encoding_is_refused() {
    let text = r#"<?xml version="1.0"?><urlset xmlns="n"></urlset>"#;
    assert!(matches!(Sitemap::read_from(text), Err(Error::EncodingError)));
}

#[test]
fn lowercase_utf8_is_accepted() {
    let text = r#"<?xml version="1.0" encoding="utf-8"?><urlset xmlns="n"></urlset>"#;
    assert!(Sitemap::read_from(text).is_ok());
}

#[test]
fn unclosed_root_ends_too_early() {
    let text = r#"<urlset xmlns="n"><url><loc>http://a.example/</loc></url>"#;
    assert!(matches!(Sitemap::read_from(text), Err(Error::UnexpectedEof)));
    assert!(matches!(Sitemap::read_from(""), Err(Error::UnexpectedEof)));
}

#[test]
fn mismatched_tags_are_a_syntax_error() {
    let text = r#"<urlset xmlns="n"><url></urlset>"#;
    assert!(matches!(Sitemap::read_from(text), Err(Error::XmlSyntaxError)));
}

#[test]
fn bad_values_inside_entries_are_reported() {
    let bad_date = r#"<urlset xmlns="n"><url><loc>http://a.example/</loc><lastmod>soon</lastmod></url></urlset>"#;
    assert!(matches!(Sitemap::read_from(bad_date), Err(Error::DateTimeParseError)));
    let bad_freq = r#"<urlset xmlns="n"><url><loc>http://a.example/</loc><changefreq>often</changefreq></url></urlset>"#;
    assert!(matches!(Sitemap::read_from(bad_freq), Err(Error::UnrecognizedChangeFreq)));
    let high = r#"<urlset xmlns="n"><url><loc>http://a.example/</loc><priority>1.5</priority></url></urlset>"#;
    assert!(matches!(Sitemap::read_from(high), Err(Error::PriorityTooHigh)));
    let low = r#"<urlset xmlns="n"><url><loc>http://a.example/</loc><priority>-1</priority></url></urlset>"#;
    assert!(matches!(Sitemap::read_from(low), Err(Error::PriorityTooLow)));
    let nan = r#"<urlset xmlns="n"><url><loc>http://a.example/</loc><priority>high</priority></url></urlset>"#;
    assert!(matches!(Sitemap::read_from(nan), Err(Error::ParsePriorityError)));
}

#[test]
fn wrong_root_is_not_a_sitemap() {
    let text = r#"<?xml version="1.0" encoding="UTF-8"?><feed></feed>"#;
    assert!(matches!(Sitemap::read_from(text), Err(Error::NotASitemap)));
    assert_eq!(kind_of_root("urlset"), Ok(DocumentKind::Urlset));
    assert_eq!(kind_of_root("sitemapindex"), Ok(DocumentKind::SitemapIndex));
    assert_eq!(kind_of_root("rss"), Err(Error::NotASitemap));
}

#[test]
fn tokens_read_as_a_sitemap() {
    let tokens = vec![
        XmlToken::Decl { encoding: Some(String::from("UTF-8")) },
        XmlToken::Start {
            name: String::from("urlset"),
            attributes: vec![XmlAttribute { key: String::from("xmlns"), value: String::from("n") }],
        },
        XmlToken::Start { name: String::from("url"), attributes: vec![] },
        XmlToken::Start { name: String::from("loc"), attributes: vec![] },
        XmlToken::Text { text: String::from("http://a.example/") },
        XmlToken::Text { text: String::from("page") },
        XmlToken::End { name: String::from("loc") },
        XmlToken::End { name: String::from("url") },
        XmlToken::End { name: String::from("urlset") },
        XmlToken::Eof,
    ];
    let sitemap = Sitemap::from_tokens(&tokens).unwrap();
    assert_eq!(sitemap.namespace, "n");
    assert_eq!(sitemap.entries.len(), 1);
    assert_eq!(sitemap.entries[0].loc, "http://a.example/page");
}

#[test]
fn written_tokens_read_back() {
    let text = r#"<?xml version="1.0" encoding="UTF-8"?><urlset xmlns="n"><url><loc>http://a.example/</loc><lastmod>2004-10-01T18:23:17.500+02:00</lastmod><changefreq>daily</changefreq><priority>0.3</priority></url></urlset>"#;
    let sitemap = Sitemap::read_from(text).unwrap();
    let tokens = sitemap.to_tokens();
    let again = Sitemap::from_tokens(&tokens).unwrap();
    assert_eq!(again.entries.len(), 1);
    assert_eq!(again.entries[0].last_mod, sitemap.entries[0].last_mod);
    assert_eq!(again.entries[0].priority, sitemap.entries[0].priority);
    assert_eq!(again.entries[0].change_freq, Some(ChangeFreq::Daily));
    let index = SitemapIndex::new();
    assert_eq!(SitemapIndex::from_tokens(&index.to_tokens()).unwrap().entries.len(), 0);
}

#[test]
fn reading_what_was_written_gives_the_same_sitemap() {
    let text = r#"<?xml version="1.0" encoding="UTF-8"?><urlset xmlns:xsi="http://www.w3.org/2001/XMLSchema-instance" xmlns="http://www.sitemaps.org/schemas/sitemap/0.9"><url><loc>http://a.example/?q=1&amp;r=&lt;2&gt;</loc><lastmod>2004-10-01T18:23:17.500+02:00</lastmod><changefreq>yearly</changefreq><priority>0.3</priority></url><url><loc>http://a.example/b</loc><lastmod>2001-02-03</lastmod></url></urlset>"#;
    let first = Sitemap::read_from(text).unwrap();
    assert_eq!(first.entries[0].loc, "http://a.example/?q=1&r=<2>");
    let bytes = first.write_to(Vec::new()).unwrap();
    let second = Sitemap::read_from(std::str::from_utf8(&bytes).unwrap()).unwrap();
    assert_eq!(first, second);
    assert_eq!(first.to_tokens(), second.to_tokens());
}

#[test]
fn reading_what_was_written_gives_the_same_index() {
    let mut index = SitemapIndex::new();
    index.namespace = String::from("http://www.sitemaps.org/schemas/sitemap/0.9");
    index.schema_location = Some(String::from("a b"));
    let mut entry = sitemaps::sitemap_index::SitemapEntry::new();
    entry.loc = String::from("http://a.example/s1.xml");
    entry.last_mod = Some(W3CDateTime::new("2005-01-01").unwrap());
    index.entries.push(entry);
    let bytes = index.write_to(Vec::new()).unwrap();
    let again = SitemapIndex::read_from(std::str::from_utf8(&bytes).unwrap()).unwrap();
    assert_eq!(index, again);
}

#[test]
fn range_checks_on_values() {
    assert!(Priority { units: 80, scale: 2 }.is_valid());
    assert!(!Priority { units: 11, scale: 1 }.is_valid());
    assert!(CalendarDate { year: 2024, month: 2, day: 29 }.is_valid());
    assert!(!CalendarDate { year: 2023, month: 2, day: 29 }.is_valid());
    let sitemap = Sitemap::read_from(r#"<urlset xmlns="n"><url><loc>http://a.example/</loc><priority>0.5</priority></url></urlset>"#).unwrap();
    assert!(sitemap.values_in_range());
}

#[test]
fn unreadable_encoding_is_an_encoding_error() {
    let text = "<?xml version=\"1.0\" encoding=\"UTF-8?><urlset xmlns=\"n\"></urlset>";
    let r = Sitemap::read_from(text);
    assert!(matches!(r, Err(Error::EncodingError) | Err(Error::XmlSyntaxError)));
}
