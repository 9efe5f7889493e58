use sitemaps::error::Error;
use sitemaps::sitemap_index::SitemapIndex;
use sitemaps::w3c_datetime::{CalendarDate, OffsetDateTime, W3CDateTime};
use sitemaps::SitemapsFile;

const SITEMAP_INDEX: &str = r#"<?xml version="1.0" encoding="UTF-8"?>
<sitemapindex xmlns="http://www.sitemaps.org/schemas/sitemap/0.9">
   <sitemap>
      <loc>http://www.example.com/sitemap1.xml.gz</loc>
      <lastmod>2004-10-01T18:23:17+00:00</lastmod>
   </sitemap>
   <sitemap>
      <loc>http://www.example.com/sitemap2.xml.gz</loc>
      <lastmod>2005-01-01</lastmod>
   </sitemap>
</sitemapindex>"#;

fn squeeze(text: &str) -> String {
    text.chars().filter(|c| !c.is_whitespace()).collect::<String>()
}

#[test]
fn siteindex_test_parse_sitemap_index() -> Result<(), Error> {
    let sitemap_index = SitemapIndex::read_from(SITEMAP_INDEX)?;

    assert_eq!(sitemap_index.namespace, sitemaps::NAMESPACE);
    assert!(sitemap_index.schema_location.is_none());
    assert!(sitemap_index.schema_instance.is_none());
    assert_eq!(sitemap_index.entries.len(), 2);
    assert_eq!(sitemap_index.entries[0].loc, "http://www.example.com/sitemap1.xml.gz");
    assert_eq!(sitemap_index.entries[1].last_mod.unwrap().to_string(), String::from("2005-01-01"));
    assert_eq!(
        sitemap_index.entries[0].last_mod.unwrap().to_string(),
        String::from("2004-10-01T18:23:17+00:00")
    );

    Ok(())
}

#[test]
fn sitemap_index_read_test_parse_sitemap_index() -> Result<(), Error> {
    let sitemap_index = SitemapIndex::read_from(SITEMAP_INDEX)?;

    assert_eq!(sitemap_index.namespace, sitemaps::NAMESPACE);
    assert!(sitemap_index.schema_location.is_none());
    assert!(sitemap_index.schema_instance.is_none());
    assert_eq!(sitemap_index.entries.len(), 2);
    assert_eq!(sitemap_index.entries[1].last_mod.unwrap().to_string(), String::from("2005-01-01"));
    assert_eq!(
        sitemap_index.entries[0].last_mod.unwrap().to_string(),
        String::from("2004-10-01T18:23:17+00:00")
    );

    Ok(())
}

#[test]
fn siteindex_test_write_sitemap_index_with_schema() -> Result<(), Error> {
    let expected = squeeze(SITEMAP_INDEX);
    let sitemap = SitemapIndex::read_from(SITEMAP_INDEX)?;

    let written = sitemap.write_to(Vec::new())?;
    let result = squeeze(std::str::from_utf8(&written).unwrap());

    assert_eq!(result, expected);
    Ok(())
}

#[test]
fn sitemap_index_write_test_write_sitemap_index_with_schema() -> Result<(), Error> {
    let expected = squeeze(SITEMAP_INDEX);
    let sitemap = SitemapIndex::read_from(SITEMAP_INDEX)?;

    let written = sitemap.write_to(Vec::new())?;
    let result = squeeze(std::str::from_utf8(&written).unwrap());

    assert_eq!(result, expected);
    Ok(())
}

#[test]
fn sitemaps_file_test_parse_sitemap_index() -> Result<(), Error> {
    let sitemap_index = match SitemapsFile::read(SITEMAP_INDEX)? {
        SitemapsFile::SiteIndex(sitemapindex) => sitemapindex,
        _ => unreachable!(),
    };
    assert_eq!(sitemap_index.namespace, sitemaps::NAMESPACE);
    assert_eq!(sitemap_index.entries.len(), 2);
    assert_eq!(sitemap_index.entries[0].loc.to_string(), "http://www.example.com/sitemap1.xml.gz");
    let expected = OffsetDateTime {
        date: CalendarDate { year: 2004, month: 10, day: 1 },
        hour: 18,
        minute: 23,
        second: 17,
        nanosecond: 0,
        offset_seconds: 0,
    };
    assert_eq!(sitemap_index.entries[0].last_mod, Some(W3CDateTime::DateTime(expected, false, false)));
    Ok(())
}

#[test]
fn index_ignores_url_only_elements() {
    let text = r#"<?xml version="1.0" encoding="UTF-8"?><sitemapindex xmlns="n"><sitemap><loc>http://a.example/s.xml</loc><priority>7</priority><changefreq>sometimes</changefreq></sitemap></sitemapindex>"#;
    let index = SitemapIndex::read_from(text).unwrap();
    assert_eq!(index.entries.len(), 1);
    assert_eq!(index.entries[0].loc, "http://a.example/s.xml");
}

#[test]
fn index_reader_refuses_a_urlset() {
    let text = r#"<?xml version="1.0" encoding="UTF-8"?><urlset xmlns="n"></urlset>"#;
    assert!(matches!(SitemapIndex::read_from(text), Err(Error::NotASitemap)));
}
