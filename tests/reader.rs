use sitemaps::error::Error;
use sitemaps::sitemap::{ChangeFreq, Priority};
use sitemaps::w3c_datetime::{CalendarDate, W3CDateTime};
use sitemaps::reader::SitemapReader;

const ONE_URL: &str = r#"<?xml version="1.0" encoding="UTF-8"?>
    <urlset xmlns="http://www.sitemaps.org/schemas/sitemap/0.9">
       <url>
          <loc>http://www.example.com/</loc>
          <lastmod>2005-01-01</lastmod>
          <changefreq>monthly</changefreq>
          <priority>0.8</priority>
       </url>
    </urlset>"#;

const TWO_URLS: &str = r#"<?xml version="1.0" encoding="UTF-8"?>
    <urlset xmlns="http://www.sitemaps.org/schemas/sitemap/0.9">
       <url>
          <loc>http://www.example.com/</loc>
          <lastmod>2005-01-01</lastmod>
          <changefreq>monthly</changefreq>
          <priority>0.8</priority>
       </url>
       <url>
          <loc>http://www.examples.com/</loc>
          <lastmod>2006-01-01</lastmod>
          <changefreq>weekly</changefreq>
          <priority>0.5</priority>
       </url>
    </urlset>"#;

fn date(year: i32, month: u32, day: u32) -> W3CDateTime {
    W3CDateTime::Date(CalendarDate { year, month, day })
}

#[test]
fn reader_test_parse_one_happy() -> Result<(), Error> {
    let reader = SitemapReader {
        path: "",
        contents: ONE_URL.to_string(),
    };

    let sitemap = reader.parse()?;

    assert_eq!(sitemap.entries.len(), 1);
    assert_eq!(sitemap.entries[0].loc.to_string(), "http://www.example.com/");
    assert_eq!(sitemap.entries[0].last_mod, Some(W3CDateTime::new("2005-01-01")?));
    assert_eq!(sitemap.entries[0].last_mod, Some(date(2005, 1, 1)));
    assert_eq!(sitemap.entries[0].change_freq, Some(ChangeFreq::Monthly));
    assert_eq!(sitemap.entries[0].priority, Some(Priority::from_text("0.8")?));

    Ok(())
}

#[test]
fn reader_test_parse_two_happy() -> Result<(), Error> {
    let reader = SitemapReader {
        path: "",
        contents: TWO_URLS.to_string(),
    };

    let sitemap = reader.parse()?;

    assert_eq!(sitemap.entries.len(), 2);
    assert_eq!(sitemap.entries[1].loc.to_string(), "http://www.examples.com/");
    assert_eq!(sitemap.entries[1].last_mod, Some(W3CDateTime::new("2006-01-01")?));
    assert_eq!(sitemap.entries[1].last_mod, Some(date(2006, 1, 1)));
    assert_eq!(sitemap.entries[1].change_freq, Some(ChangeFreq::Weekly));
    assert_eq!(sitemap.entries[1].priority, Some(Priority::from_text("0.5")?));

    Ok(())
}
