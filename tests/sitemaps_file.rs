use sitemaps::error::Error;
use sitemaps::sitemap::{ChangeFreq, Priority};
use sitemaps::w3c_datetime::W3CDateTime;
use sitemaps::{Entries, SitemapsFile};

const EXAMPLE_1_URL: &str = r#"<?xml version="1.0" encoding="UTF-8"?>
<urlset xmlns="http://www.sitemaps.org/schemas/sitemap/0.9">
   <url>
      <loc>http://www.example.com/</loc>
      <lastmod>2005-01-01</lastmod>
      <changefreq>monthly</changefreq>
      <priority>0.8</priority>
   </url>
</urlset>"#;

#[test]
fn sitemaps_file_test_parse_sitemap() -> Result<(), Error> {
    let sitemap = match SitemapsFile::read(EXAMPLE_1_URL)? {
        SitemapsFile::Sitemap(sitemap) => sitemap,
        _ => unreachable!(),
    };
    assert_eq!(sitemap.namespace, sitemaps::NAMESPACE);
    assert_eq!(sitemap.entries.len(), 1);
    assert_eq!(sitemap.entries[0].loc.to_string(), "http://www.example.com/");
    assert_eq!(sitemap.entries[0].last_mod, Some(W3CDateTime::new("2005-01-01")?));
    assert_eq!(sitemap.entries[0].change_freq, Some(ChangeFreq::Monthly));
    assert_eq!(sitemap.entries[0].priority, Some(Priority { units: 8, scale: 1 }));
    Ok(())
}

#[test]
fn sitemaps_read_test_parse_sitemap() -> Result<(), Error> {
    let sitemap = match SitemapsFile::read(EXAMPLE_1_URL)? {
        SitemapsFile::Sitemap(sitemap) => sitemap,
        _ => unreachable!(),
    };
    assert_eq!(sitemap.namespace, sitemaps::NAMESPACE);
    assert_eq!(sitemap.entries.len(), 1);
    assert_eq!(sitemap.entries[0].loc.to_string(), "http://www.example.com/");
    assert_eq!(sitemap.entries[0].last_mod, Some(W3CDateTime::new("2005-01-01")?));
    assert_eq!(sitemap.entries[0].change_freq, Some(ChangeFreq::Monthly));
    assert_eq!(sitemap.entries[0].priority, Some(Priority::from_text("0.8")?));
    Ok(())
}

#[test]
fn unknown_root_is_not_a_sitemap() {
    let text = r#"<?xml version="1.0" encoding="UTF-8"?><rss><channel/></rss>"#;
    assert!(matches!(SitemapsFile::read(text), Err(Error::NotASitemap)));
}

#[test]
fn empty_input_ends_too_early() {
    assert!(matches!(SitemapsFile::read(""), Err(Error::UnexpectedEof)));
}

#[test]
fn locs_and_lastmods_are_collected() {
    let file = SitemapsFile::read(EXAMPLE_1_URL).unwrap();
    assert_eq!(file.locs(), vec![String::from("http://www.example.com/")]);
    assert_eq!(file.lastmods(), vec![String::from("2005-01-01")]);
}
