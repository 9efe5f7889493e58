use sitemaps::error::Error;
use sitemaps::sitemap::{ChangeFreq, Priority, Sitemap, UrlEntry};
use sitemaps::w3c_datetime::W3CDateTime;
use sitemaps::NAMESPACE;

const EXAMPLE_1_URL: &str = r#"<?xml version="1.0" encoding="UTF-8"?>
<urlset xmlns="http://www.sitemaps.org/schemas/sitemap/0.9">
   <url>
      <loc>http://www.example.com/</loc>
      <lastmod>2005-01-01</lastmod>
      <changefreq>monthly</changefreq>
      <priority>0.8</priority>
   </url>
</urlset>"#;

const EXAMPLE_2_URL: &str = r#"<?xml version="1.0" encoding="UTF-8"?>
<urlset xmlns="http://www.sitemaps.org/schemas/sitemap/0.9">
   <url>
      <loc>http://www.example.com/</loc>
      <lastmod>2005-01-01</lastmod>
      <changefreq>monthly</changefreq>
      <priority>0.8</priority>
   </url>
   <url>
      <loc>http://www.examples.com/</loc>
      <lastmod>2006-01-01</lastmod>
      <changefreq>weekly</changefreq>
      <priority>0.5</priority>
   </url>
</urlset>"#;

const WITH_SCHEMA: &str = r#"<?xml version="1.0" encoding="UTF-8"?>
<urlset xmlns:xsi="http://www.w3.org/2001/XMLSchema-instance"
        xsi:schemaLocation="http://www.sitemaps.org/schemas/sitemap/0.9 http://www.sitemaps.org/schemas/sitemap/0.9/sitemap.xsd"
        xmlns="http://www.sitemaps.org/schemas/sitemap/0.9">
   <url>
      <loc>https://www.example.org/bulkdata/one.xml</loc>
      <lastmod>2022-06-01T10:15:00.000Z</lastmod>
      <changefreq>monthly</changefreq>
      <priority>1.0</priority>
   </url>
   <url>
      <loc>https://www.example.org/bulkdata/two.xml?a=1&amp;b=2</loc>
      <lastmod>2022-06-02T10:15:00-04:00</lastmod>
      <changefreq>never</changefreq>
      <priority>0.0</priority>
   </url>
</urlset>"#;

const EXPECTED: &str = "<?xml version=\"1.0\" encoding=\"UTF-8\"?>
                        <urlset xmlns=\"http://www.sitemaps.org/schemas/sitemap/0.9\">
                            <url>
                                <loc>http://www.example.com/</loc>
                                <lastmod>2005-01-01</lastmod>
                                <changefreq>monthly</changefreq>
                                <priority>0.8</priority>
                            </url>
                            <url>
                                <loc>http://www.examples.com/</loc>
                                <lastmod>2006-01-01</lastmod>
                                <changefreq>weekly</changefreq>
                                <priority>0.5</priority>
                            </url>
                        </urlset>";

fn squeeze(text: &str) -> String {
    text.chars().filter(|c| !c.is_whitespace()).collect::<String>()
}

fn written(sitemap: &Sitemap) -> String {
    let bytes = sitemap.write_to(Vec::new()).unwrap();
    squeeze(std::str::from_utf8(&bytes).unwrap())
}

#[test]
fn sitemap_test_parse_one_happy() -> Result<(), Error> {
    let sitemap = Sitemap::read_from(EXAMPLE_1_URL)?;

    assert_eq!(sitemap.namespace, NAMESPACE);
    assert_eq!(sitemap.entries.len(), 1);
    assert_eq!(sitemap.entries[0].loc.to_string(), "http://www.example.com/");
    assert_eq!(sitemap.entries[0].last_mod, Some(W3CDateTime::new("2005-01-01")?));
    assert_eq!(sitemap.entries[0].change_freq, Some(ChangeFreq::Monthly));
    assert_eq!(sitemap.entries[0].priority, Some(Priority { units: 8, scale: 1 }));

    Ok(())
}

#[test]
fn sitemap_test_parse_two_happy() -> Result<(), Error> {
    let sitemap = Sitemap::read_from(EXAMPLE_2_URL)?;

    assert_eq!(sitemap.entries.len(), 2);
    assert_eq!(sitemap.entries[1].loc.to_string(), "http://www.examples.com/");
    assert_eq!(sitemap.entries[1].last_mod, Some(W3CDateTime::new("2006-01-01")?));
    assert_eq!(sitemap.entries[1].change_freq, Some(ChangeFreq::Weekly));
    assert_eq!(sitemap.entries[1].priority, Some(Priority { units: 5, scale: 1 }));

    Ok(())
}

#[test]
fn read_test_parse_one_happy() -> Result<(), Error> {
    let sitemap = Sitemap::read_from(EXAMPLE_1_URL)?;

    assert_eq!(sitemap.namespace, sitemaps::NAMESPACE);
    assert_eq!(sitemap.entries.len(), 1);
    assert_eq!(sitemap.entries[0].loc.to_string(), "http://www.example.com/");
    assert_eq!(sitemap.entries[0].last_mod, Some(W3CDateTime::new("2005-01-01")?));
    assert_eq!(sitemap.entries[0].change_freq, Some(ChangeFreq::Monthly));
    assert_eq!(sitemap.entries[0].priority, Some(Priority::from_text("0.8")?));

    Ok(())
}

#[test]
fn read_test_parse_two_happy() -> Result<(), Error> {
    let sitemap = Sitemap::read_from(EXAMPLE_2_URL)?;

    assert_eq!(sitemap.entries.len(), 2);
    assert_eq!(sitemap.entries[1].loc.to_string(), "http://www.examples.com/");
    assert_eq!(sitemap.entries[1].last_mod, Some(W3CDateTime::new("2006-01-01")?));
    assert_eq!(sitemap.entries[1].change_freq, Some(ChangeFreq::Weekly));
    assert_eq!(sitemap.entries[1].priority, Some(Priority::from_text("0.5")?));

    Ok(())
}

#[test]
fn sitemap_test_write_two_happy() -> Result<(), Error> {
    let sitemap = Sitemap::read_from(EXAMPLE_2_URL)?;
    assert_eq!(squeeze(EXPECTED), written(&sitemap));
    Ok(())
}

#[test]
fn sitemap_write_test_write_two_happy() -> Result<(), Error> {
    let sitemap = Sitemap::read_from(EXAMPLE_2_URL)?;
    let bytes = sitemap.write_to(Vec::new())?;
    assert_eq!(squeeze(EXPECTED), squeeze(std::str::from_utf8(&bytes[..]).unwrap()));
    Ok(())
}

#[test]
fn write_test_write_two_happy() -> Result<(), Error> {
    let sitemap = Sitemap::read_from(EXAMPLE_2_URL)?;
    assert_eq!(squeeze(EXPECTED), written(&sitemap));
    Ok(())
}

fn one_url_sitemap() -> Result<Sitemap, Error> {
    let mut urls = vec![];

    let mut url_entry = UrlEntry::new();
    url_entry.loc = String::from("http://www.example.com/");
    url_entry.last_mod = Some(W3CDateTime::new("2005-01-01")?);
    url_entry.change_freq = Some(ChangeFreq::new(String::from("monthly"))?);
    url_entry.priority = Some(Priority { units: 8, scale: 1 });

    urls.push(url_entry);

    let mut sitemap = Sitemap::new();
    sitemap.entries = urls;
    Ok(sitemap)
}

#[test]
fn sitemap_test_new_sitemap() -> Result<(), Error> {
    let sitemap = one_url_sitemap()?;
    assert_eq!(written(&sitemap), squeeze(EXAMPLE_1_URL));
    Ok(())
}

#[test]
fn sitemap_write_test_new_sitemap() -> Result<(), Error> {
    let sitemap = one_url_sitemap()?;
    assert_eq!(written(&sitemap), squeeze(EXAMPLE_1_URL));
    Ok(())
}

#[test]
fn sitemap_test_write_with_schema() -> Result<(), Error> {
    let sitemap = Sitemap::read_from(WITH_SCHEMA)?;
    assert_eq!(written(&sitemap), squeeze(WITH_SCHEMA));
    Ok(())
}

#[test]
fn sitemap_write_test_write_with_schema() -> Result<(), Error> {
    let sitemap = Sitemap::read_from(WITH_SCHEMA)?;
    assert!(sitemap.schema_instance.is_some());
    assert!(sitemap.schema_location.is_some());
    assert_eq!(sitemap.entries[1].loc, "https://www.example.org/bulkdata/two.xml?a=1&b=2");
    assert_eq!(written(&sitemap), squeeze(WITH_SCHEMA));
    Ok(())
}

#[test]
fn empty_namespace_is_written_as_the_sitemaps_namespace() {
    let sitemap = Sitemap::new();
    assert_eq!(
        written(&sitemap),
        squeeze(r#"<?xml version="1.0" encoding="UTF-8"?><urlset xmlns="http://www.sitemaps.org/schemas/sitemap/0.9"></urlset>"#)
    );
}

#[test]
fn empty_urlset_reads_as_no_entries() {
    let sitemap = Sitemap::read_from(r#"<?xml version="1.0" encoding="UTF-8"?><urlset xmlns="x"></urlset>"#).unwrap();
    assert_eq!(sitemap.entries.len(), 0);
    assert_eq!(sitemap.namespace, "x");
}

#[test]
fn optional_elements_are_left_out_when_absent() {
    let text = r#"<?xml version="1.0" encoding="UTF-8"?><urlset xmlns="http://www.sitemaps.org/schemas/sitemap/0.9"><url><loc>http://a.example/</loc></url></urlset>"#;
    let sitemap = Sitemap::read_from(text).unwrap();
    assert!(sitemap.entries[0].last_mod.is_none());
    assert!(sitemap.entries[0].change_freq.is_none());
    assert!(sitemap.entries[0].priority.is_none());
    assert_eq!(written(&sitemap), squeeze(text));
}

#[test]
fn unknown_elements_are_skipped() {
    let text = r#"<?xml version="1.0" encoding="UTF-8"?><urlset xmlns="n"><url><loc>http://a.example/</loc><image>x</image></url></urlset>"#;
    let sitemap = Sitemap::read_from(text).unwrap();
    assert_eq!(sitemap.entries.len(), 1);
    assert_eq!(sitemap.entries[0].loc, "http://a.example/");
}
