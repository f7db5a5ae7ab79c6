use sitemap_xml_writer::document::MAX_ENTRIES;
use sitemap_xml_writer::markup::Tag;
use sitemap_xml_writer::xml_writer;
use sitemap_xml_writer::xml_writer::{SitemapXmlWriter, MAX_BYTE_LENGTH};
use sitemap_xml_writer::Sink;

struct Broken;

impl Sink for Broken {
    fn write_all(&mut self, _bytes: &[u8]) -> Result<(), std::io::Error> {
        Err(std::io::Error::new(std::io::ErrorKind::Other, "broken"))
    }
}

fn text(bytes: Vec<u8>) -> String {
    String::from_utf8(bytes).unwrap()
}

#[test]
fn limits_of_the_protocol() {
    assert_eq!(MAX_BYTE_LENGTH, 52_428_800);
    assert_eq!(MAX_BYTE_LENGTH, 50 * 1024 * 1024);
    assert_eq!(MAX_ENTRIES, 50_000);
    assert_eq!(sitemap_xml_writer::sitemap_writer::MAX_NUMBER_OF_URLS, 50_000);
    assert_eq!(sitemap_xml_writer::sitemap_index_writer::MAX_NUMBER_OF_SITEMAPS, 50_000);
}

#[test]
fn names_of_the_elements() {
    for (tag, name) in [
        (Tag::Urlset, "urlset"),
        (Tag::Sitemapindex, "sitemapindex"),
        (Tag::Url, "url"),
        (Tag::Sitemap, "sitemap"),
        (Tag::Loc, "loc"),
        (Tag::Lastmod, "lastmod"),
        (Tag::Changefreq, "changefreq"),
        (Tag::Priority, "priority"),
    ] {
        assert_eq!(tag.as_str(), name);
    }
}

#[test]
fn fragments_of_a_compact_document() {
    let mut writer = SitemapXmlWriter::new(Vec::new(), false);
    assert_eq!(writer.remaining(), MAX_BYTE_LENGTH);
    writer.declaration().unwrap();
    assert_eq!(writer.remaining(), MAX_BYTE_LENGTH - 38);
    writer.start_tag_with_default_ns(Tag::Urlset).unwrap();
    assert!(writer.only_open(Tag::Urlset));
    writer.start_tag(Tag::Url).unwrap();
    assert!(!writer.only_open(Tag::Urlset));
    writer.element(Tag::Loc, "a<b").unwrap();
    writer.element(Tag::Priority, "").unwrap();
    writer.end_tag(Tag::Url).unwrap();
    writer.end_tag(Tag::Urlset).unwrap();
    assert!(!writer.is_pretty());
    let expected = "<?xml version=\"1.0\" encoding=\"UTF-8\"?><urlset xmlns=\"http://www.sitemaps.org/schemas/sitemap/0.9\"><url><loc>a&lt;b</loc><priority></priority></url></urlset>";
    assert_eq!(writer.remaining(), MAX_BYTE_LENGTH - expected.len());
    assert_eq!(text(writer.into_inner()), expected);
}

#[test]
fn fragments_of_an_indented_document() {
    let mut writer = SitemapXmlWriter::new(Vec::new(), true);
    assert!(writer.is_pretty());
    writer.declaration().unwrap();
    writer.start_tag_with_default_ns(Tag::Sitemapindex).unwrap();
    writer.start_tag(Tag::Sitemap).unwrap();
    writer.start_tag(Tag::Url).unwrap();
    writer.element(Tag::Loc, "x").unwrap();
    writer.end_tag(Tag::Url).unwrap();
    writer.end_tag(Tag::Sitemap).unwrap();
    writer.end_tag(Tag::Sitemapindex).unwrap();
    assert_eq!(
        text(writer.into_inner()),
        [
            "<?xml version=\"1.0\" encoding=\"UTF-8\"?>",
            "<sitemapindex xmlns=\"http://www.sitemaps.org/schemas/sitemap/0.9\">",
            "  <sitemap>",
            "    <url>",
            "      <loc>x</loc>",
            "    </url>",
            "  </sitemap>",
            "</sitemapindex>",
        ]
        .join("\n")
    );
}

#[test]
fn a_fragment_that_does_not_fit_changes_nothing() {
    let mut writer = SitemapXmlWriter::new(Vec::new(), false);
    let big = "a".repeat(MAX_BYTE_LENGTH - "<loc></loc>".len());
    let one_more = format!("{}a", big);
    assert!(matches!(
        writer.element(Tag::Loc, one_more.as_str()),
        Err(xml_writer::Error::MaxByteLength)
    ));
    assert_eq!(writer.remaining(), MAX_BYTE_LENGTH);
    writer.element(Tag::Loc, big.as_str()).unwrap();
    assert_eq!(writer.remaining(), 0);
    assert!(matches!(writer.declaration(), Err(xml_writer::Error::MaxByteLength)));
    assert!(matches!(writer.start_tag(Tag::Url), Err(xml_writer::Error::MaxByteLength)));
    assert!(matches!(
        writer.start_tag_with_default_ns(Tag::Urlset),
        Err(xml_writer::Error::MaxByteLength)
    ));
    assert!(matches!(writer.element(Tag::Loc, ""), Err(xml_writer::Error::MaxByteLength)));
    assert_eq!(writer.remaining(), 0);
    assert_eq!(writer.into_inner().len(), MAX_BYTE_LENGTH);
}

#[test]
fn a_failing_sink_is_reported() {
    let mut writer = SitemapXmlWriter::new(Broken, false);
    assert!(matches!(writer.declaration(), Err(xml_writer::Error::Io(_))));
    assert!(matches!(writer.start_tag(Tag::Url), Err(xml_writer::Error::Io(_))));
    assert!(!writer.only_open(Tag::Url));
    assert_eq!(writer.remaining(), MAX_BYTE_LENGTH);
}
