use sitemap_xml_writer::sitemap_index_writer;
use sitemap_xml_writer::sitemap_writer;
use sitemap_xml_writer::{Changefreq, Sink, Sitemap, SitemapIndexWriter, SitemapWriter, Url};

const DECLARATION: &str = "<?xml version=\"1.0\" encoding=\"UTF-8\"?>";

fn text(bytes: Vec<u8>) -> String {
    String::from_utf8(bytes).unwrap()
}

/// A sink that takes `room` bytes and then fails.
struct Limited {
    taken: Vec<u8>,
    room: usize,
}

impl Sink for Limited {
    fn write_all(&mut self, bytes: &[u8]) -> Result<(), std::io::Error> {
        if bytes.len() > self.room {
            let part = self.room;
            self.taken.extend_from_slice(&bytes[..part]);
            self.room = 0;
            return Err(std::io::Error::new(std::io::ErrorKind::WriteZero, "full"));
        }
        self.taken.extend_from_slice(bytes);
        self.room -= bytes.len();
        Ok(())
    }
}

#[test]
fn compact_sitemap_with_every_field() {
    let mut writer = SitemapWriter::start(Vec::new()).unwrap();
    writer
        .write(
            Url::loc("http://www.example.com/")
                .unwrap()
                .lastmod("2005-01-01")
                .unwrap()
                .changefreq("monthly")
                .unwrap()
                .priority("0.8")
                .unwrap(),
        )
        .unwrap();
    writer.end().unwrap();
    assert_eq!(
        text(writer.into_inner()),
        format!(
            "{}{}{}{}{}{}{}{}{}",
            DECLARATION,
            "<urlset xmlns=\"http://www.sitemaps.org/schemas/sitemap/0.9\">",
            "<url>",
            "<loc>http://www.example.com/</loc>",
            "<lastmod>2005-01-01</lastmod>",
            "<changefreq>monthly</changefreq>",
            "<priority>0.8</priority>",
            "</url>",
            "</urlset>"
        )
    );
}

#[test]
fn sink_failure_is_reported_and_ends_the_document() {
    let sink = Limited { taken: Vec::new(), room: 110 };
    let mut writer = SitemapWriter::start(sink).unwrap();
    let r = writer.write("http://www.example.com/");
    assert!(matches!(r, Err(sitemap_writer::Error::Io(_))));
    assert!(matches!(writer.write("http://www.example.com/"), Err(sitemap_writer::Error::NotOpen)));
    assert!(matches!(writer.end(), Err(sitemap_writer::Error::NotOpen)));
    let sink = writer.into_inner();
    assert_eq!(sink.taken.len(), 110);
}

const URLSET: &str = "<urlset xmlns=\"http://www.sitemaps.org/schemas/sitemap/0.9\">";

const SITEMAPINDEX: &str = "<sitemapindex xmlns=\"http://www.sitemaps.org/schemas/sitemap/0.9\">";

const MAX_BYTE_LENGTH: usize = 52_428_800;

#[test]
fn compact_index_with_every_field() {
    let mut writer = SitemapIndexWriter::start(Vec::new()).unwrap();
    writer
        .write(
            Sitemap::loc("http://www.example.com/sitemap1.xml.gz")
                .unwrap()
                .lastmod("2004-10-01T18:23:17+00:00")
                .unwrap(),
        )
        .unwrap();
    writer.end().unwrap();
    assert_eq!(
        text(writer.into_inner()),
        format!(
            "{}{}{}{}{}{}{}",
            DECLARATION,
            SITEMAPINDEX,
            "<sitemap>",
            "<loc>http://www.example.com/sitemap1.xml.gz</loc>",
            "<lastmod>2004-10-01T18:23:17+00:00</lastmod>",
            "</sitemap>",
            "</sitemapindex>"
        )
    );
}

#[test]
fn document_without_entries() {
    let mut writer = SitemapWriter::start(Vec::new()).unwrap();
    writer.end().unwrap();
    assert_eq!(text(writer.into_inner()), format!("{}{}</urlset>", DECLARATION, URLSET));

    let mut writer = SitemapIndexWriter::start(Vec::new()).unwrap();
    writer.end().unwrap();
    assert_eq!(
        text(writer.into_inner()),
        format!("{}{}</sitemapindex>", DECLARATION, SITEMAPINDEX)
    );

    let mut writer = SitemapWriter::start_with_indent(Vec::new()).unwrap();
    writer.end().unwrap();
    assert_eq!(text(writer.into_inner()), format!("{}\n{}\n</urlset>", DECLARATION, URLSET));
}

#[test]
fn bare_locations() {
    let mut writer = SitemapWriter::start(Vec::new()).unwrap();
    writer.write("http://www.example.com/").unwrap();
    writer.end().unwrap();
    assert_eq!(
        text(writer.into_inner()),
        format!(
            "{}{}<url><loc>http://www.example.com/</loc></url></urlset>",
            DECLARATION, URLSET
        )
    );

    let mut writer = SitemapIndexWriter::start(Vec::new()).unwrap();
    writer.write("http://www.example.com/sitemap1.xml.gz").unwrap();
    writer.end().unwrap();
    assert_eq!(
        text(writer.into_inner()),
        format!(
            "{}{}<sitemap><loc>http://www.example.com/sitemap1.xml.gz</loc></sitemap></sitemapindex>",
            DECLARATION, SITEMAPINDEX
        )
    );
}

#[test]
fn several_entries_in_order() {
    let mut writer = SitemapIndexWriter::start(Vec::new()).unwrap();
    writer
        .write(
            Sitemap::loc("http://www.example.com/sitemap1.xml.gz")
                .unwrap()
                .lastmod("2004-10-01T18:23:17+00:00")
                .unwrap(),
        )
        .unwrap();
    writer
        .write(
            Sitemap::loc("http://www.example.com/sitemap2.xml.gz")
                .unwrap()
                .lastmod("2005-01-01")
                .unwrap(),
        )
        .unwrap();
    writer.end().unwrap();
    assert_eq!(
        text(writer.into_inner()),
        format!(
            "{}{}{}{}{}{}{}{}{}{}{}",
            DECLARATION,
            SITEMAPINDEX,
            "<sitemap>",
            "<loc>http://www.example.com/sitemap1.xml.gz</loc>",
            "<lastmod>2004-10-01T18:23:17+00:00</lastmod>",
            "</sitemap>",
            "<sitemap>",
            "<loc>http://www.example.com/sitemap2.xml.gz</loc>",
            "<lastmod>2005-01-01</lastmod>",
            "</sitemap>",
            "</sitemapindex>"
        )
    );
}

#[test]
fn indented_sitemap() {
    let mut writer = SitemapWriter::start_with_indent(Vec::new()).unwrap();
    writer
        .write(
            Url::loc("http://www.example.com/")
                .unwrap()
                .lastmod("2005-01-01")
                .unwrap()
                .changefreq(Changefreq::Monthly)
                .unwrap()
                .priority("0.8")
                .unwrap(),
        )
        .unwrap();
    writer.write("http://www.example.com/about").unwrap();
    writer.end().unwrap();
    assert_eq!(
        text(writer.into_inner()),
        [
            DECLARATION,
            URLSET,
            "  <url>",
            "    <loc>http://www.example.com/</loc>",
            "    <lastmod>2005-01-01</lastmod>",
            "    <changefreq>monthly</changefreq>",
            "    <priority>0.8</priority>",
            "  </url>",
            "  <url>",
            "    <loc>http://www.example.com/about</loc>",
            "  </url>",
            "</urlset>",
        ]
        .join("\n")
    );
}

#[test]
fn indented_index() {
    let mut writer = SitemapIndexWriter::start_with_indent(Vec::new()).unwrap();
    writer
        .write(Sitemap::loc("http://www.example.com/a.xml").unwrap().lastmod("2005-01-01").unwrap())
        .unwrap();
    writer.end().unwrap();
    assert_eq!(
        text(writer.into_inner()),
        [
            DECLARATION,
            SITEMAPINDEX,
            "  <sitemap>",
            "    <loc>http://www.example.com/a.xml</loc>",
            "    <lastmod>2005-01-01</lastmod>",
            "  </sitemap>",
            "</sitemapindex>",
        ]
        .join("\n")
    );
}

#[test]
fn fields_that_were_not_set_leave_no_tag() {
    let mut writer = SitemapWriter::start(Vec::new()).unwrap();
    writer.write(Url::loc("http://e.com/").unwrap().priority("1").unwrap()).unwrap();
    writer.write(Url::loc("http://e.com/").unwrap().changefreq("never").unwrap()).unwrap();
    writer.end().unwrap();
    assert_eq!(
        text(writer.into_inner()),
        format!(
            "{}{}{}{}</urlset>",
            DECLARATION,
            URLSET,
            "<url><loc>http://e.com/</loc><priority>1</priority></url>",
            "<url><loc>http://e.com/</loc><changefreq>never</changefreq></url>"
        )
    );
}

#[test]
fn the_order_of_fields_does_not_depend_on_the_order_of_calls() {
    let mut writer = SitemapWriter::start(Vec::new()).unwrap();
    writer
        .write(
            Url::loc("http://e.com/")
                .unwrap()
                .priority("0.5")
                .unwrap()
                .changefreq("daily")
                .unwrap()
                .lastmod("2005-01-01")
                .unwrap()
                .lastmod("2006-02-02")
                .unwrap(),
        )
        .unwrap();
    writer.end().unwrap();
    assert_eq!(
        text(writer.into_inner()),
        format!(
            "{}{}<url>{}{}{}{}</url></urlset>",
            DECLARATION,
            URLSET,
            "<loc>http://e.com/</loc>",
            "<lastmod>2006-02-02</lastmod>",
            "<changefreq>daily</changefreq>",
            "<priority>0.5</priority>"
        )
    );
}

#[test]
fn text_is_escaped() {
    let mut writer = SitemapWriter::start(Vec::new()).unwrap();
    writer.write("http://e.com/?a=1&b=<2>&c=\"3\"&d='4'&e=\u{3042}").unwrap();
    writer.end().unwrap();
    assert_eq!(
        text(writer.into_inner()),
        format!(
            "{}{}<url><loc>{}</loc></url></urlset>",
            DECLARATION,
            URLSET,
            "http://e.com/?a=1&amp;b=&lt;2&gt;&amp;c=&quot;3&quot;&amp;d='4'&amp;e=\u{3042}"
        )
    );

    let mut writer = SitemapIndexWriter::start(Vec::new()).unwrap();
    writer.write(Sitemap::loc("&&<<>>\"\"").unwrap()).unwrap();
    writer.end().unwrap();
    assert_eq!(
        text(writer.into_inner()),
        format!(
            "{}{}<sitemap><loc>{}</loc></sitemap></sitemapindex>",
            DECLARATION, SITEMAPINDEX, "&amp;&amp;&lt;&lt;&gt;&gt;&quot;&quot;"
        )
    );
}

#[test]
fn builders_report_the_field_that_failed() {
    let long = "a".repeat(2048);
    assert!(matches!(Url::loc(long.as_str()), Err(sitemap_writer::Error::InvalidLoc)));
    assert!(matches!(
        Url::loc("http://e.com/").unwrap().lastmod("2005-13-01"),
        Err(sitemap_writer::Error::InvalidLastmod)
    ));
    assert!(matches!(
        Url::loc("http://e.com/").unwrap().changefreq("Often"),
        Err(sitemap_writer::Error::InvalidChangefreq)
    ));
    assert!(matches!(
        Url::loc("http://e.com/").unwrap().priority("1.1"),
        Err(sitemap_writer::Error::InvalidPriority)
    ));
    assert!(matches!(Sitemap::loc(long.as_str()), Err(sitemap_index_writer::Error::InvalidLoc)));
    assert!(matches!(
        Sitemap::loc("http://e.com/").unwrap().lastmod("2005-01-01T"),
        Err(sitemap_index_writer::Error::InvalidLastmod)
    ));
}

#[test]
fn typed_values_are_taken_as_they_are() {
    let loc = sitemap_xml_writer::Loc::from_url_text("http://e.com/".to_string());
    let lastmod = sitemap_xml_writer::Lastmod::try_from("2005-01-01").unwrap();
    let priority = sitemap_xml_writer::Priority::try_from("0.3").unwrap();
    let date = chrono::NaiveDate::from_ymd_opt(2005, 1, 1).unwrap();
    let mut writer = SitemapWriter::start(Vec::new()).unwrap();
    writer
        .write(
            Url::loc(loc)
                .unwrap()
                .lastmod(lastmod)
                .unwrap()
                .changefreq(Changefreq::Weekly)
                .unwrap()
                .priority(priority)
                .unwrap(),
        )
        .unwrap();
    writer.write(Url::loc("http://e.com/d").unwrap().lastmod(date).unwrap()).unwrap();
    writer.end().unwrap();
    assert_eq!(
        text(writer.into_inner()),
        format!(
            "{}{}{}{}</urlset>",
            DECLARATION,
            URLSET,
            "<url><loc>http://e.com/</loc><lastmod>2005-01-01</lastmod><changefreq>weekly</changefreq><priority>0.3</priority></url>",
            "<url><loc>http://e.com/d</loc><lastmod>2005-01-01</lastmod></url>"
        )
    );
}

#[test]
fn a_sink_keeps_what_it_held() {
    let mut writer = SitemapWriter::start(b"already here".to_vec()).unwrap();
    writer.end().unwrap();
    assert_eq!(
        text(writer.into_inner()),
        format!("already here{}{}</urlset>", DECLARATION, URLSET)
    );
}

#[test]
fn the_fifty_thousand_and_first_entry_is_refused() {
    let mut writer = SitemapWriter::start(Vec::new()).unwrap();
    for _ in 0..50_000 {
        writer.write("http://e.com/").unwrap();
    }
    let entry = "<url><loc>http://e.com/</loc></url>";
    let full = DECLARATION.len() + URLSET.len() + 50_000 * entry.len();
    assert!(matches!(
        writer.write("http://e.com/"),
        Err(sitemap_writer::Error::MaxNumberOfUrls)
    ));
    assert!(matches!(
        writer.write(Url::loc("http://e.com/").unwrap()),
        Err(sitemap_writer::Error::MaxNumberOfUrls)
    ));
    writer.end().unwrap();
    let written = writer.into_inner();
    assert_eq!(written.len(), full + "</urlset>".len());
    assert!(written.ends_with(format!("{}</urlset>", entry).as_bytes()));

    let mut writer = SitemapIndexWriter::start(Vec::new()).unwrap();
    for _ in 0..50_000 {
        writer.write("http://e.com/").unwrap();
    }
    assert!(matches!(
        writer.write("http://e.com/"),
        Err(sitemap_index_writer::Error::MaxNumberOfSitemaps)
    ));
    writer.end().unwrap();
    assert_eq!(
        writer.into_inner().len(),
        DECLARATION.len()
            + SITEMAPINDEX.len()
            + 50_000 * "<sitemap><loc>http://e.com/</loc></sitemap>".len()
            + "</sitemapindex>".len()
    );
}

#[test]
fn a_refused_location_is_not_counted() {
    let long = "a".repeat(2048);
    let mut writer = SitemapWriter::start(Vec::new()).unwrap();
    for _ in 0..49_999 {
        writer.write("http://e.com/").unwrap();
        assert!(matches!(writer.write(long.as_str()), Err(sitemap_writer::Error::InvalidLoc)));
    }
    writer.write("http://e.com/").unwrap();
    // At the cap, the cap is what is reported.
    assert!(matches!(writer.write(long.as_str()), Err(sitemap_writer::Error::MaxNumberOfUrls)));
    writer.end().unwrap();
    let entry = "<url><loc>http://e.com/</loc></url>";
    assert_eq!(
        writer.into_inner().len(),
        DECLARATION.len() + URLSET.len() + 50_000 * entry.len() + "</urlset>".len()
    );

    let mut writer = SitemapIndexWriter::start(Vec::new()).unwrap();
    for _ in 0..50_000 {
        assert!(matches!(
            writer.write(long.as_str()),
            Err(sitemap_index_writer::Error::InvalidLoc)
        ));
    }
    for _ in 0..50_000 {
        writer.write("http://e.com/").unwrap();
    }
    assert!(matches!(
        writer.write(long.as_str()),
        Err(sitemap_index_writer::Error::MaxNumberOfSitemaps)
    ));
    writer.end().unwrap();
}

#[test]
fn an_entry_that_does_not_fit_is_not_counted() {
    let huge = format!("2005-01-01T00:00:00.{}", "0".repeat(MAX_BYTE_LENGTH));
    let mut writer = SitemapWriter::start(Vec::new()).unwrap();
    for _ in 0..49_999 {
        writer.write("http://e.com/").unwrap();
    }
    for _ in 0..3 {
        assert!(matches!(
            writer.write(Url::loc("http://e.com/").unwrap().lastmod(huge.as_str()).unwrap()),
            Err(sitemap_writer::Error::MaxByteLength)
        ));
    }
    writer.write("http://e.com/").unwrap();
    assert!(matches!(
        writer.write("http://e.com/"),
        Err(sitemap_writer::Error::MaxNumberOfUrls)
    ));
    writer.end().unwrap();
}

#[test]
fn an_indented_entry_is_written_whole_or_not_at_all() {
    let mut writer = SitemapWriter::start_with_indent(Vec::new()).unwrap();
    let header = format!("{}\n{}", DECLARATION, URLSET);
    // In an indented document the line breaks and the spaces count too.
    let around = "\n  <url>\n    <loc>http://e.com/</loc>\n    <lastmod></lastmod>\n  </url>".len();
    let room = MAX_BYTE_LENGTH - header.len() - around;
    let over = long_lastmod(room + 1);
    // The location alone would fit, the entry does not: nothing is written.
    assert!(matches!(
        writer.write(Url::loc("http://e.com/").unwrap().lastmod(over.as_str()).unwrap()),
        Err(sitemap_writer::Error::MaxByteLength)
    ));
    let exact = long_lastmod(room - "\n</urlset>".len());
    writer.write(Url::loc("http://e.com/").unwrap().lastmod(exact.as_str()).unwrap()).unwrap();
    writer.end().unwrap();
    let written = writer.into_inner();
    assert_eq!(written.len(), MAX_BYTE_LENGTH);
    assert!(written.starts_with(
        format!("{}\n  <url>\n    <loc>http://e.com/</loc>\n    <lastmod>2005", header).as_bytes()
    ));
    assert!(written.ends_with(b"000</lastmod>\n  </url>\n</urlset>"));
}

/// A date with a time that takes `len` bytes.
fn long_lastmod(len: usize) -> String {
    let head = "2005-01-01T00:00:00.";
    format!("{}{}", head, "0".repeat(len - head.len()))
}

fn entry_len(lastmod: usize) -> usize {
    "<url><loc>http://e.com/</loc><lastmod></lastmod></url>".len() + lastmod
}

#[test]
fn an_entry_that_does_not_fit_is_not_written() {
    let mut writer = SitemapWriter::start(Vec::new()).unwrap();
    let mut written = DECLARATION.len() + URLSET.len();
    let big = long_lastmod(1_000_000);
    while written + entry_len(big.len()) <= MAX_BYTE_LENGTH {
        writer.write(Url::loc("http://e.com/").unwrap().lastmod(big.as_str()).unwrap()).unwrap();
        written += entry_len(big.len());
    }
    assert!(matches!(
        writer.write(Url::loc("http://e.com/").unwrap().lastmod(big.as_str()).unwrap()),
        Err(sitemap_writer::Error::MaxByteLength)
    ));
    // One byte too many is refused, and the document stays open for an
    // entry that fits to the byte.
    let room = MAX_BYTE_LENGTH - written;
    let over = long_lastmod(room - entry_len(0) + 1);
    assert!(matches!(
        writer.write(Url::loc("http://e.com/").unwrap().lastmod(over.as_str()).unwrap()),
        Err(sitemap_writer::Error::MaxByteLength)
    ));
    let exact = long_lastmod(room - entry_len(0));
    writer.write(Url::loc("http://e.com/").unwrap().lastmod(exact.as_str()).unwrap()).unwrap();
    // Nothing fits any more, not even the closing tag.
    assert!(matches!(writer.write("http://e.com/"), Err(sitemap_writer::Error::MaxByteLength)));
    assert!(matches!(writer.end(), Err(sitemap_writer::Error::MaxByteLength)));
    let sink = writer.into_inner();
    assert_eq!(sink.len(), MAX_BYTE_LENGTH);
    assert!(sink.ends_with(b"0</lastmod></url>"));
}

#[test]
fn the_closing_tag_counts_against_the_budget() {
    let mut writer = SitemapIndexWriter::start(Vec::new()).unwrap();
    let mut written = DECLARATION.len() + SITEMAPINDEX.len();
    let overhead = "<sitemap><loc>http://e.com/</loc><lastmod></lastmod></sitemap>".len();
    let big = long_lastmod(1_000_000);
    while written + overhead + big.len() <= MAX_BYTE_LENGTH - 2_000_000 {
        writer
            .write(Sitemap::loc("http://e.com/").unwrap().lastmod(big.as_str()).unwrap())
            .unwrap();
        written += overhead + big.len();
    }
    let room = MAX_BYTE_LENGTH - written - "</sitemapindex>".len();
    let last = long_lastmod(room - overhead);
    writer.write(Sitemap::loc("http://e.com/").unwrap().lastmod(last.as_str()).unwrap()).unwrap();
    writer.end().unwrap();
    let sink = writer.into_inner();
    assert_eq!(sink.len(), MAX_BYTE_LENGTH);
    assert!(sink.ends_with(b"0</lastmod></sitemap></sitemapindex>"));
}

#[test]
fn escaped_text_counts_as_it_is_written() {
    // 10,000,000 ampersands take 50,000,000 bytes in the document.
    let mut writer = SitemapWriter::start(Vec::new()).unwrap();
    let loc = sitemap_xml_writer::Loc::from_url_text("&".repeat(10_000_000));
    writer.write(Url::loc(loc).unwrap()).unwrap();
    let loc = sitemap_xml_writer::Loc::from_url_text("&".repeat(500_000));
    assert!(matches!(
        writer.write(Url::loc(loc).unwrap()),
        Err(sitemap_writer::Error::MaxByteLength)
    ));
    writer.end().unwrap();
    assert_eq!(
        writer.into_inner().len(),
        DECLARATION.len() + URLSET.len() + "<url><loc></loc></url></urlset>".len() + 50_000_000
    );
}

#[test]
fn a_document_that_was_ended_takes_nothing_more() {
    let mut writer = SitemapWriter::start(Vec::new()).unwrap();
    writer.end().unwrap();
    assert!(matches!(writer.write("http://e.com/"), Err(sitemap_writer::Error::NotOpen)));
    assert!(matches!(writer.end(), Err(sitemap_writer::Error::NotOpen)));
    assert_eq!(text(writer.into_inner()), format!("{}{}</urlset>", DECLARATION, URLSET));

    let mut writer = SitemapIndexWriter::start(Vec::new()).unwrap();
    writer.end().unwrap();
    assert!(matches!(writer.write("http://e.com/"), Err(sitemap_index_writer::Error::NotOpen)));
    assert!(matches!(writer.end(), Err(sitemap_index_writer::Error::NotOpen)));
}

#[test]
fn a_sink_that_fails_at_once_fails_the_start() {
    let sink = Limited { taken: Vec::new(), room: 10 };
    assert!(matches!(SitemapWriter::start(sink), Err(sitemap_writer::Error::Io(_))));
    let sink = Limited { taken: Vec::new(), room: 40 };
    assert!(matches!(SitemapIndexWriter::start(sink), Err(sitemap_index_writer::Error::Io(_))));
}

#[test]
fn what_reached_a_failing_sink_is_a_prefix_of_the_document() {
    let whole = format!(
        "{}{}<url><loc>http://e.com/</loc><lastmod>2005-01-01</lastmod></url></urlset>",
        DECLARATION, URLSET
    );
    for room in 0..whole.len() + 2 {
        let sink = Limited { taken: Vec::new(), room };
        let taken = match SitemapWriter::start(sink) {
            Err(_) => continue,
            Ok(mut writer) => {
                let written = writer
                    .write(Url::loc("http://e.com/").unwrap().lastmod("2005-01-01").unwrap());
                let ended = writer.end();
                match written {
                    Ok(()) => assert!(matches!(ended, Ok(()) | Err(sitemap_writer::Error::Io(_)))),
                    Err(_) => assert!(matches!(ended, Err(sitemap_writer::Error::NotOpen))),
                }
                writer.into_inner().taken
            }
        };
        assert_eq!(taken.len(), room.min(whole.len()));
        assert!(whole.as_bytes().starts_with(&taken));
    }
}

#[test]
fn an_index_entry_that_does_not_fit_is_not_written() {
    let mut writer = SitemapIndexWriter::start(Vec::new()).unwrap();
    let huge = long_lastmod(MAX_BYTE_LENGTH);
    assert!(matches!(
        writer.write(Sitemap::loc("http://e.com/").unwrap().lastmod(huge.as_str()).unwrap()),
        Err(sitemap_index_writer::Error::MaxByteLength)
    ));
    writer.write("http://e.com/").unwrap();
    writer.end().unwrap();
    assert_eq!(
        text(writer.into_inner()),
        format!(
            "{}{}<sitemap><loc>http://e.com/</loc></sitemap></sitemapindex>",
            DECLARATION, SITEMAPINDEX
        )
    );
}
