//! Writers for the two documents of the sitemap protocol: the sitemap, a
//! `urlset` of pages, and the sitemap index, a `sitemapindex` of sitemaps.
//!
//! Every field of an entry is checked when the entry is built, and a writer
//! sends each part of a document to its sink as soon as it is written,
//! within the protocol's limits of 50,000 entries and 52,428,800 bytes.
pub mod changefreq;
pub mod convert;
pub mod document;
pub mod lastmod;
pub mod loc;
pub mod markup;
pub mod priority;
mod sealed;
pub mod sink;
pub mod sitemap;
pub mod sitemap_index_writer;
pub mod sitemap_writer;
pub mod text;
pub mod url;
pub mod xml_writer;

pub use self::changefreq::Changefreq;
pub use self::lastmod::Lastmod;
pub use self::loc::Loc;
pub use self::priority::Priority;
pub use self::sink::Sink;
pub use self::sitemap::Sitemap;
pub use self::sitemap_index_writer::SitemapIndexWriter;
pub use self::sitemap_writer::SitemapWriter;
pub use self::url::Url;
