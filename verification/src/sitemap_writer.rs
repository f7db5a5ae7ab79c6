use crate::document;
use crate::document::{entry, footer, header, Document};
use crate::loc::LOC_LENGTH_LIMIT;
use crate::markup::Tag;
use crate::sealed::Sealed;
use crate::sink::{accepted, Sink};
use crate::url::{url_entry, Url, UrlView};
use crate::xml_writer::MAX_BYTE_LENGTH;
use vstd::prelude::*;
use vstd::std_specs::convert::FromSpecImpl;

verus! {

/// Why an entry was not built or not written.
#[derive(Debug)]
pub enum Error {
    /// The text is none of the seven values of `changefreq`.
    InvalidChangefreq,
    /// The text is neither a date nor a date with a time.
    InvalidLastmod,
    /// The text is too long for a location.
    InvalidLoc,
    /// The text is not a decimal number from 0.0 to 1.0.
    InvalidPriority,
    /// The sink failed. Part of what was to be written may have reached it.
    Io(std::io::Error),
    /// The document would have grown beyond 50 MiB (52,428,800 bytes).
    MaxByteLength,
    /// The document holds 50,000 entries already.
    MaxNumberOfUrls,
    /// The document was ended, or an earlier failure of the sink left it
    /// unfinished.
    NotOpen,
}

impl From<document::Error> for Error {
    /// The failure of a document as a failure of this writer.
    fn from(value: document::Error) -> (r: Error) {
        match value {
            document::Error::Io(e) => Error::Io(e),
            document::Error::MaxByteLength => Error::MaxByteLength,
            document::Error::MaxEntries => Error::MaxNumberOfUrls,
            document::Error::NotOpen => Error::NotOpen,
        }
    }
}

impl FromSpecImpl<document::Error> for Error {
    open spec fn obeys_from_spec() -> bool {
        true
    }

    closed spec fn from_spec(v: document::Error) -> Error {
        match v {
            document::Error::Io(e) => Error::Io(e),
            document::Error::MaxByteLength => Error::MaxByteLength,
            document::Error::MaxEntries => Error::MaxNumberOfUrls,
            document::Error::NotOpen => Error::NotOpen,
        }
    }
}

/// The most `url` entries that one sitemap may hold.
pub const MAX_NUMBER_OF_URLS: usize = 50_000;

/// What a writer takes for an entry: an entry that was built field by
/// field, or the bare text of a location.
pub trait SealedTryIntoUrl: Sized + Sealed {
    /// The entry that the value stands for, if it stands for one.
    spec fn as_url(self) -> Option<UrlView>;

    /// The entry that the value stands for, or `InvalidLoc`.
    fn try_into_url(self) -> (r: Result<Url, Error>)
        ensures
            match self.as_url() {
                Some(v) => r matches Ok(u) && u@ == v,
                None => r matches Err(Error::InvalidLoc),
            },
    ;
}

impl SealedTryIntoUrl for Url {
    open spec fn as_url(self) -> Option<UrlView> {
        Some(self@)
    }

    fn try_into_url(self) -> (r: Result<Url, Error>) {
        Ok(self)
    }
}

impl<'a> SealedTryIntoUrl for &'a str {
    open spec fn as_url(self) -> Option<UrlView> {
        if self@.len() < LOC_LENGTH_LIMIT {
            Some(UrlView { loc: self@, lastmod: None, changefreq: None, priority: None })
        } else {
            None
        }
    }

    fn try_into_url(self) -> (r: Result<Url, Error>) {
        Url::loc(self)
    }
}

/// Writes a sitemap: a `urlset` of `url` entries.
pub struct SitemapWriter<W: Sink> {
    document: Document<W>,
}

/// What writing `fragment` to an open sitemap does. The fragment is written
/// whole, or not at all where it does not fit the byte budget; only a
/// failing sink can leave part of it behind, and the sitemap is then
/// neither open nor closed.
pub open spec fn writes<W: Sink>(
    before: SitemapWriter<W>,
    after: SitemapWriter<W>,
    fragment: Seq<u8>,
    r: Result<(), Error>,
) -> bool {
    let fits = before.bytes_written() + fragment.len() <= MAX_BYTE_LENGTH;
    &&& after.pretty() == before.pretty()
    &&& match r {
        Ok(()) => fits && after.bytes_written() == before.bytes_written() + fragment.len(),
        Err(Error::MaxByteLength) => !fits && after == before,
        Err(Error::Io(_)) => {
            &&& fits
            &&& !after.is_open()
            &&& !after.is_closed()
            &&& before.bytes_written() <= after.bytes_written() <= before.bytes_written()
                + fragment.len()
        },
        Err(_) => false,
    }
    &&& fits && W::obeys_sink_spec() ==> accepted(
        before.sink().written(),
        after.sink().written(),
        fragment,
        r is Ok,
    )
    &&& fits && W::never_fails() ==> r is Ok
}

impl<W: Sink> SitemapWriter<W> {
    /// The sink that the sitemap goes to.
    pub closed spec fn sink(&self) -> W {
        self.document.sink()
    }

    /// Whether the sitemap is indented.
    pub closed spec fn pretty(&self) -> bool {
        self.document.pretty()
    }

    /// The number of bytes written so far.
    pub closed spec fn bytes_written(&self) -> int {
        self.document.bytes_written()
    }

    /// The number of entries written so far.
    pub closed spec fn entries(&self) -> nat {
        self.document.entries()
    }

    /// Whether entries can be written: the sitemap was started, was not
    /// ended, and its sink has not failed.
    pub closed spec fn is_open(&self) -> bool {
        self.document.is_open(Tag::Urlset)
    }

    /// Whether the sitemap was ended.
    pub closed spec fn is_closed(&self) -> bool {
        self.document.is_closed()
    }

    /// The limits of the protocol hold: no more than 50,000 entries and no
    /// more than 52,428,800 bytes.
    pub open spec fn within_limits(&self) -> bool {
        self.entries() <= MAX_NUMBER_OF_URLS && 0 <= self.bytes_written() <= MAX_BYTE_LENGTH
    }

    /// A sitemap is open, or closed, or neither, never both.
    pub proof fn lemma_open_or_closed(&self)
        ensures
            !(self.is_open() && self.is_closed()),
    {
        self.document.lemma_open_or_closed(Tag::Urlset);
    }

    /// Starts a compact sitemap: writes the declaration and opens `urlset`.
    pub fn start(inner: W) -> (r: Result<Self, Error>)
        ensures
            match r {
                Ok(w) => {
                    &&& w.is_open()
                    &&& !w.pretty()
                    &&& w.entries() == 0
                    &&& w.bytes_written() == header(false, Tag::Urlset).len()
                    &&& w.within_limits()
                    &&& W::obeys_sink_spec() ==> w.sink().written() == inner.written() + header(
                        false,
                        Tag::Urlset,
                    )
                },
                Err(e) => e is Io,
            },
            W::never_fails() ==> r is Ok,
    {
        Self::start_inner(inner, false)
    }

    /// Starts an indented sitemap: writes the declaration and opens
    /// `urlset`.
    pub fn start_with_indent(inner: W) -> (r: Result<Self, Error>)
        ensures
            match r {
                Ok(w) => {
                    &&& w.is_open()
                    &&& w.pretty()
                    &&& w.entries() == 0
                    &&& w.bytes_written() == header(true, Tag::Urlset).len()
                    &&& w.within_limits()
                    &&& W::obeys_sink_spec() ==> w.sink().written() == inner.written() + header(
                        true,
                        Tag::Urlset,
                    )
                },
                Err(e) => e is Io,
            },
            W::never_fails() ==> r is Ok,
    {
        Self::start_inner(inner, true)
    }

    /// Writes a `url` entry and counts it.
    ///
    /// A sitemap that is not open, or that holds 50,000 entries, refuses the
    /// entry and stays as it is. So does one that is given a text that is too
    /// long for a location. An entry that fits the byte budget is written
    /// whole, unless the sink fails; one that does not fit is not written at
    /// all. Only an entry that was written whole is counted.
    pub fn write<U: SealedTryIntoUrl>(&mut self, url: U) -> (r: Result<(), Error>)
        ensures
            !old(self).is_open() ==> (r matches Err(Error::NotOpen)) && *final(self) == *old(
                self,
            ),
            old(self).is_open() && old(self).entries() >= MAX_NUMBER_OF_URLS ==> (r matches Err(
                Error::MaxNumberOfUrls,
            )) && *final(self) == *old(self),
            old(self).is_open() && old(self).entries() < MAX_NUMBER_OF_URLS ==> match url.as_url() {
                None => (r matches Err(Error::InvalidLoc)) && *final(self) == *old(self),
                Some(u) => {
                    &&& writes(*old(self), *final(self), url_entry(old(self).pretty(), u), r)
                    &&& r is Ok ==> final(self).is_open()
                },
            },
            final(self).entries() == old(self).entries() + if r is Ok {
                1nat
            } else {
                0nat
            },
            old(self).within_limits() ==> final(self).within_limits(),
            old(self).bytes_written() <= final(self).bytes_written(),
    {
        match self.document.has_room(Tag::Urlset) {
            Ok(()) => {},
            Err(e) => {
                return Err(Error::from(e));
            },
        }
        let url = match url.try_into_url() {
            Ok(u) => u,
            Err(e) => {
                return Err(e);
            },
        };
        let fields = url.fields();
        let r = self.document.write_entry(Tag::Urlset, Tag::Url, &fields);
        proof {
            self.document.lemma_open_or_closed(Tag::Urlset);
        }
        match r {
            Ok(()) => Ok(()),
            Err(e) => Err(Error::from(e)),
        }
    }

    /// Ends the sitemap: closes `urlset`. A sitemap without entries may be
    /// ended too. One that is not open stays as it is.
    pub fn end(&mut self) -> (r: Result<(), Error>)
        ensures
            !old(self).is_open() ==> (r matches Err(Error::NotOpen)) && *final(self) == *old(
                self,
            ),
            old(self).is_open() ==> {
                &&& writes(*old(self), *final(self), footer(old(self).pretty(), Tag::Urlset), r)
                &&& final(self).entries() == old(self).entries()
                &&& r is Ok ==> final(self).is_closed() && !final(self).is_open()
            },
            old(self).within_limits() ==> final(self).within_limits(),
            old(self).bytes_written() <= final(self).bytes_written(),
    {
        let r = self.document.end(Tag::Urlset);
        proof {
            self.document.lemma_open_or_closed(Tag::Urlset);
        }
        match r {
            Ok(()) => Ok(()),
            Err(e) => Err(Error::from(e)),
        }
    }

    /// Gives the sink back. Nothing more is written: a sitemap that was not
    /// ended stays without its closing tag.
    pub fn into_inner(self) -> (r: W)
        ensures
            r == self.sink(),
    {
        self.document.into_inner()
    }

    fn start_inner(inner: W, pretty: bool) -> (r: Result<Self, Error>)
        ensures
            match r {
                Ok(w) => {
                    &&& w.is_open()
                    &&& w.pretty() == pretty
                    &&& w.entries() == 0
                    &&& w.bytes_written() == header(pretty, Tag::Urlset).len()
                    &&& w.within_limits()
                    &&& W::obeys_sink_spec() ==> w.sink().written() == inner.written() + header(
                        pretty,
                        Tag::Urlset,
                    )
                },
                Err(e) => e is Io,
            },
            W::never_fails() ==> r is Ok,
    {
        match Document::start(inner, pretty, Tag::Urlset) {
            Ok(document) => Ok(SitemapWriter { document }),
            Err(e) => Err(Error::from(e)),
        }
    }
}

} // verus!
