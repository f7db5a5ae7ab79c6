use crate::markup::{
    close_tag, declaration, element, fit, grow_close_tag, grow_element, grow_lead,
    grow_open_tag, grow_root_tag, lead, open_tag, push_close_tag, push_element, push_lead,
    push_open_tag, push_root_tag, root_tag, Tag,
};
use crate::sink::{accepted, append, Sink};
use vstd::prelude::*;
use vstd::string::StringSliceAdditionalSpecFns;

verus! {

/// The most bytes that one document may hold: 50 MiB.
pub const MAX_BYTE_LENGTH: usize = 52_428_800;

/// Why a fragment was not written.
#[derive(Debug)]
pub enum Error {
    /// The sink failed. Part of the fragment may have reached it.
    Io(std::io::Error),
    /// The fragment would have taken the document past `MAX_BYTE_LENGTH`.
    /// Nothing was written.
    MaxByteLength,
}

/// Writes the pieces of a document to a sink, one fragment at a time, and
/// keeps the account of the bytes and of the tags that are open.
pub struct SitemapXmlWriter<W: Sink> {
    sink: W,
    pretty: bool,
    remaining: usize,
    open_tags: Vec<Tag>,
}

/// What an operation that emits `fragment` and leaves `tags` open does to a
/// writer. The fragment is written whole or, where it does not fit the byte
/// budget, not at all; only a failing sink can leave part of it behind.
pub open spec fn emits<W: Sink>(
    before: SitemapXmlWriter<W>,
    after: SitemapXmlWriter<W>,
    fragment: Seq<u8>,
    tags: Seq<Tag>,
    r: Result<(), Error>,
) -> bool {
    let fits = before.bytes_written() + fragment.len() <= MAX_BYTE_LENGTH;
    &&& after.pretty() == before.pretty()
    &&& match r {
        Ok(()) => {
            &&& fits
            &&& after.bytes_written() == before.bytes_written() + fragment.len()
            &&& after.open_tags() == tags
        },
        Err(Error::MaxByteLength) => !fits && after == before,
        Err(Error::Io(_)) => {
            &&& fits
            &&& after.bytes_written() == before.bytes_written()
            &&& after.open_tags() == before.open_tags()
        },
    }
    &&& fits && W::obeys_sink_spec() ==> accepted(
        before.sink().written(),
        after.sink().written(),
        fragment,
        r is Ok,
    )
    &&& fits && W::never_fails() ==> r is Ok
}

impl<W: Sink> SitemapXmlWriter<W> {
    /// The sink that the fragments go to.
    pub closed spec fn sink(&self) -> W {
        self.sink
    }

    /// Whether a line break and indentation stand before each tag.
    pub closed spec fn pretty(&self) -> bool {
        self.pretty
    }

    /// The number of bytes written so far.
    pub closed spec fn bytes_written(&self) -> int {
        MAX_BYTE_LENGTH - self.remaining
    }

    /// The tags that are open, outermost first.
    pub closed spec fn open_tags(&self) -> Seq<Tag> {
        self.open_tags@
    }

    /// A writer that has written nothing yet.
    pub fn new(inner: W, pretty: bool) -> (w: Self)
        ensures
            w.sink() == inner,
            w.pretty() == pretty,
            w.bytes_written() == 0,
            w.open_tags() == Seq::<Tag>::empty(),
    {
        SitemapXmlWriter { sink: inner, pretty, remaining: MAX_BYTE_LENGTH, open_tags: Vec::new() }
    }

    /// Whether `tag` is open, and no other.
    pub fn only_open(&self, tag: Tag) -> (r: bool)
        ensures
            r == (self.open_tags() == seq![tag]),
    {
        let r = self.open_tags.len() == 1 && self.open_tags[0] == tag;
        proof {
            if r {
                assert(self.open_tags@ =~= seq![tag]);
            }
        }
        r
    }

    /// Whether the writer indents.
    pub fn is_pretty(&self) -> (r: bool)
        ensures
            r == self.pretty(),
    {
        self.pretty
    }

    /// The number of bytes that may still be written.
    pub fn remaining(&self) -> (r: usize)
        ensures
            r == MAX_BYTE_LENGTH - self.bytes_written(),
    {
        self.remaining
    }

    /// Hands a fragment that fits the budget to the sink and, if the sink
    /// takes it, books it.
    fn send(&mut self, fragment: &Vec<u8>) -> (r: Result<(), Error>)
        requires
            old(self).bytes_written() + fragment@.len() <= MAX_BYTE_LENGTH,
        ensures
            emits(*old(self), *final(self), fragment@, old(self).open_tags(), r),
    {
        match self.sink.write_all(fragment.as_slice()) {
            Ok(()) => {
                self.remaining = self.remaining - fragment.len();
                Ok(())
            },
            Err(e) => Err(Error::Io(e)),
        }
    }

    /// Writes the XML declaration.
    pub fn declaration(&mut self) -> (r: Result<(), Error>)
        ensures
            emits(*old(self), *final(self), declaration(), old(self).open_tags(), r),
    {
        let text = "<?xml version=\"1.0\" encoding=\"UTF-8\"?>".as_bytes();
        if text.len() > self.remaining {
            return Err(Error::MaxByteLength);
        }
        let mut buf: Vec<u8> = Vec::new();
        append(&mut buf, text);
        self.send(&buf)
    }

    /// Opens the root element, which carries the namespace of the protocol.
    pub fn start_tag_with_default_ns(&mut self, tag: Tag) -> (r: Result<(), Error>)
        ensures
            emits(
                *old(self),
                *final(self),
                lead(old(self).pretty(), old(self).open_tags().len()) + root_tag(tag),
                old(self).open_tags().push(tag),
                r,
            ),
    {
        let depth = self.open_tags.len();
        let len = grow_root_tag(
            grow_lead(Some(0), self.pretty, depth, self.remaining),
            tag,
            self.remaining,
        );
        if len.is_none() {
            return Err(Error::MaxByteLength);
        }
        let mut buf: Vec<u8> = Vec::new();
        push_lead(&mut buf, self.pretty, depth);
        push_root_tag(&mut buf, tag);
        match self.send(&buf) {
            Ok(()) => {
                self.open_tags.push(tag);
                Ok(())
            },
            Err(e) => Err(e),
        }
    }

    /// Opens an element.
    pub fn start_tag(&mut self, tag: Tag) -> (r: Result<(), Error>)
        ensures
            emits(
                *old(self),
                *final(self),
                lead(old(self).pretty(), old(self).open_tags().len()) + open_tag(tag),
                old(self).open_tags().push(tag),
                r,
            ),
    {
        let depth = self.open_tags.len();
        let len = grow_open_tag(
            grow_lead(Some(0), self.pretty, depth, self.remaining),
            tag,
            self.remaining,
        );
        if len.is_none() {
            return Err(Error::MaxByteLength);
        }
        let mut buf: Vec<u8> = Vec::new();
        push_lead(&mut buf, self.pretty, depth);
        push_open_tag(&mut buf, tag);
        match self.send(&buf) {
            Ok(()) => {
                self.open_tags.push(tag);
                Ok(())
            },
            Err(e) => Err(e),
        }
    }

    /// Closes the innermost element, which must be `tag`.
    pub fn end_tag(&mut self, tag: Tag) -> (r: Result<(), Error>)
        requires
            old(self).open_tags().len() > 0,
            old(self).open_tags().last() == tag,
        ensures
            emits(
                *old(self),
                *final(self),
                lead(old(self).pretty(), (old(self).open_tags().len() - 1) as nat) + close_tag(tag),
                old(self).open_tags().drop_last(),
                r,
            ),
    {
        let depth = self.open_tags.len() - 1;
        let len = grow_close_tag(
            grow_lead(Some(0), self.pretty, depth, self.remaining),
            tag,
            self.remaining,
        );
        if len.is_none() {
            return Err(Error::MaxByteLength);
        }
        let mut buf: Vec<u8> = Vec::new();
        push_lead(&mut buf, self.pretty, depth);
        push_close_tag(&mut buf, tag);
        match self.send(&buf) {
            Ok(()) => {
                self.open_tags.pop();
                Ok(())
            },
            Err(e) => Err(e),
        }
    }

    /// Writes an element that holds text and nothing else.
    pub fn element(&mut self, tag: Tag, text: &str) -> (r: Result<(), Error>)
        ensures
            emits(
                *old(self),
                *final(self),
                lead(old(self).pretty(), old(self).open_tags().len()) + element(
                    tag,
                    text.spec_bytes(),
                ),
                old(self).open_tags(),
                r,
            ),
    {
        let depth = self.open_tags.len();
        let len = grow_element(
            grow_lead(Some(0), self.pretty, depth, self.remaining),
            tag,
            text.as_bytes(),
            self.remaining,
        );
        if len.is_none() {
            return Err(Error::MaxByteLength);
        }
        let mut buf: Vec<u8> = Vec::new();
        push_lead(&mut buf, self.pretty, depth);
        push_element(&mut buf, tag, text.as_bytes());
        self.send(&buf)
    }

    /// Gives the sink back. Nothing more is written: tags that are still
    /// open stay open.
    pub fn into_inner(self) -> (r: W)
        ensures
            r == self.sink(),
    {
        self.sink
    }
}

} // verus!
