use crate::markup::{
    close_tag, declaration, element, fit, grow_close_tag, grow_element, grow_lead,
    grow_open_tag, grown, lead, lemma_declaration_len, open_tag, root_tag, Tag,
};
use crate::sink::{accepted, Sink};
use crate::xml_writer;
use crate::xml_writer::{SitemapXmlWriter, MAX_BYTE_LENGTH};
use vstd::prelude::*;
use vstd::string::StringSliceAdditionalSpecFns;
use vstd::utf8::encode_utf8;

verus! {

/// The most entries that one document may hold.
pub const MAX_ENTRIES: usize = 50_000;

/// Why a document was not written to.
#[derive(Debug)]
pub(crate) enum Error {
    /// The sink failed. Part of what was to be written may have reached it.
    Io(std::io::Error),
    /// The document would have grown beyond `MAX_BYTE_LENGTH`. Nothing was
    /// written.
    MaxByteLength,
    /// The document holds `MAX_ENTRIES` entries already.
    MaxEntries,
    /// The document was ended, or an earlier failure of the sink left it
    /// unfinished.
    NotOpen,
}

/// One child of an entry: an element and the text that it holds. The
/// entries of this crate make their fields of text that was validated.
pub(crate) struct Field<'a> {
    pub(crate) tag: Tag,
    pub(crate) text: &'a str,
}

impl<'a> View for Field<'a> {
    type V = (Tag, Seq<u8>);

    closed spec fn view(&self) -> (Tag, Seq<u8>) {
        (self.tag, self.text.spec_bytes())
    }
}

/// What opens a document: the declaration and the root tag.
pub open spec fn header(pretty: bool, root: Tag) -> Seq<u8> {
    declaration() + lead(pretty, 0) + root_tag(root)
}

/// What ends a document: the closing root tag.
pub open spec fn footer(pretty: bool, root: Tag) -> Seq<u8> {
    lead(pretty, 0) + close_tag(root)
}

/// The elements of the given fields, one after the other, each at `depth`.
pub open spec fn elements(pretty: bool, depth: nat, fields: Seq<(Tag, Seq<u8>)>) -> Seq<u8>
    decreases fields.len(),
{
    if fields.len() == 0 {
        Seq::empty()
    } else {
        elements(pretty, depth, fields.drop_last()) + lead(pretty, depth) + element(
            fields.last().0,
            fields.last().1,
        )
    }
}

/// One entry of a document: the entry's tag around the elements of its
/// fields, in their order.
pub open spec fn entry(pretty: bool, tag: Tag, fields: Seq<(Tag, Seq<u8>)>) -> Seq<u8> {
    lead(pretty, 1) + open_tag(tag) + elements(pretty, 2, fields) + lead(pretty, 1) + close_tag(
        tag,
    )
}

/// The fields as they are read in contracts.
pub(crate) open spec fn views(fields: Seq<Field>) -> Seq<(Tag, Seq<u8>)> {
    fields.map_values(|f: Field| f@)
}

pub(crate) proof fn lemma_elements_concat(
    pretty: bool,
    depth: nat,
    a: Seq<(Tag, Seq<u8>)>,
    b: Seq<(Tag, Seq<u8>)>,
)
    ensures
        elements(pretty, depth, a + b) == elements(pretty, depth, a) + elements(pretty, depth, b),
    decreases b.len(),
{
    if b.len() == 0 {
        assert(a + b == a);
    } else {
        lemma_elements_concat(pretty, depth, a, b.drop_last());
        assert((a + b).drop_last() == a + b.drop_last());
        assert((a + b).last() == b.last());
    }
}

/// The elements of the first `i + 1` fields are those of the first `i` and
/// the element of the next, and are part of the elements of all.
pub(crate) proof fn lemma_elements_step(
    pretty: bool,
    depth: nat,
    fields: Seq<(Tag, Seq<u8>)>,
    i: int,
)
    requires
        0 <= i < fields.len(),
    ensures
        elements(pretty, depth, fields.take(i + 1)) == elements(pretty, depth, fields.take(i))
            + lead(pretty, depth) + element(fields[i].0, fields[i].1),
        elements(pretty, depth, fields) == elements(pretty, depth, fields.take(i + 1)) + elements(
            pretty,
            depth,
            fields.skip(i + 1),
        ),
{
    assert(fields.take(i + 1).drop_last() == fields.take(i));
    assert(fields == fields.take(i + 1) + fields.skip(i + 1));
    lemma_elements_concat(pretty, depth, fields.take(i + 1), fields.skip(i + 1));
}

/// The root tags are short, and so is the header.
pub proof fn lemma_header_len(pretty: bool, root: Tag)
    ensures
        header(pretty, root).len() <= 128,
        footer(pretty, root).len() <= 128,
{
    lemma_declaration_len();
    reveal_strlit("<");
    reveal_strlit("</");
    reveal_strlit(">");
    reveal_strlit("urlset");
    reveal_strlit("sitemapindex");
    reveal_strlit("url");
    reveal_strlit("sitemap");
    reveal_strlit("loc");
    reveal_strlit("lastmod");
    reveal_strlit("changefreq");
    reveal_strlit("priority");
    reveal_strlit(" xmlns=\"http://www.sitemaps.org/schemas/sitemap/0.9\">");
    vstd::utf8::is_ascii_chars_encode_utf8("<"@);
    vstd::utf8::is_ascii_chars_encode_utf8("</"@);
    vstd::utf8::is_ascii_chars_encode_utf8(">"@);
    vstd::utf8::is_ascii_chars_encode_utf8("urlset"@);
    vstd::utf8::is_ascii_chars_encode_utf8("sitemapindex"@);
    vstd::utf8::is_ascii_chars_encode_utf8("url"@);
    vstd::utf8::is_ascii_chars_encode_utf8("sitemap"@);
    vstd::utf8::is_ascii_chars_encode_utf8("loc"@);
    vstd::utf8::is_ascii_chars_encode_utf8("lastmod"@);
    vstd::utf8::is_ascii_chars_encode_utf8("changefreq"@);
    vstd::utf8::is_ascii_chars_encode_utf8("priority"@);
    vstd::utf8::is_ascii_chars_encode_utf8(
        " xmlns=\"http://www.sitemaps.org/schemas/sitemap/0.9\">"@,
    );
}

/// The field that a text gives, if there is a text.
pub open spec fn optional(tag: Tag, text: Option<Seq<char>>) -> Seq<(Tag, Seq<u8>)> {
    match text {
        Some(t) => seq![(tag, encode_utf8(t))],
        None => Seq::empty(),
    }
}

/// The fields with one more.
pub(crate) proof fn lemma_views_push(fields: Seq<Field>, field: Field)
    ensures
        views(fields.push(field)) == views(fields) + seq![field@],
{
    assert(views(fields.push(field)) =~= views(fields) + seq![field@]);
}

/// Adds the field that a text gives, if there is a text.
pub(crate) fn push_optional<'a>(fields: &mut Vec<Field<'a>>, tag: Tag, text: Option<&'a str>)
    ensures
        views(final(fields)@) == views(old(fields)@) + optional(
            tag,
            match text {
                Some(t) => Some(t@),
                None => None,
            },
        ),
{
    match text {
        Some(t) => {
            proof {
                lemma_views_push(fields@, Field { tag, text: t });
            }
            fields.push(Field { tag, text: t });
        },
        None => {
            assert(views(fields@) + Seq::<(Tag, Seq<u8>)>::empty() == views(fields@));
        },
    }
}

/// The text, if there is one.
pub(crate) fn text_of<'a>(text: &'a Option<String>) -> (r: Option<&'a str>)
    ensures
        match *text {
            Some(t) => r matches Some(s) && s@ == t@,
            None => r is None,
        },
{
    match text {
        Some(t) => Some(t.as_str()),
        None => None,
    }
}

/// How the contents of a modelled sink change over several fragments: once
/// `done` has been accepted, a fragment `next` that continues it towards
/// `whole` keeps the account in step.
pub(crate) proof fn lemma_accepted_step(
    before: Seq<u8>,
    after: Seq<u8>,
    done: Seq<u8>,
    next: Seq<u8>,
    whole: Seq<u8>,
    ok: bool,
)
    requires
        accepted(before + done, after, next, ok),
        (done + next).is_prefix_of(whole),
    ensures
        ok ==> after == before + (done + next),
        !ok ==> accepted(before, after, whole, false),
{
    let near = before + done;
    let full = before + done + next;
    let part = done + next;
    if ok {
        assert(full == before + part);
    } else {
        assert(near == after.subrange(0, near.len() as int));
        assert(after == full.subrange(0, after.len() as int));
        assert(part == whole.subrange(0, part.len() as int));
        assert forall|i: int| 0 <= i < before.len() implies before[i] == after[i] by {
            assert(near[i] == after.subrange(0, near.len() as int)[i]);
        }
        assert(before =~= after.subrange(0, before.len() as int));
        assert forall|i: int| 0 <= i < after.len() implies after[i] == (before + whole)[i] by {
            assert(after[i] == full.subrange(0, after.len() as int)[i]);
            if i >= before.len() {
                assert(full[i] == part[i - before.len()]);
                assert(part[i - before.len()] == whole.subrange(0, part.len() as int)[i
                    - before.len()]);
            }
        }
        assert(after =~= (before + whole).subrange(0, after.len() as int));
    }
}

/// A document that is being written: a root element that holds entries.
///
/// A document is open from its start until it is ended or its sink fails.
/// While it is open, only its root tag is open. It counts the entries that
/// were written, and no others.
pub(crate) struct Document<W: Sink> {
    writer: SitemapXmlWriter<W>,
    entries: usize,
    failed: bool,
}

/// What writing `fragment`, which holds `counts` entries, to an open
/// document does. The fragment is written whole, or not at all where it
/// does not fit the byte budget; only a failing sink can leave part of it
/// behind, and the document is then no longer open. The entries are counted
/// only where the fragment was written whole.
pub(crate) open spec fn transcribes<W: Sink>(
    before: Document<W>,
    after: Document<W>,
    fragment: Seq<u8>,
    counts: nat,
    r: Result<(), Error>,
) -> bool {
    let fits = before.bytes_written() + fragment.len() <= MAX_BYTE_LENGTH;
    &&& after.pretty() == before.pretty()
    &&& after.entries() == before.entries() + if r is Ok {
        counts
    } else {
        0
    }
    &&& match r {
        Ok(()) => fits && after.bytes_written() == before.bytes_written() + fragment.len()
            && !after.failed(),
        Err(Error::MaxByteLength) => !fits && after == before,
        Err(Error::Io(_)) => {
            &&& fits
            &&& after.failed()
            &&& before.bytes_written() <= after.bytes_written() <= before.bytes_written()
                + fragment.len()
        },
        Err(_) => false,
    }
    &&& fits && W::obeys_sink_spec() ==> accepted(
        before.sink().written(),
        after.sink().written(),
        fragment,
        r is Ok,
    )
    &&& fits && W::never_fails() ==> r is Ok
}

/// What writing a run of fragments that fits the byte budget does to a
/// writer: `run` is written whole, unless the sink fails on the way.
spec fn emits_run<W: Sink>(
    before: SitemapXmlWriter<W>,
    after: SitemapXmlWriter<W>,
    run: Seq<u8>,
    r: Result<(), xml_writer::Error>,
) -> bool {
    &&& after.pretty() == before.pretty()
    &&& match r {
        Ok(()) => after.bytes_written() == before.bytes_written() + run.len()
            && after.open_tags() == before.open_tags(),
        Err(xml_writer::Error::Io(_)) => before.bytes_written() <= after.bytes_written()
            <= before.bytes_written() + run.len(),
        Err(xml_writer::Error::MaxByteLength) => false,
    }
    &&& W::obeys_sink_spec() ==> accepted(
        before.sink().written(),
        after.sink().written(),
        run,
        r is Ok,
    )
    &&& W::never_fails() ==> r is Ok
}

/// Writes the elements of the fields, one after the other.
fn write_fields<W: Sink>(writer: &mut SitemapXmlWriter<W>, fields: &Vec<Field>) -> (r: Result<
    (),
    xml_writer::Error,
>)
    requires
        old(writer).bytes_written() + elements(
            old(writer).pretty(),
            old(writer).open_tags().len(),
            views(fields@),
        ).len() <= MAX_BYTE_LENGTH,
    ensures
        emits_run(
            *old(writer),
            *final(writer),
            elements(old(writer).pretty(), old(writer).open_tags().len(), views(fields@)),
            r,
        ),
{
    let ghost pretty = writer.pretty();
    let ghost depth = writer.open_tags().len();
    let ghost tags = writer.open_tags();
    let ghost whole = elements(pretty, depth, views(fields@));
    let ghost before = writer.sink().written();
    let ghost start = writer.bytes_written();
    let ghost mut done = Seq::<u8>::empty();
    let mut i: usize = 0;
    assert(views(fields@).take(0) == Seq::<(Tag, Seq<u8>)>::empty());
    assert(before + done == before);
    while i < fields.len()
        invariant
            i <= fields.len(),
            old(writer).pretty() == pretty,
            old(writer).open_tags() == tags,
            old(writer).sink().written() == before,
            old(writer).bytes_written() == start,
            depth == tags.len(),
            writer.pretty() == pretty,
            writer.open_tags() == tags,
            whole == elements(pretty, depth, views(fields@)),
            start + whole.len() <= MAX_BYTE_LENGTH,
            done == elements(pretty, depth, views(fields@).take(i as int)),
            writer.bytes_written() == start + done.len(),
            W::obeys_sink_spec() ==> writer.sink().written() == before + done,
        decreases fields.len() - i,
    {
        let ghost next = lead(pretty, depth) + element(fields[i as int].tag, fields[i as int]@.1);
        proof {
            lemma_elements_step(pretty, depth, views(fields@), i as int);
            assert(whole == done + next + elements(pretty, depth, views(fields@).skip(i + 1)));
            assert((done + next) == whole.subrange(0, (done + next).len() as int));
        }
        let r = writer.element(fields[i].tag, fields[i].text);
        proof {
            if W::obeys_sink_spec() {
                lemma_accepted_step(before, writer.sink().written(), done, next, whole, r is Ok);
            }
        }
        match r {
            Ok(()) => {},
            Err(e) => {
                return Err(e);
            },
        }
        proof {
            done = done + next;
        }
        i = i + 1;
    }
    assert(views(fields@).take(i as int) == views(fields@));
    Ok(())
}

impl<W: Sink> Document<W> {
    /// The sink that the document goes to.
    pub closed spec fn sink(&self) -> W {
        self.writer.sink()
    }

    /// Whether the document is indented.
    pub closed spec fn pretty(&self) -> bool {
        self.writer.pretty()
    }

    /// The number of bytes written so far.
    pub closed spec fn bytes_written(&self) -> int {
        self.writer.bytes_written()
    }

    /// The number of entries written so far.
    pub closed spec fn entries(&self) -> nat {
        self.entries as nat
    }

    /// Whether the sink has failed.
    pub closed spec fn failed(&self) -> bool {
        self.failed
    }

    /// Whether entries can be written to the document with the given
    /// root: the root is open, alone, and nothing has failed.
    pub closed spec fn is_open(&self, root: Tag) -> bool {
        !self.failed && self.writer.open_tags() == seq![root]
    }

    /// Whether the document was ended: nothing is open and nothing has
    /// failed.
    pub closed spec fn is_closed(&self) -> bool {
        !self.failed && self.writer.open_tags().len() == 0
    }

    /// The limits of the protocol hold: no more than `MAX_ENTRIES` entries
    /// and no more than `MAX_BYTE_LENGTH` bytes.
    pub open spec fn within_limits(&self) -> bool {
        self.entries() <= MAX_ENTRIES && 0 <= self.bytes_written() <= MAX_BYTE_LENGTH
    }

    /// A document cannot be open and closed at once.
    pub proof fn lemma_open_or_closed(&self, root: Tag)
        ensures
            !(self.is_open(root) && self.is_closed()),
            self.failed() ==> !self.is_open(root) && !self.is_closed(),
    {
    }

    /// Starts a document: writes the declaration and opens the root.
    pub(crate) fn start(inner: W, pretty: bool, root: Tag) -> (r: Result<Self, Error>)
        ensures
            match r {
                Ok(d) => {
                    &&& d.is_open(root)
                    &&& d.pretty() == pretty
                    &&& d.entries() == 0
                    &&& d.bytes_written() == header(pretty, root).len()
                    &&& d.within_limits()
                    &&& W::obeys_sink_spec() ==> d.sink().written() == inner.written() + header(
                        pretty,
                        root,
                    )
                },
                Err(e) => e is Io,
            },
            W::never_fails() ==> r is Ok,
    {
        proof {
            lemma_header_len(pretty, root);
        }
        let mut writer = SitemapXmlWriter::new(inner, pretty);
        match writer.declaration() {
            Ok(()) => {},
            Err(xml_writer::Error::Io(e)) => {
                return Err(Error::Io(e));
            },
            Err(xml_writer::Error::MaxByteLength) => {
                return Err(Error::MaxByteLength);
            },
        }
        match writer.start_tag_with_default_ns(root) {
            Ok(()) => {},
            Err(xml_writer::Error::Io(e)) => {
                return Err(Error::Io(e));
            },
            Err(xml_writer::Error::MaxByteLength) => {
                return Err(Error::MaxByteLength);
            },
        }
        assert(writer.open_tags() == seq![root]);
        assert(inner.written() + declaration() + (lead(pretty, 0) + root_tag(root))
            == inner.written() + header(pretty, root));
        Ok(Document { writer, entries: 0, failed: false })
    }

    /// Whether entries can be written.
    pub(crate) fn can_write(&self, root: Tag) -> (r: bool)
        ensures
            r == self.is_open(root),
    {
        !self.failed && self.writer.only_open(root)
    }

    /// Whether the document would take one more entry: it is open and
    /// holds fewer than `MAX_ENTRIES`. Nothing is changed.
    pub(crate) fn has_room(&self, root: Tag) -> (r: Result<(), Error>)
        ensures
            r == if !self.is_open(root) {
                Err::<(), Error>(Error::NotOpen)
            } else if self.entries() >= MAX_ENTRIES {
                Err(Error::MaxEntries)
            } else {
                Ok(())
            },
    {
        if !self.can_write(root) {
            return Err(Error::NotOpen);
        }
        if self.entries >= MAX_ENTRIES {
            return Err(Error::MaxEntries);
        }
        Ok(())
    }

    /// The length of an entry, where it is within `limit`.
    fn entry_len(pretty: bool, tag: Tag, fields: &Vec<Field>, limit: usize) -> (r: Option<usize>)
        ensures
            r == fit(entry(pretty, tag, views(fields@)).len() as int, limit),
    {
        let mut total = grow_open_tag(grow_lead(Some(0), pretty, 1, limit), tag, limit);
        let mut i: usize = 0;
        while i < fields.len()
            invariant
                i <= fields.len(),
                total == fit(
                    (lead(pretty, 1) + open_tag(tag) + elements(
                        pretty,
                        2,
                        views(fields@).take(i as int),
                    )).len() as int,
                    limit,
                ),
            decreases fields.len() - i,
        {
            proof {
                lemma_elements_step(pretty, 2, views(fields@), i as int);
            }
            total = grow_element(
                grow_lead(total, pretty, 2, limit),
                fields[i].tag,
                fields[i].text.as_bytes(),
                limit,
            );
            i = i + 1;
        }
        assert(views(fields@).take(i as int) == views(fields@));
        grow_close_tag(grow_lead(total, pretty, 1, limit), tag, limit)
    }

    /// Writes one entry and counts it. A document that is not open, or
    /// that holds `MAX_ENTRIES` entries, refuses the entry and stays as it
    /// is. Otherwise the entry is written whole and counted, or, where it
    /// does not fit the byte budget, not written and not counted.
    pub(crate) fn write_entry(&mut self, root: Tag, tag: Tag, fields: &Vec<Field>) -> (r: Result<
        (),
        Error,
    >)
        ensures
            !old(self).is_open(root) ==> (r matches Err(Error::NotOpen)) && *final(self) == *old(
                self,
            ),
            old(self).is_open(root) && old(self).entries() >= MAX_ENTRIES ==> (r matches Err(
                Error::MaxEntries,
            )) && *final(self) == *old(self),
            old(self).is_open(root) && old(self).entries() < MAX_ENTRIES ==> transcribes(
                *old(self),
                *final(self),
                entry(old(self).pretty(), tag, views(fields@)),
                1,
                r,
            ),
            old(self).is_open(root) && r is Ok ==> final(self).is_open(root),
    {
        if !self.can_write(root) {
            return Err(Error::NotOpen);
        }
        if self.entries >= MAX_ENTRIES {
            return Err(Error::MaxEntries);
        }
        let pretty = self.writer.is_pretty();
        if Self::entry_len(pretty, tag, fields, self.writer.remaining()).is_none() {
            return Err(Error::MaxByteLength);
        }
        let ghost before = self.writer.sink().written();
        let ghost head = lead(pretty, 1) + open_tag(tag);
        let ghost body = elements(pretty, 2, views(fields@));
        let ghost tail = lead(pretty, 1) + close_tag(tag);
        let ghost whole = entry(pretty, tag, views(fields@));
        proof {
            assert(whole == head + body + tail);
            assert(Seq::<u8>::empty() + head == head);
            assert(head == whole.subrange(0, head.len() as int));
            assert(head + body == whole.subrange(0, (head + body).len() as int));
            assert(before + Seq::<u8>::empty() == before);
            assert(seq![root].push(tag).len() == 2);
            assert(seq![root].push(tag).drop_last() == seq![root]);
        }
        let r = self.writer.start_tag(tag);
        proof {
            if W::obeys_sink_spec() {
                lemma_accepted_step(
                    before,
                    self.writer.sink().written(),
                    Seq::empty(),
                    head,
                    whole,
                    r is Ok,
                );
            }
        }
        match r {
            Ok(()) => {},
            Err(xml_writer::Error::Io(e)) => {
                self.failed = true;
                return Err(Error::Io(e));
            },
            Err(xml_writer::Error::MaxByteLength) => {
                return Err(Error::MaxByteLength);
            },
        }
        let r = write_fields(&mut self.writer, fields);
        proof {
            if W::obeys_sink_spec() {
                lemma_accepted_step(
                    before,
                    self.writer.sink().written(),
                    head,
                    body,
                    whole,
                    r is Ok,
                );
            }
        }
        match r {
            Ok(()) => {},
            Err(xml_writer::Error::Io(e)) => {
                self.failed = true;
                return Err(Error::Io(e));
            },
            Err(xml_writer::Error::MaxByteLength) => {
                return Err(Error::MaxByteLength);
            },
        }
        let r = self.writer.end_tag(tag);
        proof {
            if W::obeys_sink_spec() {
                lemma_accepted_step(
                    before,
                    self.writer.sink().written(),
                    head + body,
                    tail,
                    whole,
                    r is Ok,
                );
            }
        }
        match r {
            Ok(()) => {
                self.entries = self.entries + 1;
                Ok(())
            },
            Err(xml_writer::Error::Io(e)) => {
                self.failed = true;
                Err(Error::Io(e))
            },
            Err(xml_writer::Error::MaxByteLength) => Err(Error::MaxByteLength),
        }
    }

    /// Ends the document: closes the root. A document without entries may
    /// be ended too.
    pub(crate) fn end(&mut self, root: Tag) -> (r: Result<(), Error>)
        ensures
            !old(self).is_open(root) ==> (r matches Err(Error::NotOpen)) && *final(self) == *old(
                self,
            ),
            old(self).is_open(root) ==> transcribes(
                *old(self),
                *final(self),
                footer(old(self).pretty(), root),
                0,
                r,
            ),
            old(self).is_open(root) && r is Ok ==> final(self).is_closed(),
    {
        if !self.can_write(root) {
            return Err(Error::NotOpen);
        }
        match self.writer.end_tag(root) {
            Ok(()) => Ok(()),
            Err(xml_writer::Error::Io(e)) => {
                self.failed = true;
                Err(Error::Io(e))
            },
            Err(xml_writer::Error::MaxByteLength) => Err(Error::MaxByteLength),
        }
    }

    /// Gives the sink back. Nothing more is written: a document that was
    /// not ended stays without its closing tag.
    pub(crate) fn into_inner(self) -> (r: W)
        ensures
            r == self.sink(),
    {
        self.writer.into_inner()
    }
}

} // verus!
