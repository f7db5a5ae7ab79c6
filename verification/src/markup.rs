use crate::sink::append;
use vstd::prelude::*;
use vstd::string::StringSliceAdditionalSpecFns;
use vstd::utf8::{
    encode_scalar, encode_utf8, has_width_1_encoding, has_width_2_encoding, has_width_3_encoding,
    last_continuation_byte, leading_byte_width_1, leading_byte_width_2, leading_byte_width_3,
    leading_byte_width_4, second_last_continuation_byte, third_last_continuation_byte,
};

verus! {

/// The elements of the sitemap protocol.
#[derive(Clone, Copy, Debug, PartialEq, Eq, Structural)]
pub enum Tag {
    /// `urlset`, the root of a sitemap.
    Urlset,
    /// `sitemapindex`, the root of a sitemap index.
    Sitemapindex,
    /// `url`, an entry of a sitemap.
    Url,
    /// `sitemap`, an entry of a sitemap index.
    Sitemap,
    /// `loc`, the location of a page or of a sitemap.
    Loc,
    /// `lastmod`, the date of the last modification.
    Lastmod,
    /// `changefreq`, how often a page changes.
    Changefreq,
    /// `priority`, the priority of a page among the pages of its site.
    Priority,
}

impl Tag {
    /// The element's name as it stands in a document.
    pub open spec fn name(self) -> Seq<u8> {
        match self {
            Tag::Urlset => "urlset".spec_bytes(),
            Tag::Sitemapindex => "sitemapindex".spec_bytes(),
            Tag::Url => "url".spec_bytes(),
            Tag::Sitemap => "sitemap".spec_bytes(),
            Tag::Loc => "loc".spec_bytes(),
            Tag::Lastmod => "lastmod".spec_bytes(),
            Tag::Changefreq => "changefreq".spec_bytes(),
            Tag::Priority => "priority".spec_bytes(),
        }
    }

    /// The element's name.
    pub fn as_str(self) -> (r: &'static str)
        ensures
            r.spec_bytes() == self.name(),
    {
        match self {
            Tag::Urlset => "urlset",
            Tag::Sitemapindex => "sitemapindex",
            Tag::Url => "url",
            Tag::Sitemap => "sitemap",
            Tag::Loc => "loc",
            Tag::Lastmod => "lastmod",
            Tag::Changefreq => "changefreq",
            Tag::Priority => "priority",
        }
    }
}

/// The XML declaration that opens every document.
pub open spec fn declaration() -> Seq<u8> {
    "<?xml version=\"1.0\" encoding=\"UTF-8\"?>".spec_bytes()
}

/// `<name>`
pub open spec fn open_tag(tag: Tag) -> Seq<u8> {
    "<".spec_bytes() + tag.name() + ">".spec_bytes()
}

/// `</name>`
pub open spec fn close_tag(tag: Tag) -> Seq<u8> {
    "</".spec_bytes() + tag.name() + ">".spec_bytes()
}

/// `<name xmlns="...">`, with the namespace of the sitemap protocol.
pub open spec fn root_tag(tag: Tag) -> Seq<u8> {
    "<".spec_bytes() + tag.name()
        + " xmlns=\"http://www.sitemaps.org/schemas/sitemap/0.9\">".spec_bytes()
}

/// `&`
pub const AMPERSAND: u8 = 0x26;

/// `<`
pub const LESS_THAN: u8 = 0x3c;

/// `>`
pub const GREATER_THAN: u8 = 0x3e;

/// `"`
pub const QUOTE: u8 = 0x22;

/// A line feed.
pub const NEWLINE: u8 = 0x0a;

/// A space.
pub const SPACE: u8 = 0x20;

/// Spaces of indentation per level of nesting in an indented document.
pub const INDENT_WIDTH: usize = 2;

/// What stands for one byte of text in a document.
pub open spec fn escape_byte(b: u8) -> Seq<u8> {
    if b == AMPERSAND {
        "&amp;".spec_bytes()
    } else if b == LESS_THAN {
        "&lt;".spec_bytes()
    } else if b == GREATER_THAN {
        "&gt;".spec_bytes()
    } else if b == QUOTE {
        "&quot;".spec_bytes()
    } else {
        seq![b]
    }
}

/// The text with each of its bytes escaped, in order.
pub open spec fn escape(text: Seq<u8>) -> Seq<u8>
    decreases text.len(),
{
    if text.len() == 0 {
        Seq::empty()
    } else {
        escape(text.drop_last()) + escape_byte(text.last())
    }
}

/// The white space before a tag at the given depth: none in a compact
/// document, a line break and the indentation in an indented one.
pub open spec fn lead(pretty: bool, depth: nat) -> Seq<u8> {
    if pretty {
        seq![NEWLINE] + Seq::new(INDENT_WIDTH as nat * depth, |i: int| SPACE)
    } else {
        Seq::empty()
    }
}

/// `<name>text</name>`, the text escaped.
pub open spec fn element(tag: Tag, text: Seq<u8>) -> Seq<u8> {
    open_tag(tag) + escape(text) + close_tag(tag)
}

pub(crate) proof fn lemma_declaration_len()
    ensures
        declaration().len() == 38,
{
    let s = "<?xml version=\"1.0\" encoding=\"UTF-8\"?>";
    reveal_strlit("<?xml version=\"1.0\" encoding=\"UTF-8\"?>");
    assert(s@.len() == 38);
    assert(vstd::utf8::is_ascii_chars(s@));
    vstd::utf8::is_ascii_chars_encode_utf8(s@);
}

/// What stands for one character of text in a document.
pub open spec fn escape_char(c: char) -> Seq<char> {
    if c == '&' {
        "&amp;"@
    } else if c == '<' {
        "&lt;"@
    } else if c == '>' {
        "&gt;"@
    } else if c == '"' {
        "&quot;"@
    } else {
        seq![c]
    }
}

/// The text with each of its characters escaped, in order.
pub open spec fn escape_text(text: Seq<char>) -> Seq<char>
    decreases text.len(),
{
    if text.len() == 0 {
        Seq::empty()
    } else {
        escape_char(text[0]) + escape_text(text.drop_first())
    }
}

/// The encoding of two texts joined is the two encodings joined.
pub proof fn lemma_encode_concat(a: Seq<char>, b: Seq<char>)
    ensures
        encode_utf8(a + b) == encode_utf8(a) + encode_utf8(b),
    decreases a.len(),
{
    if a.len() == 0 {
        assert(a + b == b);
    } else {
        lemma_encode_concat(a.drop_first(), b);
        assert((a + b).drop_first() == a.drop_first() + b);
        assert((a + b)[0] == a[0]);
    }
}

proof fn lemma_ascii_byte(v: u32)
    by (bit_vector)
    requires
        v <= 0x7f,
    ensures
        (v & 0x7f) as u8 == v,
{
}

proof fn lemma_wide_bytes(v: u32)
    by (bit_vector)
    ensures
        0xC0u8 | ((v >> 6) & 0x1F) as u8 >= 0x80,
        0xE0u8 | ((v >> 12) & 0x0F) as u8 >= 0x80,
        0xF0u8 | ((v >> 18) & 0x7) as u8 >= 0x80,
        0x80u8 | (v & 0x3F) as u8 >= 0x80,
        0x80u8 | ((v >> 6) & 0x3F) as u8 >= 0x80,
        0x80u8 | ((v >> 12) & 0x3F) as u8 >= 0x80,
{
}

/// The bytes of one character, escaped, are the bytes of what stands for
/// the character.
proof fn lemma_escape_scalar(c: char)
    ensures
        escape(encode_scalar(c as u32)) == encode_utf8(escape_char(c)),
{
    let v = c as u32;
    let bytes = encode_scalar(v);
    assert(encode_utf8(seq![c]) == bytes) by {
        assert(seq![c].drop_first() == Seq::<char>::empty());
        assert(seq![c][0] == c);
        assert(encode_utf8(Seq::<char>::empty()) == Seq::<u8>::empty());
        assert(bytes + Seq::<u8>::empty() == bytes);
    }
    if has_width_1_encoding(v) {
        lemma_ascii_byte(v);
        let b = leading_byte_width_1(v);
        assert(bytes == seq![b]);
        assert(bytes.drop_last() == Seq::<u8>::empty());
        assert(bytes.last() == b);
        assert(escape(bytes.drop_last()) == Seq::<u8>::empty());
        assert(escape(bytes) == Seq::<u8>::empty() + escape_byte(b));
        assert(escape(bytes) == escape_byte(b));
        assert(b == v);
    } else {
        lemma_wide_bytes(v);
        assert forall|i: int| 0 <= i < bytes.len() implies {
            let b = #[trigger] bytes[i];
            b != AMPERSAND && b != LESS_THAN && b != GREATER_THAN && b != QUOTE
        } by {
            if has_width_2_encoding(v) {
                assert(bytes == seq![leading_byte_width_2(v), last_continuation_byte(v)]);
            } else if has_width_3_encoding(v) {
                assert(bytes == seq![
                    leading_byte_width_3(v),
                    second_last_continuation_byte(v),
                    last_continuation_byte(v),
                ]);
            } else {
                assert(bytes == seq![
                    leading_byte_width_4(v),
                    third_last_continuation_byte(v),
                    second_last_continuation_byte(v),
                    last_continuation_byte(v),
                ]);
            }
        }
        lemma_escape_plain(bytes);
    }
}

/// Escaping goes character by character: a text is written as the encoding
/// of its characters, each replaced by what stands for it. The bytes of a
/// character that takes more than one byte are never mistaken for `&`, `<`,
/// `>` or `"`.
pub proof fn lemma_escape_by_character(text: Seq<char>)
    ensures
        escape(encode_utf8(text)) == encode_utf8(escape_text(text)),
    decreases text.len(),
{
    if text.len() > 0 {
        lemma_escape_by_character(text.drop_first());
        lemma_escape_scalar(text[0]);
        lemma_escape_concat(encode_scalar(text[0] as u32), encode_utf8(text.drop_first()));
        lemma_encode_concat(escape_char(text[0]), escape_text(text.drop_first()));
    }
}

/// The length `len` where it is within `limit`.
pub open spec fn fit(len: int, limit: usize) -> Option<usize> {
    if len <= limit {
        Some(len as usize)
    } else {
        None
    }
}

/// A length that is kept only while it is within `limit`, after `n` more.
pub open spec fn grown(acc: Option<usize>, n: int, limit: usize) -> Option<usize> {
    match acc {
        Some(a) => fit(a + n, limit),
        None => None,
    }
}

/// Adds `n` to a length that is kept only while it is within `limit`.
pub(crate) fn grow(acc: Option<usize>, n: usize, limit: usize) -> (r: Option<usize>)
    ensures
        r == grown(acc, n as int, limit),
{
    match acc {
        Some(a) => if a <= limit && n <= limit - a {
            Some(a + n)
        } else {
            None
        },
        None => None,
    }
}

pub(crate) proof fn lemma_escape_push(text: Seq<u8>, b: u8)
    ensures
        escape(text.push(b)) == escape(text) + escape_byte(b),
{
    assert(text.push(b).drop_last() == text);
}

/// Escaping goes byte by byte: the escape of two texts joined is the two
/// escapes joined.
pub proof fn lemma_escape_concat(a: Seq<u8>, b: Seq<u8>)
    ensures
        escape(a + b) == escape(a) + escape(b),
    decreases b.len(),
{
    if b.len() == 0 {
        assert(a + b == a);
    } else {
        lemma_escape_concat(a, b.drop_last());
        assert((a + b).drop_last() == a + b.drop_last());
        assert((a + b).last() == b.last());
    }
}

/// Text without `&`, `<`, `>` or `"` is written as it is.
pub proof fn lemma_escape_plain(s: Seq<u8>)
    requires
        forall|i: int|
            0 <= i < s.len() ==> {
                let b = #[trigger] s[i];
                b != AMPERSAND && b != LESS_THAN && b != GREATER_THAN && b != QUOTE
            },
    ensures
        escape(s) == s,
    decreases s.len(),
{
    if s.len() > 0 {
        lemma_escape_plain(s.drop_last());
        assert(escape_byte(s.last()) == seq![s.last()]);
        assert(s == s.drop_last() + seq![s.last()]);
    }
}

/// Escaped text holds no `<`, `>` or `"`: nothing in it can end the
/// element that holds it or begin another.
pub proof fn lemma_escape_leaves_no_markup(text: Seq<u8>)
    ensures
        forall|i: int|
            0 <= i < escape(text).len() ==> {
                let b = #[trigger] escape(text)[i];
                b != LESS_THAN && b != GREATER_THAN && b != QUOTE
            },
    decreases text.len(),
{
    if text.len() > 0 {
        lemma_escape_leaves_no_markup(text.drop_last());
        let head = escape(text.drop_last());
        let tail = escape_byte(text.last());
        reveal_strlit("&amp;");
        reveal_strlit("&lt;");
        reveal_strlit("&gt;");
        reveal_strlit("&quot;");
        vstd::utf8::is_ascii_chars_encode_utf8("&amp;"@);
        vstd::utf8::is_ascii_chars_encode_utf8("&lt;"@);
        vstd::utf8::is_ascii_chars_encode_utf8("&gt;"@);
        vstd::utf8::is_ascii_chars_encode_utf8("&quot;"@);
        assert forall|i: int| 0 <= i < escape(text).len() implies {
            let b = #[trigger] escape(text)[i];
            b != LESS_THAN && b != GREATER_THAN && b != QUOTE
        } by {
            if i < head.len() {
                assert(escape(text)[i] == head[i]);
            } else {
                assert(escape(text)[i] == tail[i - head.len()]);
            }
        }
    }
}

/// A byte of text stands in the document as itself or as one of the four
/// entities, and so takes between one and six bytes.
pub proof fn lemma_escape_byte_len(b: u8)
    ensures
        1 <= escape_byte(b).len() <= 6,
{
    reveal_strlit("&amp;");
    reveal_strlit("&lt;");
    reveal_strlit("&gt;");
    reveal_strlit("&quot;");
    vstd::utf8::is_ascii_chars_encode_utf8("&amp;"@);
    vstd::utf8::is_ascii_chars_encode_utf8("&lt;"@);
    vstd::utf8::is_ascii_chars_encode_utf8("&gt;"@);
    vstd::utf8::is_ascii_chars_encode_utf8("&quot;"@);
}

/// The escape of a prefix is no longer than the escape of the whole.
pub(crate) proof fn lemma_escape_prefix_len(text: Seq<u8>, k: int)
    requires
        0 <= k <= text.len(),
    ensures
        escape(text.take(k)).len() <= escape(text).len(),
{
    assert(text == text.take(k) + text.skip(k));
    lemma_escape_concat(text.take(k), text.skip(k));
}

/// The entity or the byte itself that stands for `b`.
fn push_escaped_byte(buf: &mut Vec<u8>, b: u8)
    ensures
        final(buf)@ == old(buf)@ + escape_byte(b),
{
    if b == AMPERSAND {
        append(buf, "&amp;".as_bytes());
    } else if b == LESS_THAN {
        append(buf, "&lt;".as_bytes());
    } else if b == GREATER_THAN {
        append(buf, "&gt;".as_bytes());
    } else if b == QUOTE {
        append(buf, "&quot;".as_bytes());
    } else {
        buf.push(b);
        assert(final(buf)@ == old(buf)@ + seq![b]);
    }
}

/// Appends the escaped text to `buf`.
pub(crate) fn push_escaped(buf: &mut Vec<u8>, text: &[u8])
    ensures
        final(buf)@ == old(buf)@ + escape(text@),
{
    let mut i: usize = 0;
    while i < text.len()
        invariant
            i <= text.len(),
            buf@ == old(buf)@ + escape(text@.take(i as int)),
        decreases text.len() - i,
    {
        push_escaped_byte(buf, text[i]);
        proof {
            assert(text@.take(i + 1) == text@.take(i as int).push(text@[i as int]));
            lemma_escape_push(text@.take(i as int), text@[i as int]);
        }
        i = i + 1;
    }
    assert(text@.take(i as int) == text@);
}

/// The number of bytes that stand for `b`.
fn escaped_byte_len(b: u8) -> (r: usize)
    ensures
        r == escape_byte(b).len(),
{
    if b == AMPERSAND {
        "&amp;".as_bytes().len()
    } else if b == LESS_THAN {
        "&lt;".as_bytes().len()
    } else if b == GREATER_THAN {
        "&gt;".as_bytes().len()
    } else if b == QUOTE {
        "&quot;".as_bytes().len()
    } else {
        1
    }
}

/// Adds the length of the escaped text to `acc`.
pub(crate) fn grow_escaped(acc: Option<usize>, text: &[u8], limit: usize) -> (r: Option<usize>)
    ensures
        r == grown(acc, escape(text@).len() as int, limit),
{
    let mut total = grow(acc, 0, limit);
    let mut i: usize = 0;
    while i < text.len()
        invariant
            i <= text.len(),
            total == grown(acc, escape(text@.take(i as int)).len() as int, limit),
        decreases text.len() - i,
    {
        if total.is_none() {
            proof {
                lemma_escape_prefix_len(text@, i as int);
            }
            return None;
        }
        total = grow(total, escaped_byte_len(text[i]), limit);
        proof {
            assert(text@.take(i + 1) == text@.take(i as int).push(text@[i as int]));
            lemma_escape_push(text@.take(i as int), text@[i as int]);
        }
        i = i + 1;
    }
    assert(text@.take(i as int) == text@);
    total
}

/// Appends the white space that stands before a tag at `depth`.
pub(crate) fn push_lead(buf: &mut Vec<u8>, pretty: bool, depth: usize)
    ensures
        final(buf)@ == old(buf)@ + lead(pretty, depth as nat),
{
    if pretty {
        buf.push(NEWLINE);
        let mut i: usize = 0;
        while i < depth
            invariant
                i <= depth,
                buf@ == old(buf)@ + seq![NEWLINE] + Seq::new(
                    INDENT_WIDTH as nat * i as nat,
                    |k: int| SPACE,
                ),
            decreases depth - i,
        {
            buf.push(SPACE);
            buf.push(SPACE);
            i = i + 1;
        }
        assert(buf@ == old(buf)@ + (seq![NEWLINE] + Seq::new(
            INDENT_WIDTH as nat * depth as nat,
            |k: int| SPACE,
        )));
    } else {
        assert(buf@ == old(buf)@ + Seq::<u8>::empty());
    }
}

/// Adds the length of the white space before a tag at `depth` to `acc`.
pub(crate) fn grow_lead(acc: Option<usize>, pretty: bool, depth: usize, limit: usize) -> (r: Option<
    usize,
>)
    ensures
        r == grown(acc, lead(pretty, depth as nat).len() as int, limit),
{
    if pretty {
        grow(grow(grow(acc, 1, limit), depth, limit), depth, limit)
    } else {
        grow(acc, 0, limit)
    }
}

/// Appends `<name>`.
pub(crate) fn push_open_tag(buf: &mut Vec<u8>, tag: Tag)
    ensures
        final(buf)@ == old(buf)@ + open_tag(tag),
{
    append(buf, "<".as_bytes());
    append(buf, tag.as_str().as_bytes());
    append(buf, ">".as_bytes());
}

/// Appends `</name>`.
pub(crate) fn push_close_tag(buf: &mut Vec<u8>, tag: Tag)
    ensures
        final(buf)@ == old(buf)@ + close_tag(tag),
{
    append(buf, "</".as_bytes());
    append(buf, tag.as_str().as_bytes());
    append(buf, ">".as_bytes());
}

/// Appends `<name xmlns="...">`.
pub(crate) fn push_root_tag(buf: &mut Vec<u8>, tag: Tag)
    ensures
        final(buf)@ == old(buf)@ + root_tag(tag),
{
    append(buf, "<".as_bytes());
    append(buf, tag.as_str().as_bytes());
    append(buf, " xmlns=\"http://www.sitemaps.org/schemas/sitemap/0.9\">".as_bytes());
}

/// Adds the length of `<name>` to `acc`.
pub(crate) fn grow_open_tag(acc: Option<usize>, tag: Tag, limit: usize) -> (r: Option<usize>)
    ensures
        r == grown(acc, open_tag(tag).len() as int, limit),
{
    let opened = grow(acc, "<".as_bytes().len(), limit);
    let named = grow(opened, tag.as_str().as_bytes().len(), limit);
    grow(named, ">".as_bytes().len(), limit)
}

/// Adds the length of `</name>` to `acc`.
pub(crate) fn grow_close_tag(acc: Option<usize>, tag: Tag, limit: usize) -> (r: Option<usize>)
    ensures
        r == grown(acc, close_tag(tag).len() as int, limit),
{
    let opened = grow(acc, "</".as_bytes().len(), limit);
    let named = grow(opened, tag.as_str().as_bytes().len(), limit);
    grow(named, ">".as_bytes().len(), limit)
}

/// Adds the length of `<name xmlns="...">` to `acc`.
pub(crate) fn grow_root_tag(acc: Option<usize>, tag: Tag, limit: usize) -> (r: Option<usize>)
    ensures
        r == grown(acc, root_tag(tag).len() as int, limit),
{
    let opened = grow(acc, "<".as_bytes().len(), limit);
    let named = grow(opened, tag.as_str().as_bytes().len(), limit);
    grow(named, " xmlns=\"http://www.sitemaps.org/schemas/sitemap/0.9\">".as_bytes().len(), limit)
}

/// Adds the length of `<name>text</name>` to `acc`.
pub(crate) fn grow_element(acc: Option<usize>, tag: Tag, text: &[u8], limit: usize) -> (r: Option<
    usize,
>)
    ensures
        r == grown(acc, element(tag, text@).len() as int, limit),
{
    grow_close_tag(grow_escaped(grow_open_tag(acc, tag, limit), text, limit), tag, limit)
}

/// Appends `<name>text</name>`, the text escaped.
pub(crate) fn push_element(buf: &mut Vec<u8>, tag: Tag, text: &[u8])
    ensures
        final(buf)@ == old(buf)@ + element(tag, text@),
{
    push_open_tag(buf, tag);
    push_escaped(buf, text);
    push_close_tag(buf, tag);
}

} // verus!
