use crate::convert::converts;
use crate::document::{entry, optional, push_optional, text_of, views, Field};
use crate::lastmod::{is_lastmod, Lastmod};
use crate::loc::Loc;
use crate::markup::Tag;
use crate::sitemap_index_writer::Error;
use vstd::prelude::*;
use vstd::utf8::encode_utf8;

verus! {

/// What an entry for a sitemap holds.
pub ghost struct SitemapView {
    pub loc: Seq<char>,
    pub lastmod: Option<Seq<char>>,
}

impl SitemapView {
    /// The date, if one was given, holds text that its validator accepted.
    pub open spec fn valid(self) -> bool {
        self.lastmod matches Some(t) ==> is_lastmod(encode_utf8(t))
    }
}

/// An entry of a sitemap index: the location of a sitemap, and the date of
/// its last modification if that is known. Each field is checked when it is
/// set.
pub struct Sitemap {
    pub(crate) loc: String,
    pub(crate) lastmod: Option<String>,
}

impl View for Sitemap {
    type V = SitemapView;

    closed spec fn view(&self) -> SitemapView {
        SitemapView {
            loc: self.loc@,
            lastmod: match self.lastmod {
                Some(t) => Some(t@),
                None => None,
            },
        }
    }
}

/// The children of a `sitemap` entry, in the order of the protocol: `loc`,
/// then `lastmod` if it was set.
pub open spec fn sitemap_fields(s: SitemapView) -> Seq<(Tag, Seq<u8>)> {
    seq![(Tag::Loc, encode_utf8(s.loc))] + optional(Tag::Lastmod, s.lastmod)
}

/// A `sitemap` entry as it stands in a document.
pub open spec fn sitemap_entry(pretty: bool, s: SitemapView) -> Seq<u8> {
    entry(pretty, Tag::Sitemap, sitemap_fields(s))
}

impl Sitemap {
    #[verifier::type_invariant]
    spec fn fields_valid(self) -> bool {
        self@.valid()
    }

    /// An entry with the given location and nothing else.
    pub fn loc<S: TryInto<Loc>>(loc: S) -> (r: Result<Sitemap, Error>)
        ensures
            exists|c: Result<Loc, S::Error>| #[trigger]
                converts(loc, c) && match c {
                    Ok(l) => r matches Ok(s) && s@ == (SitemapView { loc: l@, lastmod: None }),
                    Err(_) => r matches Err(Error::InvalidLoc),
                },
            r matches Ok(s) ==> s@.valid(),
    {
        let c = loc.try_into();
        assert(converts(loc, c));
        match c {
            Ok(l) => Ok(Sitemap { loc: l.into_inner(), lastmod: None }),
            Err(_) => Err(Error::InvalidLoc),
        }
    }

    /// The entry with its date of last modification set.
    pub fn lastmod<S: TryInto<Lastmod>>(self, s: S) -> (r: Result<Sitemap, Error>)
        ensures
            exists|c: Result<Lastmod, S::Error>| #[trigger]
                converts(s, c) && match c {
                    Ok(l) => r matches Ok(m) && m@ == (SitemapView { lastmod: Some(l@), ..self@ }),
                    Err(_) => r matches Err(Error::InvalidLastmod),
                },
            r matches Ok(m) ==> m@.valid(),
    {
        proof {
            use_type_invariant(&self);
        }
        let mut sitemap = self;
        let c = s.try_into();
        assert(converts(s, c));
        match c {
            Ok(l) => {
                sitemap.lastmod = Some(l.into_inner());
                Ok(sitemap)
            },
            Err(_) => Err(Error::InvalidLastmod),
        }
    }

    /// The children of a `sitemap` entry.
    pub(crate) fn fields<'a>(&'a self) -> (r: Vec<Field<'a>>)
        ensures
            views(r@) == sitemap_fields(self@),
    {
        let mut fields: Vec<Field<'a>> = Vec::new();
        assert(views(fields@) =~= Seq::<(Tag, Seq<u8>)>::empty());
        push_optional(&mut fields, Tag::Loc, Some(self.loc.as_str()));
        assert(views(fields@) =~= seq![(Tag::Loc, encode_utf8(self@.loc))]);
        push_optional(&mut fields, Tag::Lastmod, text_of(&self.lastmod));
        fields
    }
}

} // verus!
