use crate::changefreq::Changefreq;
use crate::convert::converts;
use crate::document::{entry, optional, push_optional, text_of, views, Field};
use crate::markup::Tag;
use crate::lastmod::{is_lastmod, Lastmod};
use crate::loc::Loc;
use crate::priority::{is_priority, Priority};
use crate::sitemap_writer::Error;
use vstd::prelude::*;
use vstd::utf8::encode_utf8;

verus! {

/// What an entry for a page holds.
pub ghost struct UrlView {
    pub loc: Seq<char>,
    pub lastmod: Option<Seq<char>>,
    pub changefreq: Option<Changefreq>,
    pub priority: Option<Seq<char>>,
}

impl UrlView {
    /// Every field that was given holds text that its validator accepted.
    pub open spec fn valid(self) -> bool {
        &&& self.lastmod matches Some(t) ==> is_lastmod(encode_utf8(t))
        &&& self.priority matches Some(t) ==> is_priority(encode_utf8(t))
    }
}

/// An entry for a page: its location, and what else is known of it. Each
/// field is checked when it is set.
pub struct Url {
    pub(crate) loc: String,
    pub(crate) lastmod: Option<String>,
    pub(crate) changefreq: Option<Changefreq>,
    pub(crate) priority: Option<String>,
}

impl View for Url {
    type V = UrlView;

    closed spec fn view(&self) -> UrlView {
        UrlView {
            loc: self.loc@,
            lastmod: match self.lastmod {
                Some(t) => Some(t@),
                None => None,
            },
            changefreq: self.changefreq,
            priority: match self.priority {
                Some(t) => Some(t@),
                None => None,
            },
        }
    }
}

/// The children of a `url` entry, in the order of the protocol: `loc`,
/// then `lastmod`, `changefreq` and `priority`, each only if it was set.
pub open spec fn url_fields(u: UrlView) -> Seq<(Tag, Seq<u8>)> {
    seq![(Tag::Loc, encode_utf8(u.loc))] + optional(Tag::Lastmod, u.lastmod) + optional(
        Tag::Changefreq,
        match u.changefreq {
            Some(c) => Some(c.text()),
            None => None,
        },
    ) + optional(Tag::Priority, u.priority)
}

/// A `url` entry as it stands in a document.
pub open spec fn url_entry(pretty: bool, u: UrlView) -> Seq<u8> {
    entry(pretty, Tag::Url, url_fields(u))
}

impl Url {
    #[verifier::type_invariant]
    spec fn fields_valid(self) -> bool {
        self@.valid()
    }

    /// An entry with the given location and nothing else.
    pub fn loc<S: TryInto<Loc>>(loc: S) -> (r: Result<Url, Error>)
        ensures
            exists|c: Result<Loc, S::Error>| #[trigger]
                converts(loc, c) && match c {
                    Ok(l) => r matches Ok(u) && u@ == (UrlView {
                        loc: l@,
                        lastmod: None,
                        changefreq: None,
                        priority: None,
                    }),
                    Err(_) => r matches Err(Error::InvalidLoc),
                },
            r matches Ok(u) ==> u@.valid(),
    {
        let c = loc.try_into();
        assert(converts(loc, c));
        match c {
            Ok(l) => Ok(
                Url { loc: l.into_inner(), lastmod: None, changefreq: None, priority: None },
            ),
            Err(_) => Err(Error::InvalidLoc),
        }
    }

    /// The entry with its change frequency set.
    pub fn changefreq<S: TryInto<Changefreq>>(self, s: S) -> (r: Result<Url, Error>)
        ensures
            exists|c: Result<Changefreq, S::Error>| #[trigger]
                converts(s, c) && match c {
                    Ok(f) => r matches Ok(u) && u@ == (UrlView { changefreq: Some(f), ..self@ }),
                    Err(_) => r matches Err(Error::InvalidChangefreq),
                },
            r matches Ok(u) ==> u@.valid(),
    {
        proof {
            use_type_invariant(&self);
        }
        let mut url = self;
        let c = s.try_into();
        assert(converts(s, c));
        match c {
            Ok(f) => {
                url.changefreq = Some(f);
                Ok(url)
            },
            Err(_) => Err(Error::InvalidChangefreq),
        }
    }

    /// The entry with its date of last modification set.
    pub fn lastmod<S: TryInto<Lastmod>>(self, s: S) -> (r: Result<Url, Error>)
        ensures
            exists|c: Result<Lastmod, S::Error>| #[trigger]
                converts(s, c) && match c {
                    Ok(l) => r matches Ok(u) && u@ == (UrlView { lastmod: Some(l@), ..self@ }),
                    Err(_) => r matches Err(Error::InvalidLastmod),
                },
            r matches Ok(u) ==> u@.valid(),
    {
        proof {
            use_type_invariant(&self);
        }
        let mut url = self;
        let c = s.try_into();
        assert(converts(s, c));
        match c {
            Ok(l) => {
                url.lastmod = Some(l.into_inner());
                Ok(url)
            },
            Err(_) => Err(Error::InvalidLastmod),
        }
    }

    /// The entry with its priority set.
    pub fn priority<S: TryInto<Priority>>(self, s: S) -> (r: Result<Url, Error>)
        ensures
            exists|c: Result<Priority, S::Error>| #[trigger]
                converts(s, c) && match c {
                    Ok(p) => r matches Ok(u) && u@ == (UrlView { priority: Some(p@), ..self@ }),
                    Err(_) => r matches Err(Error::InvalidPriority),
                },
            r matches Ok(u) ==> u@.valid(),
    {
        proof {
            use_type_invariant(&self);
        }
        let mut url = self;
        let c = s.try_into();
        assert(converts(s, c));
        match c {
            Ok(p) => {
                url.priority = Some(p.into_inner());
                Ok(url)
            },
            Err(_) => Err(Error::InvalidPriority),
        }
    }

    /// The children of a `url` entry.
    pub(crate) fn fields<'a>(&'a self) -> (r: Vec<Field<'a>>)
        ensures
            views(r@) == url_fields(self@),
    {
        let mut fields: Vec<Field<'a>> = Vec::new();
        assert(views(fields@) =~= Seq::<(Tag, Seq<u8>)>::empty());
        push_optional(&mut fields, Tag::Loc, Some(self.loc.as_str()));
        assert(views(fields@) =~= seq![(Tag::Loc, encode_utf8(self@.loc))]);
        push_optional(&mut fields, Tag::Lastmod, text_of(&self.lastmod));
        let frequency: Option<&'static str> = match self.changefreq {
            Some(c) => Some(c.as_ref()),
            None => None,
        };
        push_optional(&mut fields, Tag::Changefreq, frequency);
        push_optional(&mut fields, Tag::Priority, text_of(&self.priority));
        fields
    }
}

} // verus!
