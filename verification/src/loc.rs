use vstd::prelude::*;
use vstd::std_specs::convert::TryFromSpecImpl;

verus! {

/// The sitemap protocol asks that a location have fewer characters than
/// this.
pub const LOC_LENGTH_LIMIT: usize = 2048;

/// The text is too long for a location.
#[derive(Clone, Copy, Debug, PartialEq, Eq)]
pub struct Error;

/// The content of a `loc` element: the address of a page or of a sitemap.
#[derive(Debug, PartialEq, Eq)]
pub struct Loc {
    text: String,
}

impl Clone for Loc {
    fn clone(&self) -> (r: Self)
        ensures
            r@ == self@,
    {
        Loc { text: self.text.clone() }
    }
}

impl View for Loc {
    type V = Seq<char>;

    closed spec fn view(&self) -> Seq<char> {
        self.text@
    }
}

impl Loc {
    /// The text of the address.
    pub fn into_inner(self) -> (r: String)
        ensures
            r@ == self@,
    {
        self.text
    }

    /// Takes the text that a URL type writes for a value of its own,
    /// whatever its length. This is the way in for the adapters of such
    /// types, which stand outside this crate: the text is taken on their
    /// word that it is a valid URL, and nothing of it is checked here.
    pub fn from_url_text(text: String) -> (r: Loc)
        ensures
            r@ == text@,
    {
        Loc { text }
    }
}

impl<'a> TryFrom<&'a str> for Loc {
    type Error = Error;

    /// Takes the text for an address as it is, unless it is too long. The
    /// text is not read as a URL: what is escaped when it is written is all
    /// that is done to it.
    fn try_from(value: &'a str) -> (r: Result<Loc, Error>)
        ensures
            r is Ok <==> value@.len() < LOC_LENGTH_LIMIT,
            r matches Ok(l) ==> l@ == value@,
    {
        if value.unicode_len() >= LOC_LENGTH_LIMIT {
            return Err(Error);
        }
        Ok(Loc { text: value.to_owned() })
    }
}

/// The conversion is described by the `ensures` of `try_from`, over the
/// view of the value: the text itself has no value in specifications that
/// an equation could name.
impl<'a> TryFromSpecImpl<&'a str> for Loc {
    open spec fn obeys_try_from_spec() -> bool {
        false
    }

    open spec fn try_from_spec(v: &'a str) -> Result<Self, Self::Error> {
        arbitrary()
    }
}

} // verus!
