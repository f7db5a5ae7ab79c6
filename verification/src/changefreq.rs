use crate::text::same_text;
use vstd::prelude::*;
use vstd::std_specs::convert::TryFromSpecImpl;

verus! {

/// How often a page is likely to change: the content of a `changefreq`
/// element.
#[derive(Clone, Copy, Debug, PartialEq, Eq, Structural)]
pub enum Changefreq {
    /// `always`
    Always,
    /// `hourly`
    Hourly,
    /// `daily`
    Daily,
    /// `weekly`
    Weekly,
    /// `monthly`
    Monthly,
    /// `yearly`
    Yearly,
    /// `never`
    Never,
}

/// The text is none of the seven values of `changefreq`.
#[derive(Clone, Copy, Debug, PartialEq, Eq, Structural)]
pub struct Error;

/// The value that a text names: one of the seven, written in lower case, or
/// none.
pub open spec fn parse(s: Seq<char>) -> Option<Changefreq> {
    if s == "always"@ {
        Some(Changefreq::Always)
    } else if s == "hourly"@ {
        Some(Changefreq::Hourly)
    } else if s == "daily"@ {
        Some(Changefreq::Daily)
    } else if s == "weekly"@ {
        Some(Changefreq::Weekly)
    } else if s == "monthly"@ {
        Some(Changefreq::Monthly)
    } else if s == "yearly"@ {
        Some(Changefreq::Yearly)
    } else if s == "never"@ {
        Some(Changefreq::Never)
    } else {
        None
    }
}

impl Changefreq {
    /// The text that stands for the value in a document.
    pub open spec fn text(self) -> Seq<char> {
        match self {
            Changefreq::Always => "always"@,
            Changefreq::Hourly => "hourly"@,
            Changefreq::Daily => "daily"@,
            Changefreq::Weekly => "weekly"@,
            Changefreq::Monthly => "monthly"@,
            Changefreq::Yearly => "yearly"@,
            Changefreq::Never => "never"@,
        }
    }

    /// The text that stands for the value in a document.
    pub fn as_ref(&self) -> (r: &'static str)
        ensures
            r@ == self.text(),
    {
        match self {
            Changefreq::Always => "always",
            Changefreq::Hourly => "hourly",
            Changefreq::Daily => "daily",
            Changefreq::Weekly => "weekly",
            Changefreq::Monthly => "monthly",
            Changefreq::Yearly => "yearly",
            Changefreq::Never => "never",
        }
    }
}

impl<'a> TryFrom<&'a str> for Changefreq {
    type Error = Error;

    /// Reads one of the seven values. The match is exact: upper case, white
    /// space or any other text is refused.
    fn try_from(value: &'a str) -> (r: Result<Changefreq, Error>)
        ensures
            r == match parse(value@) {
                Some(c) => Ok::<Changefreq, Error>(c),
                None => Err(Error),
            },
    {
        if same_text(value, "always") {
            Ok(Changefreq::Always)
        } else if same_text(value, "hourly") {
            Ok(Changefreq::Hourly)
        } else if same_text(value, "daily") {
            Ok(Changefreq::Daily)
        } else if same_text(value, "weekly") {
            Ok(Changefreq::Weekly)
        } else if same_text(value, "monthly") {
            Ok(Changefreq::Monthly)
        } else if same_text(value, "yearly") {
            Ok(Changefreq::Yearly)
        } else if same_text(value, "never") {
            Ok(Changefreq::Never)
        } else {
            Err(Error)
        }
    }
}

/// What `try_from` returns, as an equation: `parse` of the text.
impl<'a> TryFromSpecImpl<&'a str> for Changefreq {
    open spec fn obeys_try_from_spec() -> bool {
        true
    }

    open spec fn try_from_spec(v: &'a str) -> Result<Self, Self::Error> {
        match parse(v@) {
            Some(c) => Ok(c),
            None => Err(Error),
        }
    }
}

/// The seven texts differ from one another.
proof fn lemma_texts_differ()
    ensures
        "always"@.len() == 6 && "always"@[0] == 'a',
        "hourly"@.len() == 6 && "hourly"@[0] == 'h',
        "daily"@.len() == 5 && "daily"@[0] == 'd',
        "weekly"@.len() == 6 && "weekly"@[0] == 'w',
        "monthly"@.len() == 7 && "monthly"@[0] == 'm',
        "yearly"@.len() == 6 && "yearly"@[0] == 'y',
        "never"@.len() == 5 && "never"@[0] == 'n',
{
    reveal_strlit("always");
    reveal_strlit("hourly");
    reveal_strlit("daily");
    reveal_strlit("weekly");
    reveal_strlit("monthly");
    reveal_strlit("yearly");
    reveal_strlit("never");
}

/// A value written out and read back is the same value.
pub proof fn lemma_text_round_trip(c: Changefreq)
    ensures
        parse(c.text()) == Some(c),
{
    lemma_texts_differ();
}

/// A text that is read as a value is that value's own text: nothing but the
/// seven texts is accepted, and reading changes nothing.
pub proof fn lemma_parse_is_exact(s: Seq<char>)
    ensures
        parse(s) matches Some(c) ==> c.text() == s,
        parse(s) is None ==> forall|c: Changefreq| c.text() != s,
{
    lemma_texts_differ();
    assert forall|c: Changefreq| parse(s) is None implies c.text() != s by {
        lemma_text_round_trip(c);
    }
}

} // verus!
