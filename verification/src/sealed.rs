use vstd::prelude::*;

verus! {

/// Closes the set of types that a writer takes for an entry: only this
/// crate can name the trait, so only this crate can add to the set.
pub trait Sealed {

}

impl Sealed for crate::url::Url {

}

impl Sealed for crate::sitemap::Sitemap {

}

impl<'a> Sealed for &'a str {

}

} // verus!
