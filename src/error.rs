//! The failures of one scrape, one tag per stage.

use vstd::prelude::*;

verus! {

/// Any of the many errors that can occur while scraping data from a profile page.
#[derive(Debug, Clone, Copy, PartialEq, Eq, Hash, Structural)]
pub enum Error {
    /// The HTTP client could not be built.
    CreateClient,
    /// The profile page could not be requested.
    GetProfile,
    /// The body of the profile page could not be read as text.
    ParseProfile,
    /// The selector of the description tag did not compile.
    ParseSelector,
    /// No element matches the selector of the description tag.
    FindSeo,
    /// The description tag has no `content` attribute.
    GetSeoContent,
    /// A count fragment holds no space after its number.
    SplitSeoContent,
    /// A count is not a decimal `u64`.
    ParseSeoData,
    /// The description text holds no `-`.
    InvalidSeoContent,
    /// Fewer than three counts were found.
    NotEnoughSeoData,
}

/// The text that reports `e`.
pub open spec fn error_text(e: Error) -> Seq<char> {
    match e {
        Error::CreateClient => "failed to create HTTP client"@,
        Error::GetProfile => "failed to fetch user profile"@,
        Error::ParseProfile => "failed to parse user profile"@,
        Error::ParseSelector => "failed to parse selector pointing to SEO tag; this shouldn't happen"@,
        Error::FindSeo => "failed to find SEO tag using selector"@,
        Error::GetSeoContent => "failed to get the SEO tag's content attribute"@,
        Error::SplitSeoContent => "failed to split the SEO tag's content in two"@,
        Error::ParseSeoData => "failed to parse data in the SEO tag"@,
        Error::InvalidSeoContent => "invalid SEO content"@,
        Error::NotEnoughSeoData => "not enough SEO data"@,
    }
}

impl Error {
    /// The text that reports this error.
    pub fn message(&self) -> (r: String)
        ensures
            r@ == error_text(*self),
    {
        let text = match self {
            Error::CreateClient => "failed to create HTTP client",
            Error::GetProfile => "failed to fetch user profile",
            Error::ParseProfile => "failed to parse user profile",
            Error::ParseSelector => "failed to parse selector pointing to SEO tag; this shouldn't happen",
            Error::FindSeo => "failed to find SEO tag using selector",
            Error::GetSeoContent => "failed to get the SEO tag's content attribute",
            Error::SplitSeoContent => "failed to split the SEO tag's content in two",
            Error::ParseSeoData => "failed to parse data in the SEO tag",
            Error::InvalidSeoContent => "invalid SEO content",
            Error::NotEnoughSeoData => "not enough SEO data",
        };
        String::from_str(text)
    }
}

} // verus!
