//! The metadata extractor: the `content` attribute of the page's description tag, found
//! through the `scraper` crate, and the counts read from it.

use crate::counts::{description_counts, parse_counts, Data};
use crate::error::Error;
use scraper::{Html, Selector};
use vstd::prelude::*;

verus! {

/// The selector of the description tag.
pub const DESCRIPTION_SELECTOR: &'static str = "meta[property=\"og:description\"]";

/// The attribute of the description tag that holds the counts.
pub const CONTENT_ATTRIBUTE: &'static str = "content";

/// Whether `scraper` compiles `selector` into a selector group.
pub uninterp spec fn selector_compiles(selector: Seq<char>) -> bool;

/// What `scraper` finds in the HTML document `page`: `None` where no element matches
/// `selector`, else the value of attribute `attr` of the first element that matches, in
/// document order, or `None` where that element lacks it.
pub uninterp spec fn first_match_attr(page: Seq<char>, selector: Seq<char>, attr: Seq<char>) -> Option<
    Option<Seq<char>>,
>;

/// The outcome of looking up one attribute of the first element that a selector matches.
#[derive(Debug, Clone, PartialEq, Eq)]
pub enum Lookup {
    /// The selector did not compile.
    BadSelector,
    /// No element matches the selector.
    NoMatch,
    /// The first element that matches lacks the attribute.
    NoAttribute,
    /// The value of the attribute.
    Found(String),
}

/// Relies on `scraper::Selector::parse` to compile `selector`, `scraper::Html::parse_document`
/// to parse `page`, `Html::select(..).next()` for the first element that matches in document
/// order, and `ElementRef::attr` for its attribute. Each depends on its arguments alone.
#[verifier::external_body]
fn select_first_attr(page: &str, selector: &str, attr: &str) -> (r: Lookup)
    ensures
        !selector_compiles(selector@) ==> r is BadSelector,
        selector_compiles(selector@) ==> match first_match_attr(page@, selector@, attr@) {
            None => r is NoMatch,
            Some(None) => r is NoAttribute,
            Some(Some(v)) => r is Found && r->0@ == v,
        },
{
    let compiled = match Selector::parse(selector) {
        Ok(compiled) => compiled,
        Err(_) => return Lookup::BadSelector,
    };
    let document = Html::parse_document(page);
    let first = document.select(&compiled).next();
    match first {
        None => Lookup::NoMatch,
        Some(element) => match element.attr(attr) {
            None => Lookup::NoAttribute,
            Some(value) => Lookup::Found(value.to_string()),
        },
    }
}

/// What a lookup of the description's content gives.
pub open spec fn lookup_counts(lookup: Lookup) -> Result<Data, Error> {
    match lookup {
        Lookup::BadSelector => Err(Error::ParseSelector),
        Lookup::NoMatch => Err(Error::FindSeo),
        Lookup::NoAttribute => Err(Error::GetSeoContent),
        Lookup::Found(content) => description_counts(content@),
    }
}

/// The counts that a lookup of the description's content gives.
pub fn counts_from_lookup(lookup: &Lookup) -> (r: Result<Data, Error>)
    ensures
        r == lookup_counts(*lookup),
{
    match lookup {
        Lookup::BadSelector => Err(Error::ParseSelector),
        Lookup::NoMatch => Err(Error::FindSeo),
        Lookup::NoAttribute => Err(Error::GetSeoContent),
        Lookup::Found(content) => parse_counts(content.as_str()),
    }
}

/// What scraping the profile page `page` gives.
pub open spec fn page_counts(page: Seq<char>) -> Result<Data, Error> {
    if !selector_compiles(DESCRIPTION_SELECTOR@) {
        Err(Error::ParseSelector)
    } else {
        match first_match_attr(page, DESCRIPTION_SELECTOR@, CONTENT_ATTRIBUTE@) {
            None => Err(Error::FindSeo),
            Some(None) => Err(Error::GetSeoContent),
            Some(Some(content)) => description_counts(content),
        }
    }
}

/// Scrapes the counts out of the HTML text of a profile page.
pub fn scrape(page: &str) -> (r: Result<Data, Error>)
    ensures
        r == page_counts(page@),
{
    let lookup = select_first_attr(page, DESCRIPTION_SELECTOR, CONTENT_ATTRIBUTE);
    counts_from_lookup(&lookup)
}

} // verus!
