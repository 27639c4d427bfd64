//! The monitor's configuration, and the interval as it is written on a command line.

use crate::counts::chars_of;
use crate::poll::Error;
use crate::text::{parse_decimal, parse_u64};
use vstd::prelude::*;

verus! {

/// The scraper's configuration.
#[derive(Debug, Clone)]
pub struct Config {
    /// The user to scrape data off of.
    pub user: String,
    /// The update interval in seconds.
    pub interval: u64,
}

/// A configuration as its contracts see it.
pub struct ConfigView {
    pub user: Seq<char>,
    pub interval: u64,
}

impl View for Config {
    type V = ConfigView;

    open spec fn view(&self) -> ConfigView {
        ConfigView { user: self.user@, interval: self.interval }
    }
}

/// Parses an interval given in seconds.
pub fn parse_interval(src: &str) -> (r: Result<u64, Error>)
    ensures
        r == match parse_u64(src@) {
            Some(secs) => Ok::<u64, Error>(secs),
            None => Err(Error::ParseInterval),
        },
{
    let chars = chars_of(src);
    assert(chars@.subrange(0, chars@.len() as int) =~= src@);
    match parse_decimal(&chars, 0, chars.len()) {
        Some(secs) => Ok(secs),
        None => Err(Error::ParseInterval),
    }
}

} // verus!
