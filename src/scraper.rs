//! A scraper for one user's profile: the HTTP client that fetches it, its URL, and the
//! interval between polls; and a builder that makes one from a configuration.

use crate::config::{Config, ConfigView};
use crate::counts::Data;
use crate::error::Error;
use crate::extract::{page_counts, scrape};
use reqwest::Client;
use vstd::prelude::*;

verus! {

/// The user agent that every request of the monitor carries.
pub const USER_AGENT: &'static str = "Instascrape/0.1.0";

/// The start of every profile URL.
pub const PROFILE_URL_BASE: &'static str = "https://www.instagram.com/";

#[verifier::external_type_specification]
#[verifier::external_body]
pub struct ExClient(Client);

/// Relies on reqwest's `ClientBuilder::user_agent` and `ClientBuilder::build`: a client
/// that sends `agent` as its user agent, or nothing where the client cannot be set up
/// (an agent that is no valid header value, a TLS backend that does not start).
#[verifier::external_body]
fn client_with_agent(agent: &str) -> (r: Option<Client>) {
    Client::builder().user_agent(agent).build().ok()
}

/// Relies on `reqwest::Client::clone`: a handle to the same client.
#[verifier::external_body]
fn clone_client(client: &Client) -> (r: Client) {
    client.clone()
}

/// The URL of the profile of `user`.
pub open spec fn profile_url(user: Seq<char>) -> Seq<char> {
    PROFILE_URL_BASE@ + user + seq!['/']
}

/// The URL of the profile of `user`.
pub fn profile_url_of(user: &str) -> (r: String)
    ensures
        r@ == profile_url(user@),
{
    let mut url = String::from_str(PROFILE_URL_BASE);
    url.append(user);
    url.append("/");
    proof {
        reveal_strlit("/");
    }
    url
}

/// A scraper as its contracts see it: the user, the profile URL and the interval in seconds.
pub struct ScraperView {
    pub user: Seq<char>,
    pub url: Seq<char>,
    pub interval: u64,
}

/// An Instagram scraper.
pub struct Scraper {
    /// The HTTP client the scraper will use to fetch the user's profile.
    client: Client,
    /// The user whose profile will be scraped.
    user: String,
    url: String,
    interval: u64,
}

impl View for Scraper {
    type V = ScraperView;

    closed spec fn view(&self) -> ScraperView {
        ScraperView { user: self.user@, url: self.url@, interval: self.interval }
    }
}

impl Scraper {
    /// Creates a scraper for `user`, with a client that carries [`USER_AGENT`]. It has no
    /// interval of its own: the builder takes one from a configuration.
    pub fn new(user: &str) -> (r: Result<Scraper, Error>)
        ensures
            r matches Ok(s) ==> s@.user == user@ && s@.url == profile_url(user@) && s@.interval
                == 0,
            r matches Err(e) ==> e == Error::CreateClient,
    {
        match client_with_agent(USER_AGENT) {
            Some(client) => Ok(
                Scraper {
                    client,
                    user: String::from_str(user),
                    url: profile_url_of(user),
                    interval: 0,
                },
            ),
            None => Err(Error::CreateClient),
        }
    }

    /// The client that fetches the profile.
    pub fn client(&self) -> &Client {
        &self.client
    }

    /// The user whose profile is scraped.
    pub fn user(&self) -> (r: &str)
        ensures
            r@ == self@.user,
    {
        self.user.as_str()
    }

    /// The URL of the profile.
    pub fn url(&self) -> (r: &str)
        ensures
            r@ == self@.url,
    {
        self.url.as_str()
    }

    /// The interval between polls, in seconds.
    pub fn interval(&self) -> (r: u64)
        ensures
            r == self@.interval,
    {
        self.interval
    }

    /// Scrapes the counts out of `page`, the text fetched from [`Scraper::url`].
    pub fn scrape(&self, page: &str) -> (r: Result<Data, Error>)
        ensures
            r == page_counts(page@),
    {
        scrape(page)
    }
}

/// Helper for creating a scraper.
pub struct ScraperBuilder {
    client: Option<Client>,
    config: Option<Config>,
}

impl ScraperBuilder {
    /// A builder with neither client nor configuration.
    pub fn new() -> (r: Self)
        ensures
            !r.has_client(),
            r.config_spec() is None,
    {
        ScraperBuilder { client: None, config: None }
    }

    pub closed spec fn has_client(&self) -> bool {
        self.client is Some
    }

    /// The configuration given so far, as user and interval.
    pub closed spec fn config_spec(&self) -> Option<ConfigView> {
        match self.config {
            Some(c) => Some(c@),
            None => None,
        }
    }

    /// Adds a client to the scraper.
    pub fn client(&mut self, client: Client) -> (r: &mut Self)
        ensures
            r.has_client(),
            r.config_spec() == old(self).config_spec(),
            *final(self) == *final(r),
    {
        self.client = Some(client);
        self
    }

    /// Adds configuration to the scraper.
    pub fn config(&mut self, config: Config) -> (r: &mut Self)
        ensures
            r.has_client() == old(self).has_client(),
            r.config_spec() == Some(config@),
            *final(self) == *final(r),
    {
        self.config = Some(config);
        self
    }

    /// Builds the scraper from the client and the configuration.
    pub fn build(&self) -> (r: Scraper)
        requires
            self.has_client(),
            self.config_spec() is Some,
        ensures
            r@.user == self.config_spec()->0.user,
            r@.url == profile_url(self.config_spec()->0.user),
            r@.interval == self.config_spec()->0.interval,
    {
        let client = clone_client(self.client.as_ref().unwrap());
        let config = self.config.as_ref().unwrap();
        Scraper {
            client,
            user: config.user.clone(),
            url: profile_url_of(config.user.as_str()),
            interval: config.interval,
        }
    }
}

} // verus!
