//! Verified core of a follower-count monitor: it recovers three counters from the
//! description metadata of a profile page, formats log records and notifications,
//! and decides each step of the polling loop.

pub mod config;
pub mod counts;
pub mod error;
pub mod extract;
pub mod poll;
pub mod record;
pub mod scraper;
pub mod text;

pub use config::Config;
pub use counts::{parse_counts, Data};
pub use error::Error;
pub use extract::scrape;
pub use scraper::{Scraper, ScraperBuilder};
