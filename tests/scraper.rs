use instascrape::scraper::profile_url_of;
use instascrape::{Config, Data, Scraper, ScraperBuilder};

#[test]
fn profile_url_holds_the_user() {
    assert_eq!(profile_url_of("arcturusrobotics"), "https://www.instagram.com/arcturusrobotics/");
}

#[test]
fn new_scraper_targets_the_user() {
    let s = Scraper::new("foobar").unwrap();
    assert_eq!(s.user(), "foobar");
    assert_eq!(s.url(), "https://www.instagram.com/foobar/");
    assert_eq!(s.interval(), 0);
    let page = r#"<html><head><meta property="og:description" content="1 Followers, 2 Following, 3 Posts - x"></head></html>"#;
    assert_eq!(s.scrape(page), Ok(Data { followers: 1, following: 2, posts: 3 }));
}

#[test]
fn builder_takes_user_and_interval_from_config() {
    let mut b = ScraperBuilder::new();
    b.client(reqwest::Client::new()).config(Config { user: String::from("someone"), interval: 10 });
    let s = b.build();
    assert_eq!(s.user(), "someone");
    assert_eq!(s.url(), "https://www.instagram.com/someone/");
    assert_eq!(s.interval(), 10);
}
