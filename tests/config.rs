use instascrape::config::parse_interval;
use instascrape::poll::Error;
use std::time::Duration;

#[test]
fn validate_parse_interval() {
    assert_eq!(Duration::from_secs(678), Duration::from_secs(parse_interval("678").unwrap()));
}

#[test]
fn interval_must_be_a_number() {
    assert_eq!(parse_interval("ten"), Err(Error::ParseInterval));
    assert_eq!(parse_interval(""), Err(Error::ParseInterval));
    assert_eq!(parse_interval("-3"), Err(Error::ParseInterval));
    assert_eq!(parse_interval("0"), Ok(0));
}
