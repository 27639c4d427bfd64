use instascrape::extract::{counts_from_lookup, Lookup};
use instascrape::{scrape, Data, Error};

fn page(head: &str) -> String {
    format!("<!DOCTYPE html><html><head>{}</head><body><p>profile</p></body></html>", head)
}

#[test]
fn description_tag_is_scraped() {
    let p = page(r#"<meta property="og:description" content="114 Followers, 128 Following, 29 Posts - See Instagram photos and videos from X (@x)">"#);
    assert_eq!(scrape(&p), Ok(Data { followers: 114, following: 128, posts: 29 }));
}

#[test]
fn content_is_trimmed_before_parsing() {
    let p = page(r#"<meta property="og:description" content="   1 Followers, 2 Following, 3 Posts - x   ">"#);
    assert_eq!(scrape(&p), Ok(Data { followers: 1, following: 2, posts: 3 }));
}

#[test]
fn first_matching_tag_wins() {
    let p = page(&[
        r#"<meta property="og:title" content="9 Followers, 9 Following, 9 Posts - x">"#,
        r#"<meta property="og:description" content="1 Followers, 2 Following, 3 Posts - x">"#,
        r#"<meta property="og:description" content="4 Followers, 5 Following, 6 Posts - x">"#,
    ]
    .concat());
    assert_eq!(scrape(&p), Ok(Data { followers: 1, following: 2, posts: 3 }));
}

#[test]
fn missing_description_tag() {
    let p = page(r#"<meta property="og:title" content="1 Followers, 2 Following, 3 Posts - x">"#);
    assert_eq!(scrape(&p), Err(Error::FindSeo));
    assert_eq!(scrape(""), Err(Error::FindSeo));
}

#[test]
fn missing_content_attribute() {
    let p = page(r#"<meta property="og:description" name="x">"#);
    assert_eq!(scrape(&p), Err(Error::GetSeoContent));
}

#[test]
fn malformed_content_is_reported() {
    let p = page(r#"<meta property="og:description" content="no counts here">"#);
    assert_eq!(scrape(&p), Err(Error::InvalidSeoContent));
}

#[test]
fn lookup_outcomes_map_to_errors() {
    assert_eq!(counts_from_lookup(&Lookup::BadSelector), Err(Error::ParseSelector));
    assert_eq!(counts_from_lookup(&Lookup::NoMatch), Err(Error::FindSeo));
    assert_eq!(counts_from_lookup(&Lookup::NoAttribute), Err(Error::GetSeoContent));
    let found = Lookup::Found(String::from("3 Followers, 2 Following, 1 Posts - x"));
    assert_eq!(counts_from_lookup(&found), Ok(Data { followers: 3, following: 2, posts: 1 }));
    let bad = Lookup::Found(String::from("3 Followers - x"));
    assert_eq!(counts_from_lookup(&bad), Err(Error::NotEnoughSeoData));
}

#[test]
fn error_messages() {
    assert_eq!(Error::GetProfile.message(), "failed to fetch user profile");
    assert_eq!(Error::NotEnoughSeoData.message(), "not enough SEO data");
    assert_eq!(Error::InvalidSeoContent.message(), "invalid SEO content");
    assert_eq!(Error::GetSeoContent.message(), "failed to get the SEO tag's content attribute");
}
