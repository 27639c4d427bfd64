use instascrape::poll::{Action, Error, Event, Phase, Poller};
use instascrape::record::record_entry;
use instascrape::{Data, Error as ScrapeError};

const GOOD_PAGE: &str = r#"<html><head><meta property="og:description" content="114 Followers, 128 Following, 29 Posts - See Instagram photos and videos from X (@x)"></head></html>"#;

fn started(interval: u64, webhook: bool) -> Poller {
    let mut p = Poller::new(interval, webhook);
    assert_eq!(p.handle(Event::Started), Action::Fetch);
    p
}

#[test]
fn failed_fetch_is_reported_without_record() {
    let mut p = started(10, true);
    let a = p.handle(Event::Fetched(Err(ScrapeError::GetProfile)));
    assert_eq!(
        a,
        Action::Report {
            text: String::from("failed to fetch user profile"),
            failed: true,
            note: Some(String::from("```error: failed to fetch user profile```")),
        }
    );
    assert_eq!(p.phase, Phase::Reporting);
    assert_eq!(p.handle(Event::Reported(Ok(()))), Action::Sleep(10));
    assert_eq!(p.handle(Event::Slept), Action::Fetch);
}

#[test]
fn failed_fetch_without_webhook_is_only_logged() {
    let mut p = started(5, false);
    let a = p.handle(Event::Fetched(Err(ScrapeError::ParseProfile)));
    assert_eq!(
        a,
        Action::Report { text: String::from("failed to parse user profile"), failed: true, note: None }
    );
}

#[test]
fn missing_content_attribute_writes_no_record() {
    let mut p = started(10, true);
    let page = r#"<html><head><meta property="og:description"></head></html>"#;
    let a = p.handle(Event::Fetched(Ok(String::from(page))));
    assert_eq!(
        a,
        Action::Report {
            text: String::from("failed to get the SEO tag's content attribute"),
            failed: true,
            note: Some(String::from("```error: failed to get the SEO tag's content attribute```")),
        }
    );
    assert_eq!(p.handle(Event::Reported(Ok(()))), Action::Sleep(10));
}

#[test]
fn successful_cycle_records_then_reports_then_sleeps() {
    let mut p = started(10, true);
    let a = p.handle(Event::Fetched(Ok(String::from(GOOD_PAGE))));
    assert_eq!(a, Action::Persist(Data { followers: 114, following: 128, posts: 29 }));
    assert_eq!(p.phase, Phase::Persisting);
    let entry = record_entry("2020-05-01 12:00:00 UTC", 114);
    let a = p.handle(Event::Persisted(Ok(entry.clone())));
    assert_eq!(
        a,
        Action::Report {
            text: entry,
            failed: false,
            note: Some(String::from("```rust\n2020-05-01 12:00:00 UTC,114```")),
        }
    );
    assert_eq!(p.handle(Event::Reported(Ok(()))), Action::Sleep(10));
    assert_eq!(p.phase, Phase::Sleeping);
}

#[test]
fn two_successful_cycles_sleep_the_interval_between_records() {
    let mut p = started(10, false);
    let mut actions = Vec::new();
    for stamp in ["t0", "t1"] {
        actions.push(p.handle(Event::Fetched(Ok(String::from(GOOD_PAGE)))));
        actions.push(p.handle(Event::Persisted(Ok(record_entry(stamp, 114)))));
        actions.push(p.handle(Event::Reported(Ok(()))));
        actions.push(p.handle(Event::Slept));
    }
    let records: Vec<usize> = (0..actions.len()).filter(|&i| matches!(actions[i], Action::Persist(_))).collect();
    assert_eq!(records.len(), 2);
    assert!(actions[records[0]..records[1]].contains(&Action::Sleep(10)));
}

#[test]
fn write_failure_is_reported_and_loop_goes_on() {
    let mut p = started(3, true);
    p.handle(Event::Fetched(Ok(String::from(GOOD_PAGE))));
    let a = p.handle(Event::Persisted(Err(Error::WriteOutput)));
    assert_eq!(
        a,
        Action::Report {
            text: String::from("failed to write to output file"),
            failed: true,
            note: Some(String::from("```error: failed to write to output file```")),
        }
    );
    assert_eq!(p.handle(Event::Reported(Ok(()))), Action::Sleep(3));
}

#[test]
fn notification_failure_is_logged_and_loop_goes_on() {
    let mut p = started(3, true);
    p.handle(Event::Fetched(Err(ScrapeError::GetProfile)));
    let a = p.handle(Event::Reported(Err(Error::SendMessageThroughWebhook)));
    assert_eq!(
        a,
        Action::Report {
            text: String::from("failed to send message through Discord webhook"),
            failed: true,
            note: None,
        }
    );
    assert_eq!(p.phase, Phase::Reporting);
    assert_eq!(p.handle(Event::Reported(Ok(()))), Action::Sleep(3));
}

#[test]
fn loop_expects_only_its_events() {
    let p = Poller::new(1, false);
    assert!(p.expects(&Event::Started));
    assert!(!p.expects(&Event::Slept));
    let p = started(1, false);
    assert!(p.expects(&Event::Fetched(Err(ScrapeError::GetProfile))));
    assert!(!p.expects(&Event::Reported(Ok(()))));
}

#[test]
fn run_errors_wrap_scrape_errors() {
    assert_eq!(Error::from(ScrapeError::FindSeo), Error::Scrape(ScrapeError::FindSeo));
    assert_eq!(Error::Scrape(ScrapeError::FindSeo).message(), "failed to find SEO tag using selector");
    assert_eq!(Error::FlushOutput.message(), "failed to flush output file");
    assert_eq!(Error::OpenOutput.message(), "failed to open output file");
}
