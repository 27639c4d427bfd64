use instascrape::record::{failure_note, record_entry, record_line, success_note};

#[test]
fn record_line_holds_stamp_and_followers() {
    assert_eq!(record_line("2020-05-01 12:00:00 UTC", 114), "2020-05-01 12:00:00 UTC,114\n");
    assert_eq!(record_entry("t", 0), "t,0");
    assert_eq!(record_entry("t", u64::MAX), "t,18446744073709551615");
    assert_eq!(record_entry("", 1200), ",1200");
}

#[test]
fn notes_wrap_their_text() {
    assert_eq!(success_note("t,5"), "```rust\nt,5```");
    assert_eq!(failure_note("failed to fetch user profile"), "```error: failed to fetch user profile```");
}
