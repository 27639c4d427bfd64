//! The text that one observation leaves behind: the log record and the notifications.

use crate::text::{decimal, push_char, push_decimal};
use vstd::prelude::*;

verus! {

/// One log record without its line end: the timestamp, a comma, the follower count.
pub open spec fn entry_text(stamp: Seq<char>, followers: u64) -> Seq<char> {
    stamp + seq![','] + decimal(followers as nat)
}

/// The notification that reports a record.
pub open spec fn success_note_text(entry: Seq<char>) -> Seq<char> {
    "```rust\n"@ + entry + "```"@
}

/// The notification that reports a failure.
pub open spec fn failure_note_text(text: Seq<char>) -> Seq<char> {
    "```error: "@ + text + "```"@
}

/// The record of `followers` taken at `stamp`, without its line end.
pub fn record_entry(stamp: &str, followers: u64) -> (r: String)
    ensures
        r@ == entry_text(stamp@, followers),
{
    let mut out = String::from_str(stamp);
    push_char(&mut out, ',');
    push_decimal(&mut out, followers);
    out
}

/// The line that the log file gets for `followers` taken at `stamp`.
pub fn record_line(stamp: &str, followers: u64) -> (r: String)
    ensures
        r@ == entry_text(stamp@, followers).push('\n'),
{
    let mut out = record_entry(stamp, followers);
    push_char(&mut out, '\n');
    out
}

/// The notification that reports the record `entry`.
pub fn success_note(entry: &str) -> (r: String)
    ensures
        r@ == success_note_text(entry@),
{
    let mut out = String::from_str("```rust\n");
    out.append(entry);
    out.append("```");
    out
}

/// The notification that reports a failure described by `text`.
pub fn failure_note(text: &str) -> (r: String)
    ensures
        r@ == failure_note_text(text@),
{
    let mut out = String::from_str("```error: ");
    out.append(text);
    out.append("```");
    out
}

} // verus!
