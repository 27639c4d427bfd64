//! The polling loop as a state machine: from its phase and what the outside world reports,
//! the next phase and what to do. The caller performs each action (fetch, write, post,
//! sleep) and hands back what came of it.

use crate::counts::Data;
use crate::error::{error_text, Error as ScrapeError};
use crate::extract::{page_counts, scrape};
use crate::record::{failure_note, failure_note_text, success_note, success_note_text};
use vstd::prelude::*;

verus! {

/// Any of the errors that can occur while running the monitor.
#[derive(Debug, Clone, Copy, PartialEq, Eq, Hash, Structural)]
pub enum Error {
    /// Scraping the profile failed.
    Scrape(ScrapeError),
    /// The interval is not a number of seconds.
    ParseInterval,
    /// The HTTP client for webhook messages could not be built.
    CreateClient,
    /// The output file could not be opened.
    OpenOutput,
    /// The webhook message could not be sent.
    SendMessageThroughWebhook,
    /// The record could not be written to the output file.
    WriteOutput,
    /// The output file could not be flushed.
    FlushOutput,
}

/// The text that reports `e`.
pub open spec fn run_error_text(e: Error) -> Seq<char> {
    match e {
        Error::Scrape(inner) => error_text(inner),
        Error::ParseInterval => "failed to parse interval"@,
        Error::CreateClient => "failed to create HTTP client for Discord webhook messages"@,
        Error::OpenOutput => "failed to open output file"@,
        Error::SendMessageThroughWebhook => "failed to send message through Discord webhook"@,
        Error::WriteOutput => "failed to write to output file"@,
        Error::FlushOutput => "failed to flush output file"@,
    }
}

impl Error {
    /// The text that reports this error.
    pub fn message(&self) -> (r: String)
        ensures
            r@ == run_error_text(*self),
    {
        match self {
            Error::Scrape(inner) => inner.message(),
            Error::ParseInterval => String::from_str("failed to parse interval"),
            Error::CreateClient => String::from_str(
                "failed to create HTTP client for Discord webhook messages",
            ),
            Error::OpenOutput => String::from_str("failed to open output file"),
            Error::SendMessageThroughWebhook => String::from_str(
                "failed to send message through Discord webhook",
            ),
            Error::WriteOutput => String::from_str("failed to write to output file"),
            Error::FlushOutput => String::from_str("failed to flush output file"),
        }
    }
}

impl From<ScrapeError> for Error {
    fn from(error: ScrapeError) -> Self {
        Error::Scrape(error)
    }
}

impl vstd::std_specs::convert::FromSpecImpl<ScrapeError> for Error {
    open spec fn obeys_from_spec() -> bool {
        true
    }

    open spec fn from_spec(v: ScrapeError) -> Self {
        Error::Scrape(v)
    }
}

/// Where the loop stands.
#[derive(Debug, Clone, Copy, PartialEq, Eq, Structural)]
pub enum Phase {
    /// Not started.
    Idle,
    /// Waiting for the profile page.
    Fetching,
    /// Waiting for the record to be written and flushed.
    Persisting,
    /// Waiting for the report to be logged and, if asked, posted.
    Reporting,
    /// Waiting for the interval to pass.
    Sleeping,
}

/// What the outside world reports back to the loop.
#[derive(Debug, PartialEq, Eq)]
pub enum Event {
    /// The monitor has started, with its output open.
    Started,
    /// The text of the profile page, or why it could not be had.
    Fetched(Result<String, ScrapeError>),
    /// The record that was written and flushed, without its line end, or why it was not.
    Persisted(Result<String, Error>),
    /// Whether the notification, if any, went out.
    Reported(Result<(), Error>),
    /// The interval has passed.
    Slept,
}

/// What the loop asks the outside world to do next.
#[derive(Debug, Clone, PartialEq, Eq)]
pub enum Action {
    /// Fetch the profile page.
    Fetch,
    /// Write the record of these counts, stamped with the time of writing, and flush it.
    Persist(Data),
    /// Log `text`, as a failure where `failed`, and post `note` to the webhook where present.
    Report { text: String, failed: bool, note: Option<String> },
    /// Sleep this many seconds.
    Sleep(u64),
}

/// An [`Event`] with its strings as character sequences.
pub enum EventView {
    Started,
    Fetched(Result<Seq<char>, ScrapeError>),
    Persisted(Result<Seq<char>, Error>),
    Reported(Result<(), Error>),
    Slept,
}

/// An [`Action`] with its strings as character sequences.
pub enum ActionView {
    Fetch,
    Persist(Data),
    Report { text: Seq<char>, failed: bool, note: Option<Seq<char>> },
    Sleep(u64),
}

impl View for Event {
    type V = EventView;

    open spec fn view(&self) -> EventView {
        match self {
            Event::Started => EventView::Started,
            Event::Fetched(Ok(page)) => EventView::Fetched(Ok(page@)),
            Event::Fetched(Err(e)) => EventView::Fetched(Err(*e)),
            Event::Persisted(Ok(entry)) => EventView::Persisted(Ok(entry@)),
            Event::Persisted(Err(e)) => EventView::Persisted(Err(*e)),
            Event::Reported(r) => EventView::Reported(*r),
            Event::Slept => EventView::Slept,
        }
    }
}

impl View for Action {
    type V = ActionView;

    open spec fn view(&self) -> ActionView {
        match self {
            Action::Fetch => ActionView::Fetch,
            Action::Persist(d) => ActionView::Persist(*d),
            Action::Report { text, failed, note } => ActionView::Report {
                text: text@,
                failed: *failed,
                note: match note {
                    Some(n) => Some(n@),
                    None => None,
                },
            },
            Action::Sleep(secs) => ActionView::Sleep(*secs),
        }
    }
}

/// Whether the loop in `phase` waits for `event`.
pub open spec fn accepts(phase: Phase, event: EventView) -> bool {
    match event {
        EventView::Started => phase is Idle,
        EventView::Fetched(_) => phase is Fetching,
        EventView::Persisted(_) => phase is Persisting,
        EventView::Reported(_) => phase is Reporting,
        EventView::Slept => phase is Sleeping,
    }
}

/// The report of a failure: logged, and posted where a webhook is configured.
pub open spec fn failure_report(e: Error, webhook: bool) -> ActionView {
    ActionView::Report {
        text: run_error_text(e),
        failed: true,
        note: if webhook {
            Some(failure_note_text(run_error_text(e)))
        } else {
            None
        },
    }
}

/// The phase and the action that follow `event`.
pub open spec fn next(event: EventView, webhook: bool, interval: u64) -> (Phase, ActionView) {
    match event {
        EventView::Started => (Phase::Fetching, ActionView::Fetch),
        EventView::Fetched(Err(e)) => (Phase::Reporting, failure_report(Error::Scrape(e), webhook)),
        EventView::Fetched(Ok(page)) => match page_counts(page) {
            Ok(d) => (Phase::Persisting, ActionView::Persist(d)),
            Err(e) => (Phase::Reporting, failure_report(Error::Scrape(e), webhook)),
        },
        EventView::Persisted(Ok(entry)) => (
            Phase::Reporting,
            ActionView::Report {
                text: entry,
                failed: false,
                note: if webhook {
                    Some(success_note_text(entry))
                } else {
                    None
                },
            },
        ),
        EventView::Persisted(Err(e)) => (Phase::Reporting, failure_report(e, webhook)),
        EventView::Reported(Ok(())) => (Phase::Sleeping, ActionView::Sleep(interval)),
        EventView::Reported(Err(e)) => (
            Phase::Reporting,
            ActionView::Report { text: run_error_text(e), failed: true, note: None },
        ),
        EventView::Slept => (Phase::Fetching, ActionView::Fetch),
    }
}

/// The polling loop: its phase, whether a webhook is configured, and its interval in seconds.
pub struct Poller {
    pub phase: Phase,
    pub webhook: bool,
    pub interval: u64,
}

impl Poller {
    /// A loop that has not started.
    pub fn new(interval: u64, webhook: bool) -> (r: Self)
        ensures
            r.phase == Phase::Idle,
            r.interval == interval,
            r.webhook == webhook,
    {
        Poller { phase: Phase::Idle, webhook, interval }
    }

    /// Whether the loop waits for `event`.
    pub fn expects(&self, event: &Event) -> (r: bool)
        ensures
            r == accepts(self.phase, event@),
    {
        match event {
            Event::Started => self.phase == Phase::Idle,
            Event::Fetched(_) => self.phase == Phase::Fetching,
            Event::Persisted(_) => self.phase == Phase::Persisting,
            Event::Reported(_) => self.phase == Phase::Reporting,
            Event::Slept => self.phase == Phase::Sleeping,
        }
    }

    fn failure(&self, e: Error) -> (r: Action)
        ensures
            r@ == failure_report(e, self.webhook),
    {
        let text = e.message();
        let note = if self.webhook {
            Some(failure_note(text.as_str()))
        } else {
            None
        };
        Action::Report { text, failed: true, note }
    }

    /// Takes in what came of the last action and says what to do next.
    pub fn handle(&mut self, event: Event) -> (r: Action)
        requires
            accepts(old(self).phase, event@),
        ensures
            (final(self).phase, r@) == next(event@, old(self).webhook, old(self).interval),
            final(self).webhook == old(self).webhook,
            final(self).interval == old(self).interval,
    {
        let (phase, action) = match event {
            Event::Started => (Phase::Fetching, Action::Fetch),
            Event::Fetched(Err(e)) => (Phase::Reporting, self.failure(Error::Scrape(e))),
            Event::Fetched(Ok(page)) => match scrape(page.as_str()) {
                Ok(d) => (Phase::Persisting, Action::Persist(d)),
                Err(e) => (Phase::Reporting, self.failure(Error::Scrape(e))),
            },
            Event::Persisted(Ok(entry)) => {
                let note = if self.webhook {
                    Some(success_note(entry.as_str()))
                } else {
                    None
                };
                (Phase::Reporting, Action::Report { text: entry, failed: false, note })
            },
            Event::Persisted(Err(e)) => (Phase::Reporting, self.failure(e)),
            Event::Reported(Ok(())) => (Phase::Sleeping, Action::Sleep(self.interval)),
            Event::Reported(Err(e)) => (
                Phase::Reporting,
                Action::Report { text: e.message(), failed: true, note: None },
            ),
            Event::Slept => (Phase::Fetching, Action::Fetch),
        };
        self.phase = phase;
        action
    }
}


/// The actions that the loop asks for, from `phase`, as `events` come in, up to the first
/// event that it does not wait for.
pub open spec fn run(phase: Phase, events: Seq<EventView>, webhook: bool, interval: u64) -> Seq<
    ActionView,
>
    decreases events.len(),
{
    if events.len() == 0 || !accepts(phase, events[0]) {
        Seq::empty()
    } else {
        let (p, a) = next(events[0], webhook, interval);
        seq![a] + run(p, events.drop_first(), webhook, interval)
    }
}

/// Until the next fetch, a loop that reports or sleeps asks for no record and for no report
/// but of a failure.
proof fn lemma_quiet_until_fetch(phase: Phase, events: Seq<EventView>, webhook: bool, interval: u64)
    requires
        phase is Reporting || phase is Sleeping,
    ensures
        ({
            let acts = run(phase, events, webhook, interval);
            forall|k: int|
                0 <= k < acts.len() && (forall|j: int| 0 <= j < k ==> !(#[trigger] acts[j] is Fetch))
                    ==> !(#[trigger] acts[k] is Persist) && (acts[k] is Report ==> acts[k]->failed)
        }),
    decreases events.len(),
{
    let acts = run(phase, events, webhook, interval);
    if events.len() > 0 && accepts(phase, events[0]) {
        let (p, a) = next(events[0], webhook, interval);
        let rest = run(p, events.drop_first(), webhook, interval);
        assert(acts == seq![a] + rest);
        if !(a is Fetch) {
            lemma_quiet_until_fetch(p, events.drop_first(), webhook, interval);
            assert forall|k: int|
                0 <= k < acts.len() && (forall|j: int| 0 <= j < k ==> !(#[trigger] acts[j] is Fetch))
                    implies !(#[trigger] acts[k] is Persist) && (acts[k] is Report
                    ==> acts[k]->failed) by {
                if k > 0 {
                    assert(acts[k] == rest[k - 1]);
                    assert forall|j: int| 0 <= j < k - 1 implies !(#[trigger] rest[j] is Fetch) by {
                        assert(rest[j] == acts[j + 1]);
                    }
                }
            }
        } else {
            assert forall|k: int|
                0 <= k < acts.len() && (forall|j: int| 0 <= j < k ==> !(#[trigger] acts[j] is Fetch))
                    implies !(#[trigger] acts[k] is Persist) && (acts[k] is Report
                    ==> acts[k]->failed) by {
                if k > 0 {
                    assert(acts[0] is Fetch);
                }
            }
        }
    }
}

/// A failed fetch is reported as a failure, posted only where a webhook is configured, and
/// until the next fetch the loop asks for no record and for no report of a success.
pub proof fn lemma_failed_fetch(
    e: ScrapeError,
    later: Seq<EventView>,
    webhook: bool,
    interval: u64,
)
    ensures
        ({
            let acts = run(
                Phase::Fetching,
                seq![EventView::Fetched(Err(e))] + later,
                webhook,
                interval,
            );
            &&& acts.len() >= 1
            &&& acts[0] == failure_report(Error::Scrape(e), webhook)
            &&& forall|k: int|
                0 <= k < acts.len() && (forall|j: int| 0 <= j < k ==> !(#[trigger] acts[j] is Fetch))
                    ==> !(#[trigger] acts[k] is Persist) && (acts[k] is Report ==> acts[k]->failed)
        }),
{
    let events = seq![EventView::Fetched(Err(e))] + later;
    assert(events[0] == EventView::Fetched(Err(e)));
    assert(events.drop_first() =~= later);
    let acts = run(Phase::Fetching, events, webhook, interval);
    let rest = run(Phase::Reporting, later, webhook, interval);
    assert(acts == seq![failure_report(Error::Scrape(e), webhook)] + rest);
    lemma_quiet_until_fetch(Phase::Reporting, later, webhook, interval);
    assert forall|k: int|
        0 <= k < acts.len() && (forall|j: int| 0 <= j < k ==> !(#[trigger] acts[j] is Fetch))
            implies !(#[trigger] acts[k] is Persist) && (acts[k] is Report ==> acts[k]->failed) by {
        if k > 0 {
            assert(acts[k] == rest[k - 1]);
            assert forall|j: int| 0 <= j < k - 1 implies !(#[trigger] rest[j] is Fetch) by {
                assert(rest[j] == acts[j + 1]);
            }
        }
    }
}

/// After a record is asked for, any later record comes after a sleep of the interval.
proof fn lemma_sleep_before_record(phase: Phase, events: Seq<EventView>, webhook: bool, interval: u64)
    requires
        phase is Persisting || phase is Reporting,
    ensures
        ({
            let acts = run(phase, events, webhook, interval);
            forall|j: int|
                0 <= j < acts.len() && #[trigger] acts[j] is Persist ==> exists|k: int|
                    0 <= k < j && #[trigger] acts[k] == ActionView::Sleep(interval)
        }),
    decreases events.len(),
{
    let acts = run(phase, events, webhook, interval);
    if events.len() > 0 && accepts(phase, events[0]) {
        let (p, a) = next(events[0], webhook, interval);
        let rest = run(p, events.drop_first(), webhook, interval);
        assert(acts == seq![a] + rest);
        if a == ActionView::Sleep(interval) {
            assert forall|j: int| 0 <= j < acts.len() && #[trigger] acts[j] is Persist implies exists|
                k: int,
            | 0 <= k < j && #[trigger] acts[k] == ActionView::Sleep(interval) by {
                assert(acts[0] == ActionView::Sleep(interval));
            }
        } else {
            assert(p is Reporting);
            lemma_sleep_before_record(p, events.drop_first(), webhook, interval);
            assert forall|j: int| 0 <= j < acts.len() && #[trigger] acts[j] is Persist implies exists|
                k: int,
            | 0 <= k < j && #[trigger] acts[k] == ActionView::Sleep(interval) by {
                assert(acts[j] == rest[j - 1]);
                let k = choose|k: int| 0 <= k < j - 1 && #[trigger] rest[k] == ActionView::Sleep(interval);
                assert(acts[k + 1] == rest[k]);
            }
        }
    }
}

/// Between any two records that the loop asks for, it sleeps for the interval.
pub proof fn lemma_sleep_between_records(
    phase: Phase,
    events: Seq<EventView>,
    webhook: bool,
    interval: u64,
)
    ensures
        ({
            let acts = run(phase, events, webhook, interval);
            forall|i: int, j: int|
                0 <= i < j < acts.len() && #[trigger] acts[i] is Persist && #[trigger] acts[j] is Persist
                    ==> exists|k: int| i < k < j && #[trigger] acts[k] == ActionView::Sleep(interval)
        }),
    decreases events.len(),
{
    let acts = run(phase, events, webhook, interval);
    if events.len() > 0 && accepts(phase, events[0]) {
        let (p, a) = next(events[0], webhook, interval);
        let rest = run(p, events.drop_first(), webhook, interval);
        assert(acts == seq![a] + rest);
        lemma_sleep_between_records(p, events.drop_first(), webhook, interval);
        if a is Persist {
            assert(p is Persisting);
            lemma_sleep_before_record(p, events.drop_first(), webhook, interval);
        }
        assert forall|i: int, j: int|
            0 <= i < j < acts.len() && #[trigger] acts[i] is Persist && #[trigger] acts[j] is Persist
                implies exists|k: int| i < k < j && #[trigger] acts[k] == ActionView::Sleep(interval) by {
            assert(acts[j] == rest[j - 1]);
            if i == 0 {
                let k = choose|k: int| 0 <= k < j - 1 && #[trigger] rest[k] == ActionView::Sleep(interval);
                assert(acts[k + 1] == rest[k]);
            } else {
                assert(acts[i] == rest[i - 1]);
                let k = choose|k: int|
                    i - 1 < k < j - 1 && #[trigger] rest[k] == ActionView::Sleep(interval);
                assert(acts[k + 1] == rest[k]);
            }
        }
    }
}

} // verus!
