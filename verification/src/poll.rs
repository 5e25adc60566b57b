//! The loop that pulls the feed: when it runs, what it asks for, how it judges an answer and
//! where it goes on.

use vstd::prelude::*;

verus! {

/// Seconds between two pulls, unless the operator says otherwise.
pub const DEFAULT_INTERVAL_SECS: u64 = 300;

/// Seconds after which a request is given up.
pub const REQUEST_TIMEOUT_SECS: u64 = 20;

/// How much of the body of a refused request is reported.
pub const REPORTED_BODY_CHARS: usize = 200;

/// How to reach the feed.
#[derive(Debug)]
pub struct PollSettings {
    pub url: String,
    pub bearer: String,
    pub interval_secs: u64,
}

/// The settings of the poll loop. It runs only where both the URL and the bearer token are
/// given.
pub fn poll_settings(
    url: Option<String>,
    bearer: Option<String>,
    interval_secs: u64,
) -> (settings: Option<PollSettings>)
    ensures
        settings is Some <==> url is Some && bearer is Some,
        settings matches Some(settings) ==> settings == (PollSettings {
            url: url->0,
            bearer: bearer->0,
            interval_secs,
        }),
{
    match (url, bearer) {
        (Some(url), Some(bearer)) => Some(PollSettings { url, bearer, interval_secs }),
        _ => None,
    }
}

/// The query parameter that carries the cursor.
pub const CURSOR_PARAMETER: &'static str = "cursor";

/// The GET request of a pull.
#[derive(Clone, Copy, Debug)]
pub struct PullRequest<'a> {
    /// Where it goes.
    pub url: &'a str,
    /// The bearer token that authorizes it.
    pub bearer: &'a str,
    /// The query parameter that it carries, by name and value.
    pub query: Option<(&'a str, &'a str)>,
}

/// The query parameter of a pull from `cursor`: the first pull has no cursor and carries
/// none.
pub fn query_pair<'a>(cursor: &'a Option<String>) -> (pair: Option<(&'a str, &'a str)>)
    ensures
        pair is Some <==> cursor is Some,
        pair matches Some(pair) ==> pair.0@ == CURSOR_PARAMETER@ && pair.1@ == cursor->0@,
        pair matches Some(pair) ==> pair.0@ == "cursor"@,
{
    match cursor {
        Some(cursor) => Some((CURSOR_PARAMETER, cursor.as_str())),
        None => None,
    }
}

/// The request of a pull from `cursor`.
pub fn pull_request<'a>(settings: &'a PollSettings, cursor: &'a Option<String>) -> (request:
    PullRequest<'a>)
    ensures
        request.url@ == settings.url@,
        request.bearer@ == settings.bearer@,
        request.query is Some <==> cursor is Some,
        request.query matches Some(pair) ==> pair.0@ == CURSOR_PARAMETER@ && pair.1@
            == cursor->0@,
        request.query matches Some(pair) ==> pair.0@ == "cursor"@,
{
    PullRequest {
        url: settings.url.as_str(),
        bearer: settings.bearer.as_str(),
        query: query_pair(cursor),
    }
}

/// Whether an HTTP status says that the request succeeded.
pub fn is_success(status: u16) -> (success: bool)
    ensures
        success <==> 200 <= status < 300,
{
    200 <= status && status < 300
}

/// The report on a request that the feed refused with the status line `status`.
pub open spec fn refusal_text(status: Seq<char>, body: Seq<char>) -> Seq<char> {
    let shown = if body.len() <= REPORTED_BODY_CHARS {
        body
    } else {
        body.take(REPORTED_BODY_CHARS as int)
    };
    "intel-sync HTTP "@ + status + ": "@ + shown
}

/// The report on a request that the feed refused: the status and the start of the body.
pub fn refusal_report(status: &str, body: &str) -> (report: String)
    ensures
        report@ == refusal_text(status@, body@),
        body@.len() <= 200 ==> report@ == "intel-sync HTTP "@ + status@ + ": "@ + body@,
        body@.len() > 200 ==> report@ == "intel-sync HTTP "@ + status@ + ": "@ + body@.take(200),
{
    let mut report: String = String::new();
    report.append("intel-sync HTTP ");
    report.append(status);
    report.append(": ");
    let len: usize = body.unicode_len();
    let shown: usize = if len <= REPORTED_BODY_CHARS { len } else { REPORTED_BODY_CHARS };
    report.append(body.substring_char(0, shown));
    assert(body@.subrange(0, shown as int) =~= body@.take(shown as int));
    assert(body@.take(len as int) =~= body@);
    report
}

/// What happened since the last action of the poll loop.
#[derive(Debug)]
pub enum PollEvent {
    /// The loop has been started.
    Started,
    /// The HTTP client is set up.
    ClientReady,
    /// The HTTP client could not be set up.
    ClientFailed,
    /// A pull went through, and the feed handed out this cursor.
    Pulled { cursor_next: Option<String> },
    /// A pull failed.
    PullFailed,
    /// The interval has passed.
    IntervalElapsed,
}

/// What the poll loop does next.
#[derive(Clone, Copy, Debug, PartialEq, Eq, Structural)]
pub enum PollAction {
    /// Set up the HTTP client, with this limit on every request.
    BuildClient { timeout_secs: u64 },
    /// Send `pull_request` and write what the answer asks for.
    Pull,
    /// Wait that long.
    Sleep { secs: u64 },
    /// End the loop.
    Stop,
}

/// The action that an event calls for.
pub open spec fn action_on(settings: PollSettings, event: PollEvent) -> PollAction {
    match event {
        PollEvent::Started => PollAction::BuildClient { timeout_secs: REQUEST_TIMEOUT_SECS },
        PollEvent::ClientReady => PollAction::Pull,
        PollEvent::ClientFailed => PollAction::Stop,
        PollEvent::Pulled { .. } => PollAction::Sleep { secs: settings.interval_secs },
        PollEvent::PullFailed => PollAction::Sleep { secs: settings.interval_secs },
        PollEvent::IntervalElapsed => PollAction::Pull,
    }
}

/// The cursor after an event: the one that the feed handed out, if it did.
pub open spec fn cursor_after(cursor: Option<String>, event: PollEvent) -> Option<String> {
    match event {
        PollEvent::Pulled { cursor_next: Some(next) } => Some(next),
        _ => cursor,
    }
}

/// One step of the poll loop: takes over the cursor that the event brings, and says what
/// to do next.
pub fn poll_step(
    settings: &PollSettings,
    cursor: &mut Option<String>,
    event: PollEvent,
) -> (action: PollAction)
    ensures
        action == action_on(*settings, event),
        *final(cursor) == cursor_after(*old(cursor), event),
        match event {
            PollEvent::Started => action == (PollAction::BuildClient { timeout_secs: 20 }),
            PollEvent::ClientReady => action == PollAction::Pull,
            PollEvent::ClientFailed => action == PollAction::Stop,
            PollEvent::Pulled { .. } => action == (PollAction::Sleep {
                secs: settings.interval_secs,
            }),
            PollEvent::PullFailed => action == (PollAction::Sleep {
                secs: settings.interval_secs,
            }),
            PollEvent::IntervalElapsed => action == PollAction::Pull,
        },
        event matches PollEvent::Pulled { cursor_next } && cursor_next is Some ==> *final(cursor)
            == event->cursor_next,
        !(event matches PollEvent::Pulled { cursor_next } && cursor_next is Some) ==> *final(cursor)
            == *old(cursor),
{
    match event {
        PollEvent::Started => PollAction::BuildClient { timeout_secs: REQUEST_TIMEOUT_SECS },
        PollEvent::ClientReady => PollAction::Pull,
        PollEvent::ClientFailed => PollAction::Stop,
        PollEvent::Pulled { cursor_next } => {
            if let Some(next) = cursor_next {
                *cursor = Some(next);
            }
            PollAction::Sleep { secs: settings.interval_secs }
        },
        PollEvent::PullFailed => PollAction::Sleep { secs: settings.interval_secs },
        PollEvent::IntervalElapsed => PollAction::Pull,
    }
}

/// The cursor after a run of events.
pub open spec fn cursor_after_all(cursor: Option<String>, events: Seq<PollEvent>) -> Option<String>
    decreases events.len(),
{
    if events.len() == 0 {
        cursor
    } else {
        cursor_after(cursor_after_all(cursor, events.drop_last()), events.last())
    }
}

/// The event hands out a cursor.
pub open spec fn hands_out_cursor(event: PollEvent) -> bool {
    event matches PollEvent::Pulled { cursor_next: Some(_) }
}

/// The loop goes on from the cursor that was handed out last: where event `i` handed one out
/// and none behind it did, it is that one.
pub proof fn law_last_cursor_wins(cursor: Option<String>, events: Seq<PollEvent>, i: int)
    requires
        0 <= i < events.len(),
        hands_out_cursor(events[i]),
        forall|j: int| i < j < events.len() ==> !hands_out_cursor(#[trigger] events[j]),
    ensures
        cursor_after_all(cursor, events) == events[i]->cursor_next,
    decreases events.len(),
{
    if i < events.len() - 1 {
        assert(!hands_out_cursor(events[events.len() - 1]));
        law_last_cursor_wins(cursor, events.drop_last(), i);
    }
}

/// As long as no cursor is handed out, the loop keeps the one it has: failed pulls lose
/// nothing.
pub proof fn law_cursor_survives_failures(cursor: Option<String>, events: Seq<PollEvent>)
    requires
        forall|j: int| 0 <= j < events.len() ==> !hands_out_cursor(#[trigger] events[j]),
    ensures
        cursor_after_all(cursor, events) == cursor,
    decreases events.len(),
{
    if events.len() > 0 {
        assert(!hands_out_cursor(events[events.len() - 1]));
        law_cursor_survives_failures(cursor, events.drop_last());
    }
}

/// Only a client that cannot be set up ends the loop; every pull, failed or not, is followed
/// by a wait, and every wait by a pull.
pub proof fn law_loop_keeps_polling(settings: PollSettings, event: PollEvent)
    ensures
        action_on(settings, event) is BuildClient <==> event is Started,
        action_on(settings, event) is Stop <==> event is ClientFailed,
        action_on(settings, event) is Sleep <==> event is Pulled || event is PullFailed,
        action_on(settings, event) is Pull <==> event is ClientReady || event is IntervalElapsed,
{
}

/// After every pull, gone through or failed, the loop waits as long as the operator said.
pub proof fn law_wait_is_the_operators_interval(settings: PollSettings, event: PollEvent)
    requires
        event is Pulled || event is PullFailed,
    ensures
        action_on(settings, event) == (PollAction::Sleep { secs: settings.interval_secs }),
{
}

/// The settings count for the wait alone: two loops that wait equally long do the same on the
/// same event, and the client is set up with a limit of twenty seconds in either.
pub proof fn law_only_the_interval_counts(x: PollSettings, y: PollSettings, event: PollEvent)
    requires
        x.interval_secs == y.interval_secs || !(event is Pulled || event is PullFailed),
    ensures
        action_on(x, event) == action_on(y, event),
        action_on(x, PollEvent::Started) == (PollAction::BuildClient { timeout_secs: 20 }),
{
}

/// A cursor that a pull brings is taken over, whatever the loop had; anything else leaves the
/// cursor as it was.
pub proof fn law_cursor_is_taken_over(cursor: Option<String>, event: PollEvent, next: String)
    ensures
        cursor_after(cursor, PollEvent::Pulled { cursor_next: Some(next) }) == Some(next),
        cursor_after(cursor, PollEvent::Pulled { cursor_next: None }) == cursor,
        !(event is Pulled) ==> cursor_after(cursor, event) == cursor,
{
}

/// A report names the status and then the body. Of a body longer than two hundred characters
/// only the first two hundred count, and of a shorter one every character does.
pub proof fn law_report_shows_status_and_body(status: Seq<char>, body: Seq<char>)
    ensures
        body.len() <= 200 ==> refusal_text(status, body) == "intel-sync HTTP "@ + status + ": "@
            + body,
        body.len() > 200 ==> refusal_text(status, body) == refusal_text(status, body.take(200)),
{
}

} // verus!
