use umai_core::poll::{
    is_success, poll_settings, poll_step, pull_request, query_pair, refusal_report, PollAction,
    PollEvent, PollSettings, DEFAULT_INTERVAL_SECS, REQUEST_TIMEOUT_SECS,
};

fn settings() -> PollSettings {
    PollSettings {
        url: "https://feed/sync".to_string(),
        bearer: "umm_key_1".to_string(),
        interval_secs: 300,
    }
}

fn cursor(text: &str) -> Option<String> {
    Some(text.to_string())
}

#[test]
fn polling_needs_url_and_bearer() {
    let settings = poll_settings(cursor("https://feed"), cursor("token"), 60).unwrap();
    assert_eq!(settings.url, "https://feed");
    assert_eq!(settings.bearer, "token");
    assert_eq!(settings.interval_secs, 60);
    assert!(poll_settings(None, cursor("token"), 60).is_none());
    assert!(poll_settings(cursor("https://feed"), None, 60).is_none());
    assert!(poll_settings(None, None, 60).is_none());
}

#[test]
fn two_hundreds_are_successes() {
    for status in [200, 204, 299] {
        assert!(is_success(status));
    }
    for status in [0, 100, 199, 300, 301, 401, 404, 429, 500, 503] {
        assert!(!is_success(status));
    }
}

#[test]
fn refusals_show_the_start_of_the_body() {
    assert_eq!(
        refusal_report("401 Unauthorized", "bad token"),
        "intel-sync HTTP 401 Unauthorized: bad token"
    );
    assert_eq!(refusal_report("503 Service Unavailable", ""), "intel-sync HTTP 503 Service Unavailable: ");
    let exact = "b".repeat(200);
    assert_eq!(refusal_report("500", &exact), format!("intel-sync HTTP 500: {exact}"));
    let long = "é".repeat(201);
    assert_eq!(refusal_report("500", &long), format!("intel-sync HTTP 500: {}", "é".repeat(200)));
}

#[test]
fn requests_carry_the_cursor_once_there_is_one() {
    let settings = settings();
    let request = pull_request(&settings, &None);
    assert_eq!(request.url, "https://feed/sync");
    assert_eq!(request.bearer, "umm_key_1");
    assert_eq!(request.query, None);
    let at = cursor("page-2");
    let request = pull_request(&settings, &at);
    assert_eq!(request.url, "https://feed/sync");
    assert_eq!(request.bearer, "umm_key_1");
    assert_eq!(request.query, Some(("cursor", "page-2")));
    assert_eq!(query_pair(&cursor("")), Some(("cursor", "")));
    assert_eq!(query_pair(&None), None);
}

#[test]
fn the_loop_pulls_and_waits_in_turn() {
    let settings = settings();
    let mut at = None;
    let step = |at: &mut Option<String>, event| poll_step(&settings, at, event);
    let sleep = PollAction::Sleep { secs: 300 };
    assert_eq!(step(&mut at, PollEvent::Started), PollAction::BuildClient { timeout_secs: 20 });
    assert_eq!(step(&mut at, PollEvent::ClientReady), PollAction::Pull);
    assert_eq!(at, None);
    assert_eq!(step(&mut at, PollEvent::Pulled { cursor_next: cursor("a") }), sleep);
    assert_eq!(at, cursor("a"));
    assert_eq!(step(&mut at, PollEvent::IntervalElapsed), PollAction::Pull);
    assert_eq!(step(&mut at, PollEvent::PullFailed), sleep);
    assert_eq!(at, cursor("a"));
    assert_eq!(step(&mut at, PollEvent::Pulled { cursor_next: None }), sleep);
    assert_eq!(at, cursor("a"));
    assert_eq!(step(&mut at, PollEvent::Pulled { cursor_next: cursor("b") }), sleep);
    assert_eq!(at, cursor("b"));
}

#[test]
fn no_client_ends_the_loop() {
    let mut at = cursor("a");
    assert_eq!(poll_step(&settings(), &mut at, PollEvent::ClientFailed), PollAction::Stop);
    assert_eq!(at, cursor("a"));
}

#[test]
fn timings() {
    assert_eq!(DEFAULT_INTERVAL_SECS, 300);
    assert_eq!(REQUEST_TIMEOUT_SECS, 20);
}
