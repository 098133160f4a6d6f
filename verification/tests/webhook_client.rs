use xbridge::config::WebhookConfig;
use xbridge::metrics::Metrics;
use xbridge::webhook::WebhookEvent;
use xbridge::webhook_client::{
    check_status, parse_timeout, retry_delay, DeliveryStep, Duration, WebhookClient, WebhookError,
    WebhookFailure, DLQ_LIMIT,
};

#[test]
fn parse_timeout_seconds() {
    assert_eq!(parse_timeout("5s"), Duration::from_secs(5));
    assert_eq!(parse_timeout("30s"), Duration::from_secs(30));
}

#[test]
fn parse_timeout_millis() {
    assert_eq!(parse_timeout("500ms"), Duration::from_millis(500));
}

#[test]
fn parse_timeout_invalid_falls_back() {
    assert_eq!(parse_timeout("invalid"), Duration::from_secs(5));
    assert_eq!(parse_timeout(""), Duration::from_secs(5));
}

#[test]
fn parse_timeout_trims_and_reads_numbers() {
    assert_eq!(parse_timeout("  7s\n"), Duration::from_secs(7));
    assert_eq!(parse_timeout("+7s"), Duration::from_secs(7));
    assert_eq!(parse_timeout("1500ms"), Duration { secs: 1, nanos: 500_000_000 });
    assert_eq!(parse_timeout("18446744073709551615s"), Duration::from_secs(u64::MAX));
    for bad in ["5", "-5s", "5 s", "18446744073709551616s", "ms", "s", "5m", "1.5s"] {
        assert_eq!(parse_timeout(bad), Duration::from_secs(5));
    }
}

fn client(retry: u32) -> WebhookClient {
    WebhookClient::new(&WebhookConfig {
        url: "http://127.0.0.1:9/events".into(),
        timeout: "5s".into(),
        retry,
    })
}

fn answered(id: &str) -> WebhookEvent {
    WebhookEvent::Answered { call_id: id.into() }
}

/// Delivers an event against an application that always gives the same outcome, and says how
/// many attempts and milliseconds that took, without jitter.
fn deliver(
    client: &mut WebhookClient,
    metrics: &mut Metrics,
    event: &WebhookEvent,
    outcome: Result<u16, String>,
) -> (u64, u64) {
    let mut attempt = 0;
    let mut waited = 0;
    loop {
        attempt += 1;
        match client.step(attempt, &outcome, 0) {
            DeliveryStep::Retry(ms) => waited += ms,
            step => {
                client.settle(metrics, event, &step, attempt, "now");
                return (attempt, waited);
            }
        }
    }
}

#[test]
fn client_is_as_configured() {
    let c = client(4);
    assert_eq!(c.url, "http://127.0.0.1:9/events");
    assert_eq!(c.retry, 4);
    assert_eq!(c.timeout, Duration::from_secs(5));
    assert_eq!(c.incoming_url(), "http://127.0.0.1:9/events/incoming");
}

#[test]
fn webhook_delivers_to_mock_server() {
    let mut c = client(0);
    let mut m = Metrics::new();
    assert_eq!(deliver(&mut c, &mut m, &answered("test_call"), Ok(200)), (1, 0));
    assert_eq!(m.webhooks_sent, 1);
    assert_eq!(m.webhooks_failed, 0);
    assert_eq!(c.dlq_len(), 0);
}

#[test]
fn webhook_retries_on_failure() {
    // 1 initial + 2 retries = 3 total
    let mut c = client(2);
    let mut m = Metrics::new();
    let (attempts, _) = deliver(&mut c, &mut m, &answered("retry_test"), Ok(500));
    assert_eq!(attempts, 3);

    assert_eq!(c.dlq_len(), 1);
    let failures = c.dlq_list();
    assert_eq!(failures[0].attempts, 3);
    assert!(failures[0].error.contains("500"));
    assert_eq!(failures[0].event, answered("retry_test"));
    assert_eq!(failures[0].timestamp, "now");
    assert_eq!(m.webhooks_sent, 0);
    assert_eq!(m.webhooks_failed, 1);
}

#[test]
fn webhook_backoff_increases_delay() {
    // 1 initial + 3 retries = 4 attempts, backoff: 100ms + 200ms + 400ms = 700ms
    let mut c = client(3);
    let mut m = Metrics::new();
    let done = deliver(&mut c, &mut m, &answered("backoff_test"), Ok(500));
    assert_eq!(done, (4, 700));
}

#[test]
fn retry_delay_doubles_and_saturates() {
    assert_eq!(retry_delay(1, 0), 100);
    assert_eq!(retry_delay(2, 7), 207);
    assert_eq!(retry_delay(11, 49), 102_449);
    assert_eq!(retry_delay(58, 0), 100 << 57);
    assert_eq!(retry_delay(59, 0), u64::MAX);
    assert_eq!(retry_delay(u64::MAX, 49), u64::MAX);
    assert_eq!(retry_delay(1, u64::MAX), u64::MAX);
}

#[test]
fn jitter_stays_below_fifty_milliseconds() {
    let c = client(9);
    let mut seen = Vec::new();
    for _ in 0..500 {
        match c.next_step(2, &Ok(503)) {
            DeliveryStep::Retry(ms) => {
                assert!((200..250).contains(&ms));
                seen.push(ms);
            }
            other => panic!("unexpected {other:?}"),
        }
    }
    seen.sort();
    seen.dedup();
    assert!(seen.len() > 1);
}

#[test]
fn failed_requests_keep_their_reason() {
    let c = client(0);
    assert_eq!(
        c.step(1, &Err("connection refused".into()), 0),
        DeliveryStep::GiveUp("connection refused".into())
    );
    assert_eq!(
        c.step(1, &Ok(404), 0),
        DeliveryStep::GiveUp("webhook returned 404".into())
    );
    assert_eq!(c.next_step(1, &Ok(204)), DeliveryStep::Delivered);
}

#[test]
fn statuses_are_checked() {
    assert_eq!(check_status(200), Ok(()));
    assert_eq!(check_status(299), Ok(()));
    for code in [0, 199, 300, 404, 500] {
        assert_eq!(check_status(code), Err(WebhookError::Status(code)));
    }
}

#[test]
fn webhook_errors_say_what_is_wrong() {
    assert_eq!(WebhookError::Status(503).message(), "webhook returned 503");
    assert_eq!(
        WebhookError::Http("timed out".into()).message(),
        "webhook HTTP error: timed out"
    );
}

#[test]
fn list_webhook_failures_empty() {
    assert!(client(0).dlq_list().is_empty());
}

#[test]
fn drain_webhook_failures_returns_count() {
    assert_eq!(client(0).dlq_drain().len(), 0);
}

#[test]
fn dlq_endpoint_shows_failures() {
    let mut c = client(0);
    let mut m = Metrics::new();
    deliver(&mut c, &mut m, &answered("dlq_test"), Ok(500));
    let failures = c.dlq_list();
    assert_eq!(failures.len(), 1);
    assert_eq!(failures[0].event, answered("dlq_test"));
    assert_eq!(c.dlq_drain().len(), 1);
    assert_eq!(c.dlq_list().len(), 0);
}

#[test]
fn dlq_keeps_the_newest() {
    let mut c = client(0);
    for i in 0..DLQ_LIMIT + 3 {
        c.dlq_push(WebhookFailure {
            event: answered(&i.to_string()),
            error: "webhook returned 500".into(),
            attempts: 1,
            timestamp: "now".into(),
        });
    }
    let kept = c.dlq_list();
    assert_eq!(kept.len(), DLQ_LIMIT);
    assert_eq!(kept[0].event, answered("3"));
    assert_eq!(kept[DLQ_LIMIT - 1].event, answered(&(DLQ_LIMIT + 2).to_string()));
}

#[test]
fn retry_is_not_settled() {
    let mut c = client(1);
    let mut m = Metrics::new();
    c.settle(&mut m, &answered("c1"), &DeliveryStep::Retry(100), 1, "now");
    assert_eq!(c.dlq_len(), 0);
    assert_eq!((m.webhooks_sent, m.webhooks_failed), (0, 0));
}

#[test]
fn delivery_ends_with_the_first_success() {
    let c = client(3);
    assert_eq!(c.step(1, &Err("refused".into()), 5), DeliveryStep::Retry(105));
    assert_eq!(c.step(2, &Ok(500), 5), DeliveryStep::Retry(205));
    assert_eq!(c.step(3, &Ok(200), 5), DeliveryStep::Delivered);
    assert_eq!(c.step(4, &Ok(200), 5), DeliveryStep::Delivered);
}
