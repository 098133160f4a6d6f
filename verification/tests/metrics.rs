use xbridge::metrics::{bound_table, Buckets, DurationSums, Histogram, Metrics};

fn sums(call: &str, http_request: &str) -> DurationSums {
    DurationSums {
        call: call.to_string(),
        http_request: http_request.to_string(),
        webhook: "0".to_string(),
    }
}

fn nanos(secs: f64) -> u64 {
    (secs * 1e9).round() as u64
}

#[test]
fn increment_and_render() {
    let mut m = Metrics::new();
    m.inc_calls_inbound();
    m.inc_calls_inbound();
    m.inc_calls_outbound();
    m.inc_webhooks_sent();
    m.inc_webhooks_sent();
    m.inc_webhooks_failed();
    m.inc_http_requests();
    m.inc_ws_connections();

    let output = m.render(3, &sums("0", "0"));
    assert!(output.contains("xbridge_calls_total {direction=\"inbound\"} 2"));
    assert!(output.contains("xbridge_calls_total {direction=\"outbound\"} 1"));
    assert!(output.contains("xbridge_active_calls 3"));
    assert!(output.contains("xbridge_http_requests_total 1"));
    assert!(output.contains("xbridge_ws_connections 1"));
    assert!(output.contains("xbridge_webhooks_total {result=\"success\"} 2"));
    assert!(output.contains("xbridge_webhooks_total {result=\"failure\"} 1"));
}

#[test]
fn ws_connections_decrement() {
    let mut m = Metrics::new();
    m.inc_ws_connections();
    m.inc_ws_connections();
    m.dec_ws_connections();
    let output = m.render(0, &sums("0", "0"));
    assert!(output.contains("xbridge_ws_connections 1"));
}

#[test]
fn histogram_buckets_and_render() {
    let mut m = Metrics::new();
    let mut sum = 0.0;
    for secs in [5.0, 15.0, 65.0] {
        m.observe_call_duration(nanos(secs));
        sum += secs;
    }

    let output = m.render(0, &sums(&format!("{sum}"), "0"));
    // 5.0 falls into le=5 bucket
    assert!(output.contains("xbridge_call_duration_seconds_bucket{le=\"5\"} 1"));
    // 15.0 falls into le=30 bucket (cumulative: 2)
    assert!(output.contains("xbridge_call_duration_seconds_bucket{le=\"30\"} 2"));
    // All 3 in +Inf
    assert!(output.contains("xbridge_call_duration_seconds_bucket{le=\"+Inf\"} 3"));
    assert!(output.contains("xbridge_call_duration_seconds_sum 85"));
    assert!(output.contains("xbridge_call_duration_seconds_count 3"));
}

#[test]
fn http_duration_histogram_renders() {
    let mut m = Metrics::new();
    m.observe_http_request_duration(nanos(0.002));
    m.observe_http_request_duration(nanos(0.05));

    let output = m.render(0, &sums("0", "0"));
    assert!(output.contains("xbridge_http_request_duration_seconds_bucket{le=\"0.005\"} 1"));
    assert!(output.contains("xbridge_http_request_duration_seconds_count 2"));
}

#[test]
fn ws_frames_counter() {
    let mut m = Metrics::new();
    m.inc_ws_frames_sent();
    m.inc_ws_frames_sent();
    m.inc_ws_frames_received();

    let output = m.render(0, &sums("0", "0"));
    assert!(output.contains("xbridge_ws_frames_total {direction=\"sent\"} 2"));
    assert!(output.contains("xbridge_ws_frames_total {direction=\"received\"} 1"));
}

#[test]
fn rate_limit_counter() {
    let mut m = Metrics::new();
    m.inc_rate_limit_rejections();
    m.inc_rate_limit_rejections();

    let output = m.render(0, &sums("0", "0"));
    assert!(output.contains("xbridge_rate_limit_rejections_total 2"));
}

#[test]
fn histogram_text_is_exact() {
    let mut h = Histogram::new(bound_table(Buckets::CallDuration));
    h.observe(1_000_000_000);
    h.observe(1_000_000_001);
    h.observe(7_200_000_000_000);
    let mut out = String::from("before\n");
    h.render(&mut out, "d", "Some help", "7202");
    assert_eq!(
        out,
        "before\n# HELP d Some help\n# TYPE d histogram\n\
         d_bucket{le=\"1\"} 1\nd_bucket{le=\"5\"} 2\nd_bucket{le=\"10\"} 2\nd_bucket{le=\"30\"} 2\n\
         d_bucket{le=\"60\"} 2\nd_bucket{le=\"120\"} 2\nd_bucket{le=\"300\"} 2\n\
         d_bucket{le=\"600\"} 2\nd_bucket{le=\"1800\"} 2\nd_bucket{le=\"3600\"} 2\n\
         d_bucket{le=\"+Inf\"} 3\nd_sum 7202\nd_count 3\n"
    );
}

#[test]
fn latency_bounds_are_rendered_as_seconds() {
    let mut m = Metrics::new();
    m.observe_webhook_duration(nanos(0.3));
    m.observe_webhook_duration(nanos(60.0));
    let output = m.render(0, &sums("0", "0"));
    let mut rest = output.as_str();
    for bound in [0.005, 0.01, 0.025, 0.05, 0.1, 0.25, 0.5, 1.0, 2.5, 5.0, 10.0] {
        let count = if bound >= 0.3 { 1 } else { 0 };
        let line = format!("xbridge_webhook_duration_seconds_bucket{{le=\"{bound}\"}} {count}\n");
        let at = rest.find(&line).unwrap();
        rest = &rest[at..];
    }
    assert!(rest.contains("xbridge_webhook_duration_seconds_count 2\n"));
}

#[test]
fn fresh_metrics_render_every_family() {
    let output = Metrics::new().render(7, &sums("0", "0"));
    assert!(output.starts_with(
        "# HELP xbridge_calls_total Total calls processed\n\
         # TYPE xbridge_calls_total counter\n\
         xbridge_calls_total {direction=\"inbound\"} 0\n\
         xbridge_calls_total {direction=\"outbound\"} 0\n\
         # HELP xbridge_active_calls Currently active calls\n\
         # TYPE xbridge_active_calls gauge\n\
         xbridge_active_calls 7\n\
         # HELP xbridge_http_requests_total Total HTTP requests\n\
         # TYPE xbridge_http_requests_total counter\n\
         xbridge_http_requests_total 0\n\
         # HELP xbridge_ws_connections Active WebSocket connections\n\
         # TYPE xbridge_ws_connections gauge\n\
         xbridge_ws_connections 0\n\
         # HELP xbridge_ws_frames_total WebSocket frames processed\n\
         # TYPE xbridge_ws_frames_total counter\n\
         xbridge_ws_frames_total {direction=\"sent\"} 0\n\
         xbridge_ws_frames_total {direction=\"received\"} 0\n\
         # HELP xbridge_webhooks_total Total webhook deliveries\n\
         # TYPE xbridge_webhooks_total counter\n\
         xbridge_webhooks_total {result=\"success\"} 0\n\
         xbridge_webhooks_total {result=\"failure\"} 0\n\
         # HELP xbridge_trunk_calls_total Total calls from trunk host peers\n\
         # TYPE xbridge_trunk_calls_total counter\n\
         xbridge_trunk_calls_total 0\n\
         # HELP xbridge_rate_limit_rejections_total HTTP requests rejected by rate limiter\n\
         # TYPE xbridge_rate_limit_rejections_total counter\n\
         xbridge_rate_limit_rejections_total 0\n\
         # HELP xbridge_call_duration_seconds Call duration\n\
         # TYPE xbridge_call_duration_seconds histogram\n"
    ));
}

#[test]
fn trunk_calls_are_counted() {
    let mut m = Metrics::new();
    m.inc_trunk_calls_inbound();
    assert!(m
        .render(0, &sums("0", "0"))
        .contains("xbridge_trunk_calls_total 1\n"));
}

#[test]
fn every_bucket_counts_what_is_not_above_its_bound() {
    let values: [u64; 6] = [
        0,
        5_000_000,
        5_000_001,
        10_000_000_000,
        10_000_000_001,
        u64::MAX,
    ];
    let bounds: [(u64, &str); 11] = [
        (5_000_000, "0.005"),
        (10_000_000, "0.01"),
        (25_000_000, "0.025"),
        (50_000_000, "0.05"),
        (100_000_000, "0.1"),
        (250_000_000, "0.25"),
        (500_000_000, "0.5"),
        (1_000_000_000, "1"),
        (2_500_000_000, "2.5"),
        (5_000_000_000, "5"),
        (10_000_000_000, "10"),
    ];
    let mut h = Histogram::new(bound_table(Buckets::Latency));
    for value in values {
        h.observe(value);
    }
    let mut want = String::from("# HELP d D\n# TYPE d histogram\n");
    for (bound, text) in bounds {
        let count = values.iter().filter(|v| **v <= bound).count();
        want.push_str(&format!("d_bucket{{le=\"{text}\"}} {count}\n"));
    }
    want.push_str("d_bucket{le=\"+Inf\"} 6\nd_sum 1\nd_count 6\n");
    let mut out = String::new();
    h.render(&mut out, "d", "D", "1");
    assert_eq!(out, want);
}

#[test]
fn histogram_takes_any_bounds() {
    let mut h = Histogram::new(vec![(10, "a"), (10, "b"), (30, "c")]);
    for value in [9, 10, 11, 30, 31] {
        h.observe(value);
    }
    let mut out = String::new();
    h.render(&mut out, "d", "D", "0");
    assert_eq!(
        out,
        "# HELP d D\n# TYPE d histogram\nd_bucket{le=\"a\"} 2\nd_bucket{le=\"b\"} 2\n\
         d_bucket{le=\"c\"} 4\nd_bucket{le=\"+Inf\"} 5\nd_sum 0\nd_count 5\n"
    );

    let mut none = Histogram::new(Vec::new());
    none.observe(1);
    let mut out = String::new();
    none.render(&mut out, "d", "D", "0");
    assert_eq!(
        out,
        "# HELP d D\n# TYPE d histogram\nd_bucket{le=\"+Inf\"} 1\nd_sum 0\nd_count 1\n"
    );
}
