//! Counters and histograms, and their rendering in the Prometheus text format.
//!
//! Durations are counted in nanoseconds. The sum of the observed durations is a floating
//! point number that the caller adds up; its text is handed to `render`.

use vstd::prelude::*;

use crate::text;

verus! {

/// The bucket bounds in use.
#[derive(Debug, Clone, Copy, PartialEq, Eq, Structural)]
pub enum Buckets {
    /// For latencies: 5 ms to 10 s.
    Latency,
    /// For calls: 1 s to an hour.
    CallDuration,
}

/// The upper bounds of the buckets in nanoseconds, with their text in seconds.
pub open spec fn bounds(kind: Buckets) -> Seq<(u64, Seq<char>)> {
    match kind {
        Buckets::Latency => seq![
            (5_000_000u64, "0.005"@),
            (10_000_000u64, "0.01"@),
            (25_000_000u64, "0.025"@),
            (50_000_000u64, "0.05"@),
            (100_000_000u64, "0.1"@),
            (250_000_000u64, "0.25"@),
            (500_000_000u64, "0.5"@),
            (1_000_000_000u64, "1"@),
            (2_500_000_000u64, "2.5"@),
            (5_000_000_000u64, "5"@),
            (10_000_000_000u64, "10"@),
        ],
        Buckets::CallDuration => seq![
            (1_000_000_000u64, "1"@),
            (5_000_000_000u64, "5"@),
            (10_000_000_000u64, "10"@),
            (30_000_000_000u64, "30"@),
            (60_000_000_000u64, "60"@),
            (120_000_000_000u64, "120"@),
            (300_000_000_000u64, "300"@),
            (600_000_000_000u64, "600"@),
            (1_800_000_000_000u64, "1800"@),
            (3_600_000_000_000u64, "3600"@),
        ],
    }
}

/// A counter value after one more; counters wrap around.
pub open spec fn more(n: u64) -> u64 {
    if n == u64::MAX {
        0
    } else {
        (n + 1) as u64
    }
}

/// A gauge value after one less; gauges wrap around.
pub open spec fn less(n: u64) -> u64 {
    if n == 0 {
        u64::MAX
    } else {
        (n - 1) as u64
    }
}

/// A histogram: how many observations fell into each bucket, and how many there were.
#[derive(Debug)]
pub struct Histogram {
    /// The upper bound of each bucket in nanoseconds, with its text in seconds.
    pub bounds: Vec<(u64, &'static str)>,
    pub buckets: Vec<u64>,
    pub count: u64,
}

pub struct HistogramView {
    pub bounds: Seq<(u64, Seq<char>)>,
    pub buckets: Seq<u64>,
    pub count: u64,
}

pub open spec fn bounds_view(list: Seq<(u64, &'static str)>) -> Seq<(u64, Seq<char>)> {
    Seq::new(list.len(), |i: int| (list[i].0, list[i].1@))
}

/// The first bucket whose bound is not below the value, or the number of buckets.
pub open spec fn bucket_of(bounds: Seq<(u64, Seq<char>)>, nanos: u64, from: int) -> int
    decreases bounds.len() - from,
{
    if from < 0 || from >= bounds.len() {
        bounds.len() as int
    } else if nanos <= bounds[from].0 {
        from
    } else {
        bucket_of(bounds, nanos, from + 1)
    }
}

/// A histogram after one more observation.
pub open spec fn observed(h: HistogramView, nanos: u64) -> HistogramView {
    let i = bucket_of(h.bounds, nanos, 0);
    HistogramView {
        bounds: h.bounds,
        buckets: if i < h.buckets.len() {
            h.buckets.update(i, more(h.buckets[i]))
        } else {
            h.buckets
        },
        count: more(h.count),
    }
}

/// The number of observations in the first `k` buckets.
pub open spec fn cumulative(buckets: Seq<u64>, k: int) -> u64
    decreases k,
{
    if k <= 0 {
        0
    } else {
        ((cumulative(buckets, k - 1) + buckets[k - 1]) % 0x1_0000_0000_0000_0000) as u64
    }
}

/// The line of a bucket with this bound and number of observations.
pub open spec fn bucket_line(name: Seq<char>, bound: Seq<char>, total: u64) -> Seq<char> {
    name + "_bucket{le=\""@ + bound + "\"} "@ + text::decimal(total as nat) + "\n"@
}

/// The lines of the first `k` buckets.
pub open spec fn bucket_lines(h: HistogramView, name: Seq<char>, k: int) -> Seq<char>
    decreases k,
{
    if k <= 0 {
        Seq::empty()
    } else {
        bucket_lines(h, name, k - 1) + bucket_line(
            name,
            h.bounds[k - 1].1,
            cumulative(h.buckets, k),
        )
    }
}

/// A histogram in the text format.
pub open spec fn histogram_text(
    h: HistogramView,
    name: Seq<char>,
    help: Seq<char>,
    sum: Seq<char>,
) -> Seq<char> {
    "# HELP "@ + name + " "@ + help + "\n# TYPE "@ + name + " histogram\n"@ + bucket_lines(
        h,
        name,
        h.bounds.len() as int,
    ) + bucket_line(name, "+Inf"@, h.count) + name + "_sum "@ + sum + "\n"@ + name + "_count "@ + text::decimal(h.count as nat) + "\n"@
}

impl View for Histogram {
    type V = HistogramView;

    open spec fn view(&self) -> HistogramView {
        HistogramView {
            bounds: bounds_view(self.bounds@),
            buckets: self.buckets@,
            count: self.count,
        }
    }
}

/// The bounds of this kind.
pub fn bound_table(kind: Buckets) -> (res: Vec<(u64, &'static str)>)
    ensures
        bounds_view(res@) == bounds(kind),
{
    let table: Vec<(u64, &'static str)> = match kind {
        Buckets::Latency => vec![
            (5_000_000, "0.005"),
            (10_000_000, "0.01"),
            (25_000_000, "0.025"),
            (50_000_000, "0.05"),
            (100_000_000, "0.1"),
            (250_000_000, "0.25"),
            (500_000_000, "0.5"),
            (1_000_000_000, "1"),
            (2_500_000_000, "2.5"),
            (5_000_000_000, "5"),
            (10_000_000_000, "10"),
        ],
        Buckets::CallDuration => vec![
            (1_000_000_000, "1"),
            (5_000_000_000, "5"),
            (10_000_000_000, "10"),
            (30_000_000_000, "30"),
            (60_000_000_000, "60"),
            (120_000_000_000, "120"),
            (300_000_000_000, "300"),
            (600_000_000_000, "600"),
            (1_800_000_000_000, "1800"),
            (3_600_000_000_000, "3600"),
        ],
    };
    assert(bounds_view(table@) =~= bounds(kind));
    table
}

/// The line of a bucket.
fn render_bucket(name: &str, bound: &str, total: u64) -> (out: String)
    ensures
        out@ == bucket_line(name@, bound@, total),
{
    let mut out: String = name.to_owned();
    out.append("_bucket{le=\"");
    out.append(bound);
    out.append("\"} ");
    text::push_decimal(&mut out, total);
    out.append("\n");
    out
}

impl Histogram {
    /// Whether there is a counter for each bound.
    pub open spec fn wf(&self) -> bool {
        self.buckets@.len() == self.bounds@.len()
    }

    /// A histogram with these bounds and without observations.
    pub fn new(bounds: Vec<(u64, &'static str)>) -> (h: Self)
        ensures
            h.wf(),
            h@.bounds == bounds_view(bounds@),
            is_empty(h@),
    {
        let mut buckets: Vec<u64> = Vec::new();
        let mut i: usize = 0;
        while i < bounds.len()
            invariant
                i <= bounds@.len(),
                buckets@.len() == i,
                forall|j: int| 0 <= j < i ==> buckets@[j] == 0,
            decreases bounds@.len() - i,
        {
            buckets.push(0);
            i += 1;
        }
        Histogram { bounds, buckets, count: 0 }
    }

    /// Counts one observation.
    pub fn observe(&mut self, nanos: u64)
        requires
            old(self).wf(),
        ensures
            final(self).wf(),
            final(self)@ == observed(old(self)@, nanos),
    {
        let mut i: usize = 0;
        while i < self.buckets.len() && nanos > self.bounds[i].0
            invariant
                self.wf(),
                *self == *old(self),
                i <= self.buckets@.len(),
                bucket_of(self@.bounds, nanos, 0) == bucket_of(self@.bounds, nanos, i as int),
            decreases self.buckets@.len() - i,
        {
            i += 1;
        }
        if i < self.buckets.len() {
            let n: u64 = self.buckets[i];
            self.buckets.set(i, n.wrapping_add(1));
        }
        self.count = self.count.wrapping_add(1);
        assert(self@.buckets =~= observed(old(self)@, nanos).buckets);
    }

    /// Appends the histogram in the text format; `sum` is the text of the sum of the
    /// observed values in seconds.
    pub fn render(&self, out: &mut String, name: &str, help: &str, sum: &str)
        requires
            self.wf(),
        ensures
            final(out)@ == old(out)@ + histogram_text(self@, name@, help@, sum@),
    {
        let mut lines: String = String::from_str("# HELP ");
        lines.append(name);
        lines.append(" ");
        lines.append(help);
        lines.append("\n# TYPE ");
        lines.append(name);
        lines.append(" histogram\n");
        let ghost head = lines@;
        let mut total: u64 = 0;
        let mut i: usize = 0;
        assert(head + bucket_lines(self@, name@, 0) =~= head);
        while i < self.buckets.len()
            invariant
                self.wf(),
                i <= self.buckets@.len(),
                total == cumulative(self@.buckets, i as int),
                lines@ == head + bucket_lines(self@, name@, i as int),
            decreases self.buckets@.len() - i,
        {
            total = total.wrapping_add(self.buckets[i]);
            let ghost before = lines@;
            let line: String = render_bucket(name, self.bounds[i].1, total);
            lines.append(line.as_str());
            assert(head + (bucket_lines(self@, name@, i as int) + line@) =~= before + line@);
            i += 1;
        }
        lines.append(render_bucket(name, "+Inf", self.count).as_str());
        lines.append(name);
        lines.append("_sum ");
        lines.append(sum);
        lines.append("\n");
        lines.append(name);
        lines.append("_count ");
        text::push_decimal(&mut lines, self.count);
        lines.append("\n");
        assert(lines@ == histogram_text(self@, name@, help@, sum@));
        out.append(lines.as_str());
    }
}

/// The text of the sums of the observed durations, in seconds.
#[derive(Debug)]
pub struct DurationSums {
    pub call: String,
    pub http_request: String,
    pub webhook: String,
}

/// The counters, gauges and histograms of a gateway.
#[derive(Debug)]
pub struct Metrics {
    pub calls_inbound: u64,
    pub calls_outbound: u64,
    pub webhooks_sent: u64,
    pub webhooks_failed: u64,
    pub http_requests: u64,
    pub ws_connections: u64,
    pub trunk_calls_inbound: u64,
    pub rate_limit_rejections: u64,
    pub ws_frames_sent: u64,
    pub ws_frames_received: u64,
    pub call_duration: Histogram,
    pub http_request_duration: Histogram,
    pub webhook_duration: Histogram,
}

pub struct MetricsView {
    pub calls_inbound: u64,
    pub calls_outbound: u64,
    pub webhooks_sent: u64,
    pub webhooks_failed: u64,
    pub http_requests: u64,
    pub ws_connections: u64,
    pub trunk_calls_inbound: u64,
    pub rate_limit_rejections: u64,
    pub ws_frames_sent: u64,
    pub ws_frames_received: u64,
    pub call_duration: HistogramView,
    pub http_request_duration: HistogramView,
    pub webhook_duration: HistogramView,
}

impl View for Metrics {
    type V = MetricsView;

    open spec fn view(&self) -> MetricsView {
        MetricsView {
            calls_inbound: self.calls_inbound,
            calls_outbound: self.calls_outbound,
            webhooks_sent: self.webhooks_sent,
            webhooks_failed: self.webhooks_failed,
            http_requests: self.http_requests,
            ws_connections: self.ws_connections,
            trunk_calls_inbound: self.trunk_calls_inbound,
            rate_limit_rejections: self.rate_limit_rejections,
            ws_frames_sent: self.ws_frames_sent,
            ws_frames_received: self.ws_frames_received,
            call_duration: self.call_duration@,
            http_request_duration: self.http_request_duration@,
            webhook_duration: self.webhook_duration@,
        }
    }
}

/// Whether a histogram has counted nothing.
pub open spec fn is_empty(h: HistogramView) -> bool {
    &&& h.count == 0
    &&& h.buckets.len() == h.bounds.len()
    &&& forall|i: int| 0 <= i < h.buckets.len() ==> h.buckets[i] == 0
}

/// Whether nothing has been counted.
pub open spec fn is_fresh(m: MetricsView) -> bool {
    &&& m.calls_inbound == 0
    &&& m.calls_outbound == 0
    &&& m.webhooks_sent == 0
    &&& m.webhooks_failed == 0
    &&& m.http_requests == 0
    &&& m.ws_connections == 0
    &&& m.trunk_calls_inbound == 0
    &&& m.rate_limit_rejections == 0
    &&& m.ws_frames_sent == 0
    &&& m.ws_frames_received == 0
    &&& m.call_duration.bounds == bounds(Buckets::CallDuration)
    &&& m.http_request_duration.bounds == bounds(Buckets::Latency)
    &&& m.webhook_duration.bounds == bounds(Buckets::Latency)
    &&& is_empty(m.call_duration)
    &&& is_empty(m.http_request_duration)
    &&& is_empty(m.webhook_duration)
}

/// The counters and gauges in the text format.
pub open spec fn counters_text(m: MetricsView, active_calls: nat) -> Seq<char> {
    "# HELP xbridge_calls_total Total calls processed\n# TYPE xbridge_calls_total counter\nxbridge_calls_total {direction=\"inbound\"} "@
        + text::decimal(m.calls_inbound as nat)
        + "\nxbridge_calls_total {direction=\"outbound\"} "@ + text::decimal(m.calls_outbound as nat)
        + "\n# HELP xbridge_active_calls Currently active calls\n# TYPE xbridge_active_calls gauge\nxbridge_active_calls "@
        + text::decimal(active_calls)
        + "\n# HELP xbridge_http_requests_total Total HTTP requests\n# TYPE xbridge_http_requests_total counter\nxbridge_http_requests_total "@
        + text::decimal(m.http_requests as nat)
        + "\n# HELP xbridge_ws_connections Active WebSocket connections\n# TYPE xbridge_ws_connections gauge\nxbridge_ws_connections "@
        + text::decimal(m.ws_connections as nat)
        + "\n# HELP xbridge_ws_frames_total WebSocket frames processed\n# TYPE xbridge_ws_frames_total counter\nxbridge_ws_frames_total {direction=\"sent\"} "@
        + text::decimal(m.ws_frames_sent as nat)
        + "\nxbridge_ws_frames_total {direction=\"received\"} "@ + text::decimal(
        m.ws_frames_received as nat,
    )
        + "\n# HELP xbridge_webhooks_total Total webhook deliveries\n# TYPE xbridge_webhooks_total counter\nxbridge_webhooks_total {result=\"success\"} "@
        + text::decimal(m.webhooks_sent as nat)
        + "\nxbridge_webhooks_total {result=\"failure\"} "@ + text::decimal(m.webhooks_failed as nat)
        + "\n# HELP xbridge_trunk_calls_total Total calls from trunk host peers\n# TYPE xbridge_trunk_calls_total counter\nxbridge_trunk_calls_total "@
        + text::decimal(m.trunk_calls_inbound as nat)
        + "\n# HELP xbridge_rate_limit_rejections_total HTTP requests rejected by rate limiter\n# TYPE xbridge_rate_limit_rejections_total counter\nxbridge_rate_limit_rejections_total "@
        + text::decimal(m.rate_limit_rejections as nat) + "\n"@
}

/// Everything in the text format.
pub open spec fn metrics_text(
    m: MetricsView,
    active_calls: nat,
    call_sum: Seq<char>,
    http_sum: Seq<char>,
    webhook_sum: Seq<char>,
) -> Seq<char> {
    counters_text(m, active_calls) + histogram_text(
        m.call_duration,
        "xbridge_call_duration_seconds"@,
        "Call duration"@,
        call_sum,
    ) + histogram_text(
        m.http_request_duration,
        "xbridge_http_request_duration_seconds"@,
        "HTTP request duration"@,
        http_sum,
    ) + histogram_text(
        m.webhook_duration,
        "xbridge_webhook_duration_seconds"@,
        "Webhook delivery duration"@,
        webhook_sum,
    )
}

impl Metrics {
    /// Whether each histogram has a counter for each of its bounds.
    pub open spec fn wf(&self) -> bool {
        self.call_duration.wf() && self.http_request_duration.wf() && self.webhook_duration.wf()
    }

    /// Metrics with nothing counted.
    pub fn new() -> (m: Self)
        ensures
            m.wf(),
            is_fresh(m@),
    {
        Metrics {
            calls_inbound: 0,
            calls_outbound: 0,
            webhooks_sent: 0,
            webhooks_failed: 0,
            http_requests: 0,
            ws_connections: 0,
            trunk_calls_inbound: 0,
            rate_limit_rejections: 0,
            ws_frames_sent: 0,
            ws_frames_received: 0,
            call_duration: Histogram::new(bound_table(Buckets::CallDuration)),
            http_request_duration: Histogram::new(bound_table(Buckets::Latency)),
            webhook_duration: Histogram::new(bound_table(Buckets::Latency)),
        }
    }

    /// Counts an inbound call.
    pub fn inc_calls_inbound(&mut self)
        requires
            old(self).wf(),
        ensures
            final(self).wf(),
            final(self)@ == (MetricsView { calls_inbound: more(old(self)@.calls_inbound), ..old(self)@ }),
    {
        self.calls_inbound = self.calls_inbound.wrapping_add(1);
    }

    /// Counts an outbound call.
    pub fn inc_calls_outbound(&mut self)
        requires
            old(self).wf(),
        ensures
            final(self).wf(),
            final(self)@ == (MetricsView { calls_outbound: more(old(self)@.calls_outbound), ..old(self)@ }),
    {
        self.calls_outbound = self.calls_outbound.wrapping_add(1);
    }

    /// Counts a delivered webhook.
    pub fn inc_webhooks_sent(&mut self)
        requires
            old(self).wf(),
        ensures
            final(self).wf(),
            final(self)@ == (MetricsView { webhooks_sent: more(old(self)@.webhooks_sent), ..old(self)@ }),
    {
        self.webhooks_sent = self.webhooks_sent.wrapping_add(1);
    }

    /// Counts a webhook that could not be delivered.
    pub fn inc_webhooks_failed(&mut self)
        requires
            old(self).wf(),
        ensures
            final(self).wf(),
            final(self)@ == (MetricsView { webhooks_failed: more(old(self)@.webhooks_failed), ..old(self)@ }),
    {
        self.webhooks_failed = self.webhooks_failed.wrapping_add(1);
    }

    /// Counts an HTTP request.
    pub fn inc_http_requests(&mut self)
        requires
            old(self).wf(),
        ensures
            final(self).wf(),
            final(self)@ == (MetricsView { http_requests: more(old(self)@.http_requests), ..old(self)@ }),
    {
        self.http_requests = self.http_requests.wrapping_add(1);
    }

    /// Counts a WebSocket that was opened.
    pub fn inc_ws_connections(&mut self)
        requires
            old(self).wf(),
        ensures
            final(self).wf(),
            final(self)@ == (MetricsView { ws_connections: more(old(self)@.ws_connections), ..old(self)@ }),
    {
        self.ws_connections = self.ws_connections.wrapping_add(1);
    }

    /// Counts a WebSocket that was closed.
    pub fn dec_ws_connections(&mut self)
        requires
            old(self).wf(),
        ensures
            final(self).wf(),
            final(self)@ == (MetricsView { ws_connections: less(old(self)@.ws_connections), ..old(self)@ }),
    {
        self.ws_connections = self.ws_connections.wrapping_sub(1);
    }

    /// Counts a call from a trunk host peer.
    pub fn inc_trunk_calls_inbound(&mut self)
        requires
            old(self).wf(),
        ensures
            final(self).wf(),
            final(self)@ == (MetricsView { trunk_calls_inbound: more(old(self)@.trunk_calls_inbound), ..old(self)@ }),
    {
        self.trunk_calls_inbound = self.trunk_calls_inbound.wrapping_add(1);
    }

    /// Counts a request over the rate limit.
    pub fn inc_rate_limit_rejections(&mut self)
        requires
            old(self).wf(),
        ensures
            final(self).wf(),
            final(self)@ == (MetricsView { rate_limit_rejections: more(old(self)@.rate_limit_rejections), ..old(self)@ }),
    {
        self.rate_limit_rejections = self.rate_limit_rejections.wrapping_add(1);
    }

    /// Counts a frame sent over a WebSocket.
    pub fn inc_ws_frames_sent(&mut self)
        requires
            old(self).wf(),
        ensures
            final(self).wf(),
            final(self)@ == (MetricsView { ws_frames_sent: more(old(self)@.ws_frames_sent), ..old(self)@ }),
    {
        self.ws_frames_sent = self.ws_frames_sent.wrapping_add(1);
    }

    /// Counts an audio frame that came over a WebSocket.
    pub fn inc_ws_frames_received(&mut self)
        requires
            old(self).wf(),
        ensures
            final(self).wf(),
            final(self)@ == (MetricsView { ws_frames_received: more(old(self)@.ws_frames_received), ..old(self)@ }),
    {
        self.ws_frames_received = self.ws_frames_received.wrapping_add(1);
    }

    /// Counts a call of this duration.
    pub fn observe_call_duration(&mut self, nanos: u64)
        requires
            old(self).wf(),
        ensures
            final(self).wf(),
            final(self)@ == (MetricsView {
                call_duration: observed(old(self)@.call_duration, nanos),
                ..old(self)@
            }),
    {
        self.call_duration.observe(nanos);
    }

    /// Counts an HTTP request of this duration.
    pub fn observe_http_request_duration(&mut self, nanos: u64)
        requires
            old(self).wf(),
        ensures
            final(self).wf(),
            final(self)@ == (MetricsView {
                http_request_duration: observed(old(self)@.http_request_duration, nanos),
                ..old(self)@
            }),
    {
        self.http_request_duration.observe(nanos);
    }

    /// Counts a webhook delivery of this duration.
    pub fn observe_webhook_duration(&mut self, nanos: u64)
        requires
            old(self).wf(),
        ensures
            final(self).wf(),
            final(self)@ == (MetricsView {
                webhook_duration: observed(old(self)@.webhook_duration, nanos),
                ..old(self)@
            }),
    {
        self.webhook_duration.observe(nanos);
    }

    /// The counters and gauges in the text format.
    fn render_counters(&self, active_calls: usize) -> (out: String)
        ensures
            out@ == counters_text(self@, active_calls as nat),
    {
        let mut out: String = String::from_str(
            "# HELP xbridge_calls_total Total calls processed\n# TYPE xbridge_calls_total counter\nxbridge_calls_total {direction=\"inbound\"} ",
        );
        text::push_decimal(&mut out, self.calls_inbound);
        out.append("\nxbridge_calls_total {direction=\"outbound\"} ");
        text::push_decimal(&mut out, self.calls_outbound);
        out.append(
            "\n# HELP xbridge_active_calls Currently active calls\n# TYPE xbridge_active_calls gauge\nxbridge_active_calls ",
        );
        text::push_decimal(&mut out, active_calls as u64);
        out.append(
            "\n# HELP xbridge_http_requests_total Total HTTP requests\n# TYPE xbridge_http_requests_total counter\nxbridge_http_requests_total ",
        );
        text::push_decimal(&mut out, self.http_requests);
        out.append(
            "\n# HELP xbridge_ws_connections Active WebSocket connections\n# TYPE xbridge_ws_connections gauge\nxbridge_ws_connections ",
        );
        text::push_decimal(&mut out, self.ws_connections);
        out.append(
            "\n# HELP xbridge_ws_frames_total WebSocket frames processed\n# TYPE xbridge_ws_frames_total counter\nxbridge_ws_frames_total {direction=\"sent\"} ",
        );
        text::push_decimal(&mut out, self.ws_frames_sent);
        out.append("\nxbridge_ws_frames_total {direction=\"received\"} ");
        text::push_decimal(&mut out, self.ws_frames_received);
        out.append(
            "\n# HELP xbridge_webhooks_total Total webhook deliveries\n# TYPE xbridge_webhooks_total counter\nxbridge_webhooks_total {result=\"success\"} ",
        );
        text::push_decimal(&mut out, self.webhooks_sent);
        out.append("\nxbridge_webhooks_total {result=\"failure\"} ");
        text::push_decimal(&mut out, self.webhooks_failed);
        out.append(
            "\n# HELP xbridge_trunk_calls_total Total calls from trunk host peers\n# TYPE xbridge_trunk_calls_total counter\nxbridge_trunk_calls_total ",
        );
        text::push_decimal(&mut out, self.trunk_calls_inbound);
        out.append(
            "\n# HELP xbridge_rate_limit_rejections_total HTTP requests rejected by rate limiter\n# TYPE xbridge_rate_limit_rejections_total counter\nxbridge_rate_limit_rejections_total ",
        );
        text::push_decimal(&mut out, self.rate_limit_rejections);
        out.append("\n");
        out
    }

    /// Everything in the Prometheus text format.
    pub fn render(&self, active_calls: usize, sums: &DurationSums) -> (out: String)
        requires
            self.wf(),
        ensures
            out@ == metrics_text(
                self@,
                active_calls as nat,
                sums.call@,
                sums.http_request@,
                sums.webhook@,
            ),
    {
        let mut out: String = self.render_counters(active_calls);
        self.call_duration.render(
            &mut out,
            "xbridge_call_duration_seconds",
            "Call duration",
            sums.call.as_str(),
        );
        self.http_request_duration.render(
            &mut out,
            "xbridge_http_request_duration_seconds",
            "HTTP request duration",
            sums.http_request.as_str(),
        );
        self.webhook_duration.render(
            &mut out,
            "xbridge_webhook_duration_seconds",
            "Webhook delivery duration",
            sums.webhook.as_str(),
        );
        out
    }
}

// ── Laws ──

/// Whether each bound is at least as large as those before it.
pub open spec fn rising(bounds: Seq<(u64, Seq<char>)>) -> bool {
    forall|i: int, j: int|
        0 <= i <= j < bounds.len() ==> (#[trigger] bounds[i]).0 <= (#[trigger] bounds[j]).0
}

/// The bounds in use rise.
pub proof fn law_bounds_rise(kind: Buckets)
    ensures
        rising(bounds(kind)),
{
}

/// Below the point where counters wrap, the count of a histogram goes up by one with
/// each observation, and so does the number in all buckets whose bound is not below it.
pub proof fn law_histogram(h: HistogramView, nanos: u64, k: int)
    requires
        rising(h.bounds),
        h.buckets.len() == h.bounds.len(),
        0 < k <= h.buckets.len(),
        h.count < u64::MAX,
        exact(h.buckets, h.buckets.len() as int) < u64::MAX,
    ensures
        observed(h, nanos).count == h.count + 1,
        cumulative(observed(h, nanos).buckets, k) == cumulative(h.buckets, k) + (if nanos
            <= h.bounds[k - 1].0 {
            1int
        } else {
            0
        }),
{
    let i = bucket_of(h.bounds, nanos, 0);
    lemma_bucket_of(h.bounds, nanos, 0);
    lemma_exact_grows(h.buckets, k, h.buckets.len() as int);
    if i < h.buckets.len() {
        lemma_exact_grows(h.buckets, i + 1, h.buckets.len() as int);
        lemma_exact_grows(h.buckets, 0, i);
        lemma_exact_update(h.buckets, i, k);
        lemma_exact_update(h.buckets, i, h.buckets.len() as int);
    }
    lemma_cumulative_exact(h.buckets, k);
    let after = observed(h, nanos).buckets;
    lemma_exact_grows(after, k, after.len() as int);
    lemma_cumulative_exact(after, k);
}

/// A histogram after a run of observations.
pub open spec fn observed_all(h: HistogramView, values: Seq<u64>) -> HistogramView
    decreases values.len(),
{
    if values.len() == 0 {
        h
    } else {
        observed(observed_all(h, values.drop_last()), values.last())
    }
}

/// How many of the values are not above the bound.
pub open spec fn at_most(values: Seq<u64>, bound: u64) -> nat
    decreases values.len(),
{
    if values.len() == 0 {
        0
    } else {
        at_most(values.drop_last(), bound) + if values.last() <= bound {
            1nat
        } else {
            0
        }
    }
}

/// The lines of the first `k` buckets after a run of observations: for each bound the
/// number of values that are not above it.
pub open spec fn run_lines(
    bounds: Seq<(u64, Seq<char>)>,
    values: Seq<u64>,
    name: Seq<char>,
    k: int,
) -> Seq<char>
    decreases k,
{
    if k <= 0 {
        Seq::empty()
    } else {
        let (bound, bound_text) = bounds[k - 1];
        run_lines(bounds, values, name, k - 1) + bucket_line(
            name,
            bound_text,
            at_most(values, bound) as u64,
        )
    }
}

/// What is reported of a run of observations: the buckets, then their number as the last
/// bucket, the sum and their number again.
pub open spec fn run_text(
    bounds: Seq<(u64, Seq<char>)>,
    values: Seq<u64>,
    name: Seq<char>,
    help: Seq<char>,
    sum: Seq<char>,
) -> Seq<char> {
    "# HELP "@ + name + " "@ + help + "\n# TYPE "@ + name + " histogram\n"@ + run_lines(
        bounds,
        values,
        name,
        bounds.len() as int,
    ) + bucket_line(name, "+Inf"@, values.len() as u64) + name + "_sum "@ + sum + "\n"@ + name
        + "_count "@ + text::decimal(values.len()) + "\n"@
}

/// After a run of observations, as many as a counter holds, each bucket reports how many of
/// them are not above its bound, so that the numbers never fall from one bucket to the
/// next; the last bucket and the count report how many there were.
pub proof fn law_histogram_run(
    h: HistogramView,
    values: Seq<u64>,
    name: Seq<char>,
    help: Seq<char>,
    sum: Seq<char>,
)
    requires
        is_empty(h),
        rising(h.bounds),
        values.len() <= u64::MAX,
    ensures
        ({
            let after = observed_all(h, values);
            &&& after.count == values.len()
            &&& forall|k: int|
                0 < k <= h.buckets.len() ==> #[trigger] cumulative(after.buckets, k) == at_most(
                    values,
                    h.bounds[k - 1].0,
                )
            &&& forall|j: int, k: int|
                0 <= j <= k <= h.buckets.len() ==> #[trigger] cumulative(after.buckets, j)
                    <= #[trigger] cumulative(after.buckets, k) <= after.count
            &&& histogram_text(after, name, help, sum) == run_text(
                h.bounds,
                values,
                name,
                help,
                sum,
            )
        }),
{
    let n = h.buckets.len() as int;
    let after = observed_all(h, values);
    assert forall|k: int| 0 < k <= n implies #[trigger] cumulative(after.buckets, k) == at_most(
        values,
        h.bounds[k - 1].0,
    ) by {
        lemma_run(h, values, k);
        lemma_cumulative_exact(after.buckets, k);
    }
    assert forall|j: int, k: int| 0 <= j <= k <= n implies #[trigger] cumulative(after.buckets, j)
        <= #[trigger] cumulative(after.buckets, k) <= after.count by {
        lemma_run(h, values, k);
        lemma_exact_grows(after.buckets, j, k);
        lemma_cumulative_exact(after.buckets, j);
        lemma_cumulative_exact(after.buckets, k);
    }
    lemma_run(h, values, n);
    lemma_run_lines(h, values, name, n);
}

proof fn lemma_run_lines(h: HistogramView, values: Seq<u64>, name: Seq<char>, k: int)
    requires
        is_empty(h),
        rising(h.bounds),
        values.len() <= u64::MAX,
        0 <= k <= h.buckets.len(),
    ensures
        bucket_lines(observed_all(h, values), name, k) == run_lines(h.bounds, values, name, k),
    decreases k,
{
    if k > 0 {
        lemma_run_lines(h, values, name, k - 1);
        lemma_run(h, values, k);
        lemma_cumulative_exact(observed_all(h, values).buckets, k);
    }
}

/// What a run of observations leaves in the first `k` buckets.
proof fn lemma_run(h: HistogramView, values: Seq<u64>, k: int)
    requires
        is_empty(h),
        rising(h.bounds),
        values.len() <= u64::MAX,
        0 <= k <= h.buckets.len(),
    ensures
        observed_all(h, values).bounds == h.bounds,
        observed_all(h, values).count == values.len(),
        observed_all(h, values).buckets.len() == h.buckets.len(),
        0 < k ==> exact(observed_all(h, values).buckets, k) == at_most(
            values,
            h.bounds[k - 1].0,
        ),
        exact(observed_all(h, values).buckets, k) <= values.len(),
    decreases values.len(),
{
    let n = h.buckets.len() as int;
    if values.len() == 0 {
        lemma_exact_empty(h.buckets, k);
    } else {
        let before = observed_all(h, values.drop_last());
        let nanos = values.last();
        lemma_run(h, values.drop_last(), k);
        lemma_run(h, values.drop_last(), n);
        let i = bucket_of(h.bounds, nanos, 0);
        lemma_bucket_of(h.bounds, nanos, 0);
        if i < n {
            lemma_exact_grows(before.buckets, i + 1, n);
            lemma_exact_update(before.buckets, i, k);
        }
    }
}

proof fn lemma_exact_empty(buckets: Seq<u64>, k: int)
    requires
        k <= buckets.len(),
        forall|i: int| 0 <= i < buckets.len() ==> #[trigger] buckets[i] == 0,
    ensures
        exact(buckets, k) == 0,
    decreases k,
{
    if k > 0 {
        lemma_exact_empty(buckets, k - 1);
    }
}

/// The number of observations in the first `k` buckets, without wrapping.
pub open spec fn exact(buckets: Seq<u64>, k: int) -> nat
    decreases k,
{
    if k <= 0 {
        0
    } else {
        exact(buckets, k - 1) + buckets[k - 1] as nat
    }
}

proof fn lemma_exact_grows(buckets: Seq<u64>, a: int, b: int)
    requires
        a <= b,
    ensures
        exact(buckets, a) <= exact(buckets, b),
        0 < a ==> buckets[a - 1] <= exact(buckets, b),
    decreases b - a,
{
    if a < b && b > 0 {
        lemma_exact_grows(buckets, a, b - 1);
    }
}

proof fn lemma_cumulative_exact(buckets: Seq<u64>, k: int)
    requires
        exact(buckets, k) <= u64::MAX,
    ensures
        cumulative(buckets, k) == exact(buckets, k),
    decreases k,
{
    if k > 0 {
        lemma_cumulative_exact(buckets, k - 1);
    }
}

proof fn lemma_exact_update(buckets: Seq<u64>, i: int, k: int)
    requires
        0 <= i < buckets.len(),
        0 <= k <= buckets.len(),
        buckets[i] < u64::MAX,
    ensures
        exact(buckets.update(i, more(buckets[i])), k) == exact(buckets, k) + (if i < k {
            1nat
        } else {
            0
        }),
    decreases k,
{
    if k > 0 {
        lemma_exact_update(buckets, i, k - 1);
    }
}

proof fn lemma_bucket_of(bounds: Seq<(u64, Seq<char>)>, nanos: u64, from: int)
    requires
        0 <= from <= bounds.len(),
    ensures
        ({
            let i = bucket_of(bounds, nanos, from);
            &&& from <= i <= bounds.len()
            &&& i < bounds.len() ==> nanos <= bounds[i].0
            &&& forall|j: int| from <= j < i ==> nanos > (#[trigger] bounds[j]).0
        }),
    decreases bounds.len() - from,
{
    if from < bounds.len() && nanos > bounds[from].0 {
        lemma_bucket_of(bounds, nanos, from + 1);
    }
}

// ── More laws ──

/// Counters go up by one, and a gauge that goes up and down again is as before.
pub proof fn law_counting(n: u64)
    ensures
        n < u64::MAX ==> more(n) == n + 1,
        n > 0 ==> less(n) == n - 1,
        less(more(n)) == n,
        more(less(n)) == n,
{
}

/// The bounds of the buckets in nanoseconds, and as they are written in seconds.
pub proof fn law_bounds()
    ensures
        bounds(Buckets::Latency) == seq![
            (5_000_000u64, seq!['0', '.', '0', '0', '5']),
            (10_000_000u64, seq!['0', '.', '0', '1']),
            (25_000_000u64, seq!['0', '.', '0', '2', '5']),
            (50_000_000u64, seq!['0', '.', '0', '5']),
            (100_000_000u64, seq!['0', '.', '1']),
            (250_000_000u64, seq!['0', '.', '2', '5']),
            (500_000_000u64, seq!['0', '.', '5']),
            (1_000_000_000u64, seq!['1']),
            (2_500_000_000u64, seq!['2', '.', '5']),
            (5_000_000_000u64, seq!['5']),
            (10_000_000_000u64, seq!['1', '0']),
        ],
        bounds(Buckets::CallDuration) == seq![
            (1_000_000_000u64, seq!['1']),
            (5_000_000_000u64, seq!['5']),
            (10_000_000_000u64, seq!['1', '0']),
            (30_000_000_000u64, seq!['3', '0']),
            (60_000_000_000u64, seq!['6', '0']),
            (120_000_000_000u64, seq!['1', '2', '0']),
            (300_000_000_000u64, seq!['3', '0', '0']),
            (600_000_000_000u64, seq!['6', '0', '0']),
            (1_800_000_000_000u64, seq!['1', '8', '0', '0']),
            (3_600_000_000_000u64, seq!['3', '6', '0', '0']),
        ],
{
    reveal_strlit("0.005");
    assert("0.005"@ =~= seq!['0', '.', '0', '0', '5']);
    reveal_strlit("0.01");
    assert("0.01"@ =~= seq!['0', '.', '0', '1']);
    reveal_strlit("0.025");
    assert("0.025"@ =~= seq!['0', '.', '0', '2', '5']);
    reveal_strlit("0.05");
    assert("0.05"@ =~= seq!['0', '.', '0', '5']);
    reveal_strlit("0.1");
    assert("0.1"@ =~= seq!['0', '.', '1']);
    reveal_strlit("0.25");
    assert("0.25"@ =~= seq!['0', '.', '2', '5']);
    reveal_strlit("0.5");
    assert("0.5"@ =~= seq!['0', '.', '5']);
    reveal_strlit("1");
    assert("1"@ =~= seq!['1']);
    reveal_strlit("10");
    assert("10"@ =~= seq!['1', '0']);
    reveal_strlit("120");
    assert("120"@ =~= seq!['1', '2', '0']);
    reveal_strlit("1800");
    assert("1800"@ =~= seq!['1', '8', '0', '0']);
    reveal_strlit("2.5");
    assert("2.5"@ =~= seq!['2', '.', '5']);
    reveal_strlit("30");
    assert("30"@ =~= seq!['3', '0']);
    reveal_strlit("300");
    assert("300"@ =~= seq!['3', '0', '0']);
    reveal_strlit("3600");
    assert("3600"@ =~= seq!['3', '6', '0', '0']);
    reveal_strlit("5");
    assert("5"@ =~= seq!['5']);
    reveal_strlit("60");
    assert("60"@ =~= seq!['6', '0']);
    reveal_strlit("600");
    assert("600"@ =~= seq!['6', '0', '0']);
}

/// Whether a text consists of these three parts, the second being a line of its own that is
/// not the first.
pub open spec fn is_line_in(
    text: Seq<char>,
    before: Seq<char>,
    line: Seq<char>,
    after: Seq<char>,
) -> bool {
    text == before + seq!['\n'] + line + seq!['\n'] + after
}

/// Whether a text has a line, after its first.
pub open spec fn has_line(text: Seq<char>, line: Seq<char>) -> bool {
    exists|before: Seq<char>, after: Seq<char>| is_line_in(text, before, line, after)
}

/// Each counter and gauge is reported in a line of its own, under its name, and so is the
/// number of observations of each histogram.
pub proof fn law_report(
    m: MetricsView,
    active_calls: nat,
    call_sum: Seq<char>,
    http_sum: Seq<char>,
    webhook_sum: Seq<char>,
)
    ensures
        ({
            let report = metrics_text(m, active_calls, call_sum, http_sum, webhook_sum);
            &&& has_line(report, "xbridge_calls_total {direction=\"inbound\"} "@ + text::decimal(m.calls_inbound as nat))
            &&& has_line(report, "xbridge_calls_total {direction=\"outbound\"} "@ + text::decimal(m.calls_outbound as nat))
            &&& has_line(report, "xbridge_active_calls "@ + text::decimal(active_calls))
            &&& has_line(report, "xbridge_http_requests_total "@ + text::decimal(m.http_requests as nat))
            &&& has_line(report, "xbridge_ws_connections "@ + text::decimal(m.ws_connections as nat))
            &&& has_line(report, "xbridge_ws_frames_total {direction=\"sent\"} "@ + text::decimal(m.ws_frames_sent as nat))
            &&& has_line(report, "xbridge_ws_frames_total {direction=\"received\"} "@ + text::decimal(m.ws_frames_received as nat))
            &&& has_line(report, "xbridge_webhooks_total {result=\"success\"} "@ + text::decimal(m.webhooks_sent as nat))
            &&& has_line(report, "xbridge_webhooks_total {result=\"failure\"} "@ + text::decimal(m.webhooks_failed as nat))
            &&& has_line(report, "xbridge_trunk_calls_total "@ + text::decimal(m.trunk_calls_inbound as nat))
            &&& has_line(report, "xbridge_rate_limit_rejections_total "@ + text::decimal(m.rate_limit_rejections as nat))
            &&& has_line(report, "xbridge_call_duration_seconds"@ + "_count "@ + text::decimal(m.call_duration.count as nat))
            &&& has_line(report, "xbridge_http_request_duration_seconds"@ + "_count "@ + text::decimal(m.http_request_duration.count as nat))
            &&& has_line(report, "xbridge_webhook_duration_seconds"@ + "_count "@ + text::decimal(m.webhook_duration.count as nat))
        }),
{
    let counters = counters_text(m, active_calls);
    let h1 = histogram_text(m.call_duration, "xbridge_call_duration_seconds"@, "Call duration"@, call_sum);
    let h2 = histogram_text(m.http_request_duration, "xbridge_http_request_duration_seconds"@, "HTTP request duration"@, http_sum);
    let h3 = histogram_text(m.webhook_duration, "xbridge_webhook_duration_seconds"@, "Webhook delivery duration"@, webhook_sum);
    let report = counters + h1 + h2 + h3;
    lemma_counter_lines(m, active_calls);
    lemma_begins(counters + h1 + h2, h3, report);
    lemma_begins(counters + h1, h2, report);
    lemma_begins(counters, h1, report);
    lemma_line_stays(counters, "xbridge_calls_total {direction=\"inbound\"} "@ + text::decimal(m.calls_inbound as nat), report);
    lemma_line_stays(counters, "xbridge_calls_total {direction=\"outbound\"} "@ + text::decimal(m.calls_outbound as nat), report);
    lemma_line_stays(counters, "xbridge_active_calls "@ + text::decimal(active_calls), report);
    lemma_line_stays(counters, "xbridge_http_requests_total "@ + text::decimal(m.http_requests as nat), report);
    lemma_line_stays(counters, "xbridge_ws_connections "@ + text::decimal(m.ws_connections as nat), report);
    lemma_line_stays(counters, "xbridge_ws_frames_total {direction=\"sent\"} "@ + text::decimal(m.ws_frames_sent as nat), report);
    lemma_line_stays(counters, "xbridge_ws_frames_total {direction=\"received\"} "@ + text::decimal(m.ws_frames_received as nat), report);
    lemma_line_stays(counters, "xbridge_webhooks_total {result=\"success\"} "@ + text::decimal(m.webhooks_sent as nat), report);
    lemma_line_stays(counters, "xbridge_webhooks_total {result=\"failure\"} "@ + text::decimal(m.webhooks_failed as nat), report);
    lemma_line_stays(counters, "xbridge_trunk_calls_total "@ + text::decimal(m.trunk_calls_inbound as nat), report);
    lemma_line_stays(counters, "xbridge_rate_limit_rejections_total "@ + text::decimal(m.rate_limit_rejections as nat), report);
    lemma_count_line(
        counters,
        m.call_duration,
        "xbridge_call_duration_seconds"@,
        "Call duration"@,
        call_sum,
    );
    lemma_count_line(
        counters + h1,
        m.http_request_duration,
        "xbridge_http_request_duration_seconds"@,
        "HTTP request duration"@,
        http_sum,
    );
    lemma_count_line(
        counters + h1 + h2,
        m.webhook_duration,
        "xbridge_webhook_duration_seconds"@,
        "Webhook delivery duration"@,
        webhook_sum,
    );
    lemma_line_stays(
        counters + h1,
        "xbridge_call_duration_seconds"@ + "_count "@ + text::decimal(m.call_duration.count as nat),
        report,
    );
    lemma_line_stays(
        counters + h1 + h2,
        "xbridge_http_request_duration_seconds"@ + "_count "@ + text::decimal(
            m.http_request_duration.count as nat,
        ),
        report,
    );
}

proof fn lemma_begins(start: Seq<char>, more: Seq<char>, text: Seq<char>)
    requires
        (start + more).is_prefix_of(text),
    ensures
        start.is_prefix_of(text),
{
    assert(text.subrange(0, start.len() as int) =~= (start + more).subrange(0, start.len() as int));
    assert((start + more).subrange(0, start.len() as int) =~= start);
}

proof fn lemma_line_stays(start: Seq<char>, line: Seq<char>, text: Seq<char>)
    requires
        has_line(start, line),
        start.is_prefix_of(text),
    ensures
        has_line(text, line),
{
    let (before, after) = choose|before: Seq<char>, after: Seq<char>|
        is_line_in(start, before, line, after);
    let rest = text.skip(start.len() as int);
    assert(text =~= start + rest);
    assert(text =~= before + seq!['\n'] + line + seq!['\n'] + (after + rest));
    assert(is_line_in(text, before, line, after + rest));
}

/// A number behind a text that ends with a line break and a name, and before another line
/// break, makes a line.
proof fn lemma_number_line(
    start: Seq<char>,
    head: Seq<char>,
    name: Seq<char>,
    number: Seq<char>,
    next: Seq<char>,
    tail: Seq<char>,
)
    requires
        next == seq!['\n'] + tail,
    ensures
        has_line(start + (head + seq!['\n'] + name) + number + next, name + number),
{
    let text = start + (head + seq!['\n'] + name) + number + next;
    assert(text =~= (start + head) + seq!['\n'] + (name + number) + seq!['\n'] + tail);
    assert(is_line_in(text, start + head, name + number, tail));
}

proof fn lemma_count_line(
    start: Seq<char>,
    h: HistogramView,
    name: Seq<char>,
    help: Seq<char>,
    sum: Seq<char>,
)
    ensures
        has_line(
            start + histogram_text(h, name, help, sum),
            name + "_count "@ + text::decimal(h.count as nat),
        ),
{
    reveal_strlit("\n");
    assert("\n"@ =~= seq!['\n']);
    let head = "# HELP "@ + name + " "@ + help + "\n# TYPE "@ + name + " histogram\n"@ + bucket_lines(
        h,
        name,
        h.bounds.len() as int,
    ) + bucket_line(name, "+Inf"@, h.count) + name + "_sum "@ + sum;
    let line = name + "_count "@ + text::decimal(h.count as nat);
    let text = start + histogram_text(h, name, help, sum);
    assert(text =~= (start + head) + seq!['\n'] + line + seq!['\n'] + Seq::<char>::empty());
    assert(is_line_in(text, start + head, line, Seq::<char>::empty()));
}

proof fn lemma_counter_lines(m: MetricsView, active_calls: nat)
    ensures
        ({
            let report = counters_text(m, active_calls);
            &&& has_line(report, "xbridge_calls_total {direction=\"inbound\"} "@ + text::decimal(m.calls_inbound as nat))
            &&& has_line(report, "xbridge_calls_total {direction=\"outbound\"} "@ + text::decimal(m.calls_outbound as nat))
            &&& has_line(report, "xbridge_active_calls "@ + text::decimal(active_calls))
            &&& has_line(report, "xbridge_http_requests_total "@ + text::decimal(m.http_requests as nat))
            &&& has_line(report, "xbridge_ws_connections "@ + text::decimal(m.ws_connections as nat))
            &&& has_line(report, "xbridge_ws_frames_total {direction=\"sent\"} "@ + text::decimal(m.ws_frames_sent as nat))
            &&& has_line(report, "xbridge_ws_frames_total {direction=\"received\"} "@ + text::decimal(m.ws_frames_received as nat))
            &&& has_line(report, "xbridge_webhooks_total {result=\"success\"} "@ + text::decimal(m.webhooks_sent as nat))
            &&& has_line(report, "xbridge_webhooks_total {result=\"failure\"} "@ + text::decimal(m.webhooks_failed as nat))
            &&& has_line(report, "xbridge_trunk_calls_total "@ + text::decimal(m.trunk_calls_inbound as nat))
            &&& has_line(report, "xbridge_rate_limit_rejections_total "@ + text::decimal(m.rate_limit_rejections as nat))
        }),
{
    let report = counters_text(m, active_calls);
    let p0 = Seq::<char>::empty();
    let l1 = "# HELP xbridge_calls_total Total calls processed\n# TYPE xbridge_calls_total counter\nxbridge_calls_total {direction=\"inbound\"} "@;
    let l2 = "\nxbridge_calls_total {direction=\"outbound\"} "@;
    let l3 = "\n# HELP xbridge_active_calls Currently active calls\n# TYPE xbridge_active_calls gauge\nxbridge_active_calls "@;
    let l4 = "\n# HELP xbridge_http_requests_total Total HTTP requests\n# TYPE xbridge_http_requests_total counter\nxbridge_http_requests_total "@;
    let l5 = "\n# HELP xbridge_ws_connections Active WebSocket connections\n# TYPE xbridge_ws_connections gauge\nxbridge_ws_connections "@;
    let l6 = "\n# HELP xbridge_ws_frames_total WebSocket frames processed\n# TYPE xbridge_ws_frames_total counter\nxbridge_ws_frames_total {direction=\"sent\"} "@;
    let l7 = "\nxbridge_ws_frames_total {direction=\"received\"} "@;
    let l8 = "\n# HELP xbridge_webhooks_total Total webhook deliveries\n# TYPE xbridge_webhooks_total counter\nxbridge_webhooks_total {result=\"success\"} "@;
    let l9 = "\nxbridge_webhooks_total {result=\"failure\"} "@;
    let l10 = "\n# HELP xbridge_trunk_calls_total Total calls from trunk host peers\n# TYPE xbridge_trunk_calls_total counter\nxbridge_trunk_calls_total "@;
    let l11 = "\n# HELP xbridge_rate_limit_rejections_total HTTP requests rejected by rate limiter\n# TYPE xbridge_rate_limit_rejections_total counter\nxbridge_rate_limit_rejections_total "@;
    let l12 = "\n"@;
    let p1 = l1 + text::decimal(m.calls_inbound as nat);
    let p2 = p1 + l2 + text::decimal(m.calls_outbound as nat);
    let p3 = p2 + l3 + text::decimal(active_calls);
    let p4 = p3 + l4 + text::decimal(m.http_requests as nat);
    let p5 = p4 + l5 + text::decimal(m.ws_connections as nat);
    let p6 = p5 + l6 + text::decimal(m.ws_frames_sent as nat);
    let p7 = p6 + l7 + text::decimal(m.ws_frames_received as nat);
    let p8 = p7 + l8 + text::decimal(m.webhooks_sent as nat);
    let p9 = p8 + l9 + text::decimal(m.webhooks_failed as nat);
    let p10 = p9 + l10 + text::decimal(m.trunk_calls_inbound as nat);
    let p11 = p10 + l11 + text::decimal(m.rate_limit_rejections as nat);
    assert(report == p11 + l12);
    assert(report.is_prefix_of(report)) by {
        assert(report.subrange(0, report.len() as int) =~= report);
    }
    lemma_begins(p11, l12, report);
    lemma_begins(p10 + l11, text::decimal(m.rate_limit_rejections as nat), report);
    lemma_begins(p10, l11, report);
    lemma_begins(p9 + l10, text::decimal(m.trunk_calls_inbound as nat), report);
    lemma_begins(p9, l10, report);
    lemma_begins(p8 + l9, text::decimal(m.webhooks_failed as nat), report);
    lemma_begins(p8, l9, report);
    lemma_begins(p7 + l8, text::decimal(m.webhooks_sent as nat), report);
    lemma_begins(p7, l8, report);
    lemma_begins(p6 + l7, text::decimal(m.ws_frames_received as nat), report);
    lemma_begins(p6, l7, report);
    lemma_begins(p5 + l6, text::decimal(m.ws_frames_sent as nat), report);
    lemma_begins(p5, l6, report);
    lemma_begins(p4 + l5, text::decimal(m.ws_connections as nat), report);
    lemma_begins(p4, l5, report);
    lemma_begins(p3 + l4, text::decimal(m.http_requests as nat), report);
    lemma_begins(p3, l4, report);
    lemma_begins(p2 + l3, text::decimal(active_calls), report);
    lemma_begins(p2, l3, report);
    lemma_begins(p1 + l2, text::decimal(m.calls_outbound as nat), report);
    lemma_begins(p1, l2, report);
    lemma_text_of_calls_inbound();
    lemma_number_line(p0, "# HELP xbridge_calls_total Total calls processed\n# TYPE xbridge_calls_total counter"@, "xbridge_calls_total {direction=\"inbound\"} "@, text::decimal(m.calls_inbound as nat), l2, l2.skip(1));
    assert(p0 + l1 =~= l1);
    lemma_line_stays(p1 + l2, "xbridge_calls_total {direction=\"inbound\"} "@ + text::decimal(m.calls_inbound as nat), report);
    lemma_text_of_calls_outbound();
    lemma_number_line(p1, ""@, "xbridge_calls_total {direction=\"outbound\"} "@, text::decimal(m.calls_outbound as nat), l3, l3.skip(1));
    lemma_line_stays(p2 + l3, "xbridge_calls_total {direction=\"outbound\"} "@ + text::decimal(m.calls_outbound as nat), report);
    lemma_text_of_active_calls();
    lemma_number_line(p2, "\n# HELP xbridge_active_calls Currently active calls\n# TYPE xbridge_active_calls gauge"@, "xbridge_active_calls "@, text::decimal(active_calls), l4, l4.skip(1));
    lemma_line_stays(p3 + l4, "xbridge_active_calls "@ + text::decimal(active_calls), report);
    lemma_text_of_http_requests();
    lemma_number_line(p3, "\n# HELP xbridge_http_requests_total Total HTTP requests\n# TYPE xbridge_http_requests_total counter"@, "xbridge_http_requests_total "@, text::decimal(m.http_requests as nat), l5, l5.skip(1));
    lemma_line_stays(p4 + l5, "xbridge_http_requests_total "@ + text::decimal(m.http_requests as nat), report);
    lemma_text_of_ws_connections();
    lemma_number_line(p4, "\n# HELP xbridge_ws_connections Active WebSocket connections\n# TYPE xbridge_ws_connections gauge"@, "xbridge_ws_connections "@, text::decimal(m.ws_connections as nat), l6, l6.skip(1));
    lemma_line_stays(p5 + l6, "xbridge_ws_connections "@ + text::decimal(m.ws_connections as nat), report);
    lemma_text_of_ws_frames_sent();
    lemma_number_line(p5, "\n# HELP xbridge_ws_frames_total WebSocket frames processed\n# TYPE xbridge_ws_frames_total counter"@, "xbridge_ws_frames_total {direction=\"sent\"} "@, text::decimal(m.ws_frames_sent as nat), l7, l7.skip(1));
    lemma_line_stays(p6 + l7, "xbridge_ws_frames_total {direction=\"sent\"} "@ + text::decimal(m.ws_frames_sent as nat), report);
    lemma_text_of_ws_frames_received();
    lemma_number_line(p6, ""@, "xbridge_ws_frames_total {direction=\"received\"} "@, text::decimal(m.ws_frames_received as nat), l8, l8.skip(1));
    lemma_line_stays(p7 + l8, "xbridge_ws_frames_total {direction=\"received\"} "@ + text::decimal(m.ws_frames_received as nat), report);
    lemma_text_of_webhooks_sent();
    lemma_number_line(p7, "\n# HELP xbridge_webhooks_total Total webhook deliveries\n# TYPE xbridge_webhooks_total counter"@, "xbridge_webhooks_total {result=\"success\"} "@, text::decimal(m.webhooks_sent as nat), l9, l9.skip(1));
    lemma_line_stays(p8 + l9, "xbridge_webhooks_total {result=\"success\"} "@ + text::decimal(m.webhooks_sent as nat), report);
    lemma_text_of_webhooks_failed();
    lemma_number_line(p8, ""@, "xbridge_webhooks_total {result=\"failure\"} "@, text::decimal(m.webhooks_failed as nat), l10, l10.skip(1));
    lemma_line_stays(p9 + l10, "xbridge_webhooks_total {result=\"failure\"} "@ + text::decimal(m.webhooks_failed as nat), report);
    lemma_text_of_trunk_calls_inbound();
    lemma_number_line(p9, "\n# HELP xbridge_trunk_calls_total Total calls from trunk host peers\n# TYPE xbridge_trunk_calls_total counter"@, "xbridge_trunk_calls_total "@, text::decimal(m.trunk_calls_inbound as nat), l11, l11.skip(1));
    lemma_line_stays(p10 + l11, "xbridge_trunk_calls_total "@ + text::decimal(m.trunk_calls_inbound as nat), report);
    lemma_text_of_rate_limit_rejections();
    lemma_number_line(p10, "\n# HELP xbridge_rate_limit_rejections_total HTTP requests rejected by rate limiter\n# TYPE xbridge_rate_limit_rejections_total counter"@, "xbridge_rate_limit_rejections_total "@, text::decimal(m.rate_limit_rejections as nat), l12, l12.skip(1));
    lemma_line_stays(p11 + l12, "xbridge_rate_limit_rejections_total "@ + text::decimal(m.rate_limit_rejections as nat), report);
}

proof fn lemma_text_of_calls_inbound()
    ensures
        "# HELP xbridge_calls_total Total calls processed\n# TYPE xbridge_calls_total counter\nxbridge_calls_total {direction=\"inbound\"} "@ == "# HELP xbridge_calls_total Total calls processed\n# TYPE xbridge_calls_total counter"@ + seq!['\n'] + "xbridge_calls_total {direction=\"inbound\"} "@,
        "\nxbridge_calls_total {direction=\"outbound\"} "@ == seq!['\n'] + "\nxbridge_calls_total {direction=\"outbound\"} "@.skip(1),
{
    reveal_strlit("# HELP xbridge_calls_total Total calls processed\n# TYPE xbridge_calls_total counter\nxbridge_calls_total {direction=\"inbound\"} ");
    reveal_strlit("# HELP xbridge_calls_total Total calls processed\n# TYPE xbridge_calls_total counter");
    reveal_strlit("\nxbridge_calls_total {direction=\"outbound\"} ");
    reveal_strlit("xbridge_calls_total {direction=\"inbound\"} ");
    assert("# HELP xbridge_calls_total Total calls processed\n# TYPE xbridge_calls_total counter\nxbridge_calls_total {direction=\"inbound\"} "@ =~= "# HELP xbridge_calls_total Total calls processed\n# TYPE xbridge_calls_total counter"@ + seq!['\n'] + "xbridge_calls_total {direction=\"inbound\"} "@);
    assert("\nxbridge_calls_total {direction=\"outbound\"} "@ =~= seq!['\n'] + "\nxbridge_calls_total {direction=\"outbound\"} "@.skip(1));
}

proof fn lemma_text_of_calls_outbound()
    ensures
        "\nxbridge_calls_total {direction=\"outbound\"} "@ == ""@ + seq!['\n'] + "xbridge_calls_total {direction=\"outbound\"} "@,
        "\n# HELP xbridge_active_calls Currently active calls\n# TYPE xbridge_active_calls gauge\nxbridge_active_calls "@ == seq!['\n'] + "\n# HELP xbridge_active_calls Currently active calls\n# TYPE xbridge_active_calls gauge\nxbridge_active_calls "@.skip(1),
{
    reveal_strlit("\nxbridge_calls_total {direction=\"outbound\"} ");
    reveal_strlit("");
    reveal_strlit("\n# HELP xbridge_active_calls Currently active calls\n# TYPE xbridge_active_calls gauge\nxbridge_active_calls ");
    reveal_strlit("xbridge_calls_total {direction=\"outbound\"} ");
    assert("\nxbridge_calls_total {direction=\"outbound\"} "@ =~= ""@ + seq!['\n'] + "xbridge_calls_total {direction=\"outbound\"} "@);
    assert("\n# HELP xbridge_active_calls Currently active calls\n# TYPE xbridge_active_calls gauge\nxbridge_active_calls "@ =~= seq!['\n'] + "\n# HELP xbridge_active_calls Currently active calls\n# TYPE xbridge_active_calls gauge\nxbridge_active_calls "@.skip(1));
}

proof fn lemma_text_of_active_calls()
    ensures
        "\n# HELP xbridge_active_calls Currently active calls\n# TYPE xbridge_active_calls gauge\nxbridge_active_calls "@ == "\n# HELP xbridge_active_calls Currently active calls\n# TYPE xbridge_active_calls gauge"@ + seq!['\n'] + "xbridge_active_calls "@,
        "\n# HELP xbridge_http_requests_total Total HTTP requests\n# TYPE xbridge_http_requests_total counter\nxbridge_http_requests_total "@ == seq!['\n'] + "\n# HELP xbridge_http_requests_total Total HTTP requests\n# TYPE xbridge_http_requests_total counter\nxbridge_http_requests_total "@.skip(1),
{
    reveal_strlit("\n# HELP xbridge_active_calls Currently active calls\n# TYPE xbridge_active_calls gauge\nxbridge_active_calls ");
    reveal_strlit("\n# HELP xbridge_active_calls Currently active calls\n# TYPE xbridge_active_calls gauge");
    reveal_strlit("\n# HELP xbridge_http_requests_total Total HTTP requests\n# TYPE xbridge_http_requests_total counter\nxbridge_http_requests_total ");
    reveal_strlit("xbridge_active_calls ");
    assert("\n# HELP xbridge_active_calls Currently active calls\n# TYPE xbridge_active_calls gauge\nxbridge_active_calls "@ =~= "\n# HELP xbridge_active_calls Currently active calls\n# TYPE xbridge_active_calls gauge"@ + seq!['\n'] + "xbridge_active_calls "@);
    assert("\n# HELP xbridge_http_requests_total Total HTTP requests\n# TYPE xbridge_http_requests_total counter\nxbridge_http_requests_total "@ =~= seq!['\n'] + "\n# HELP xbridge_http_requests_total Total HTTP requests\n# TYPE xbridge_http_requests_total counter\nxbridge_http_requests_total "@.skip(1));
}

proof fn lemma_text_of_http_requests()
    ensures
        "\n# HELP xbridge_http_requests_total Total HTTP requests\n# TYPE xbridge_http_requests_total counter\nxbridge_http_requests_total "@ == "\n# HELP xbridge_http_requests_total Total HTTP requests\n# TYPE xbridge_http_requests_total counter"@ + seq!['\n'] + "xbridge_http_requests_total "@,
        "\n# HELP xbridge_ws_connections Active WebSocket connections\n# TYPE xbridge_ws_connections gauge\nxbridge_ws_connections "@ == seq!['\n'] + "\n# HELP xbridge_ws_connections Active WebSocket connections\n# TYPE xbridge_ws_connections gauge\nxbridge_ws_connections "@.skip(1),
{
    reveal_strlit("\n# HELP xbridge_http_requests_total Total HTTP requests\n# TYPE xbridge_http_requests_total counter\nxbridge_http_requests_total ");
    reveal_strlit("\n# HELP xbridge_http_requests_total Total HTTP requests\n# TYPE xbridge_http_requests_total counter");
    reveal_strlit("\n# HELP xbridge_ws_connections Active WebSocket connections\n# TYPE xbridge_ws_connections gauge\nxbridge_ws_connections ");
    reveal_strlit("xbridge_http_requests_total ");
    assert("\n# HELP xbridge_http_requests_total Total HTTP requests\n# TYPE xbridge_http_requests_total counter\nxbridge_http_requests_total "@ =~= "\n# HELP xbridge_http_requests_total Total HTTP requests\n# TYPE xbridge_http_requests_total counter"@ + seq!['\n'] + "xbridge_http_requests_total "@);
    assert("\n# HELP xbridge_ws_connections Active WebSocket connections\n# TYPE xbridge_ws_connections gauge\nxbridge_ws_connections "@ =~= seq!['\n'] + "\n# HELP xbridge_ws_connections Active WebSocket connections\n# TYPE xbridge_ws_connections gauge\nxbridge_ws_connections "@.skip(1));
}

proof fn lemma_text_of_ws_connections()
    ensures
        "\n# HELP xbridge_ws_connections Active WebSocket connections\n# TYPE xbridge_ws_connections gauge\nxbridge_ws_connections "@ == "\n# HELP xbridge_ws_connections Active WebSocket connections\n# TYPE xbridge_ws_connections gauge"@ + seq!['\n'] + "xbridge_ws_connections "@,
        "\n# HELP xbridge_ws_frames_total WebSocket frames processed\n# TYPE xbridge_ws_frames_total counter\nxbridge_ws_frames_total {direction=\"sent\"} "@ == seq!['\n'] + "\n# HELP xbridge_ws_frames_total WebSocket frames processed\n# TYPE xbridge_ws_frames_total counter\nxbridge_ws_frames_total {direction=\"sent\"} "@.skip(1),
{
    reveal_strlit("\n# HELP xbridge_ws_connections Active WebSocket connections\n# TYPE xbridge_ws_connections gauge\nxbridge_ws_connections ");
    reveal_strlit("\n# HELP xbridge_ws_connections Active WebSocket connections\n# TYPE xbridge_ws_connections gauge");
    reveal_strlit("\n# HELP xbridge_ws_frames_total WebSocket frames processed\n# TYPE xbridge_ws_frames_total counter\nxbridge_ws_frames_total {direction=\"sent\"} ");
    reveal_strlit("xbridge_ws_connections ");
    assert("\n# HELP xbridge_ws_connections Active WebSocket connections\n# TYPE xbridge_ws_connections gauge\nxbridge_ws_connections "@ =~= "\n# HELP xbridge_ws_connections Active WebSocket connections\n# TYPE xbridge_ws_connections gauge"@ + seq!['\n'] + "xbridge_ws_connections "@);
    assert("\n# HELP xbridge_ws_frames_total WebSocket frames processed\n# TYPE xbridge_ws_frames_total counter\nxbridge_ws_frames_total {direction=\"sent\"} "@ =~= seq!['\n'] + "\n# HELP xbridge_ws_frames_total WebSocket frames processed\n# TYPE xbridge_ws_frames_total counter\nxbridge_ws_frames_total {direction=\"sent\"} "@.skip(1));
}

proof fn lemma_text_of_ws_frames_sent()
    ensures
        "\n# HELP xbridge_ws_frames_total WebSocket frames processed\n# TYPE xbridge_ws_frames_total counter\nxbridge_ws_frames_total {direction=\"sent\"} "@ == "\n# HELP xbridge_ws_frames_total WebSocket frames processed\n# TYPE xbridge_ws_frames_total counter"@ + seq!['\n'] + "xbridge_ws_frames_total {direction=\"sent\"} "@,
        "\nxbridge_ws_frames_total {direction=\"received\"} "@ == seq!['\n'] + "\nxbridge_ws_frames_total {direction=\"received\"} "@.skip(1),
{
    reveal_strlit("\n# HELP xbridge_ws_frames_total WebSocket frames processed\n# TYPE xbridge_ws_frames_total counter\nxbridge_ws_frames_total {direction=\"sent\"} ");
    reveal_strlit("\n# HELP xbridge_ws_frames_total WebSocket frames processed\n# TYPE xbridge_ws_frames_total counter");
    reveal_strlit("\nxbridge_ws_frames_total {direction=\"received\"} ");
    reveal_strlit("xbridge_ws_frames_total {direction=\"sent\"} ");
    assert("\n# HELP xbridge_ws_frames_total WebSocket frames processed\n# TYPE xbridge_ws_frames_total counter\nxbridge_ws_frames_total {direction=\"sent\"} "@ =~= "\n# HELP xbridge_ws_frames_total WebSocket frames processed\n# TYPE xbridge_ws_frames_total counter"@ + seq!['\n'] + "xbridge_ws_frames_total {direction=\"sent\"} "@);
    assert("\nxbridge_ws_frames_total {direction=\"received\"} "@ =~= seq!['\n'] + "\nxbridge_ws_frames_total {direction=\"received\"} "@.skip(1));
}

proof fn lemma_text_of_ws_frames_received()
    ensures
        "\nxbridge_ws_frames_total {direction=\"received\"} "@ == ""@ + seq!['\n'] + "xbridge_ws_frames_total {direction=\"received\"} "@,
        "\n# HELP xbridge_webhooks_total Total webhook deliveries\n# TYPE xbridge_webhooks_total counter\nxbridge_webhooks_total {result=\"success\"} "@ == seq!['\n'] + "\n# HELP xbridge_webhooks_total Total webhook deliveries\n# TYPE xbridge_webhooks_total counter\nxbridge_webhooks_total {result=\"success\"} "@.skip(1),
{
    reveal_strlit("\nxbridge_ws_frames_total {direction=\"received\"} ");
    reveal_strlit("");
    reveal_strlit("\n# HELP xbridge_webhooks_total Total webhook deliveries\n# TYPE xbridge_webhooks_total counter\nxbridge_webhooks_total {result=\"success\"} ");
    reveal_strlit("xbridge_ws_frames_total {direction=\"received\"} ");
    assert("\nxbridge_ws_frames_total {direction=\"received\"} "@ =~= ""@ + seq!['\n'] + "xbridge_ws_frames_total {direction=\"received\"} "@);
    assert("\n# HELP xbridge_webhooks_total Total webhook deliveries\n# TYPE xbridge_webhooks_total counter\nxbridge_webhooks_total {result=\"success\"} "@ =~= seq!['\n'] + "\n# HELP xbridge_webhooks_total Total webhook deliveries\n# TYPE xbridge_webhooks_total counter\nxbridge_webhooks_total {result=\"success\"} "@.skip(1));
}

proof fn lemma_text_of_webhooks_sent()
    ensures
        "\n# HELP xbridge_webhooks_total Total webhook deliveries\n# TYPE xbridge_webhooks_total counter\nxbridge_webhooks_total {result=\"success\"} "@ == "\n# HELP xbridge_webhooks_total Total webhook deliveries\n# TYPE xbridge_webhooks_total counter"@ + seq!['\n'] + "xbridge_webhooks_total {result=\"success\"} "@,
        "\nxbridge_webhooks_total {result=\"failure\"} "@ == seq!['\n'] + "\nxbridge_webhooks_total {result=\"failure\"} "@.skip(1),
{
    reveal_strlit("\n# HELP xbridge_webhooks_total Total webhook deliveries\n# TYPE xbridge_webhooks_total counter\nxbridge_webhooks_total {result=\"success\"} ");
    reveal_strlit("\n# HELP xbridge_webhooks_total Total webhook deliveries\n# TYPE xbridge_webhooks_total counter");
    reveal_strlit("\nxbridge_webhooks_total {result=\"failure\"} ");
    reveal_strlit("xbridge_webhooks_total {result=\"success\"} ");
    assert("\n# HELP xbridge_webhooks_total Total webhook deliveries\n# TYPE xbridge_webhooks_total counter\nxbridge_webhooks_total {result=\"success\"} "@ =~= "\n# HELP xbridge_webhooks_total Total webhook deliveries\n# TYPE xbridge_webhooks_total counter"@ + seq!['\n'] + "xbridge_webhooks_total {result=\"success\"} "@);
    assert("\nxbridge_webhooks_total {result=\"failure\"} "@ =~= seq!['\n'] + "\nxbridge_webhooks_total {result=\"failure\"} "@.skip(1));
}

proof fn lemma_text_of_webhooks_failed()
    ensures
        "\nxbridge_webhooks_total {result=\"failure\"} "@ == ""@ + seq!['\n'] + "xbridge_webhooks_total {result=\"failure\"} "@,
        "\n# HELP xbridge_trunk_calls_total Total calls from trunk host peers\n# TYPE xbridge_trunk_calls_total counter\nxbridge_trunk_calls_total "@ == seq!['\n'] + "\n# HELP xbridge_trunk_calls_total Total calls from trunk host peers\n# TYPE xbridge_trunk_calls_total counter\nxbridge_trunk_calls_total "@.skip(1),
{
    reveal_strlit("\nxbridge_webhooks_total {result=\"failure\"} ");
    reveal_strlit("");
    reveal_strlit("\n# HELP xbridge_trunk_calls_total Total calls from trunk host peers\n# TYPE xbridge_trunk_calls_total counter\nxbridge_trunk_calls_total ");
    reveal_strlit("xbridge_webhooks_total {result=\"failure\"} ");
    assert("\nxbridge_webhooks_total {result=\"failure\"} "@ =~= ""@ + seq!['\n'] + "xbridge_webhooks_total {result=\"failure\"} "@);
    assert("\n# HELP xbridge_trunk_calls_total Total calls from trunk host peers\n# TYPE xbridge_trunk_calls_total counter\nxbridge_trunk_calls_total "@ =~= seq!['\n'] + "\n# HELP xbridge_trunk_calls_total Total calls from trunk host peers\n# TYPE xbridge_trunk_calls_total counter\nxbridge_trunk_calls_total "@.skip(1));
}

proof fn lemma_text_of_trunk_calls_inbound()
    ensures
        "\n# HELP xbridge_trunk_calls_total Total calls from trunk host peers\n# TYPE xbridge_trunk_calls_total counter\nxbridge_trunk_calls_total "@ == "\n# HELP xbridge_trunk_calls_total Total calls from trunk host peers\n# TYPE xbridge_trunk_calls_total counter"@ + seq!['\n'] + "xbridge_trunk_calls_total "@,
        "\n# HELP xbridge_rate_limit_rejections_total HTTP requests rejected by rate limiter\n# TYPE xbridge_rate_limit_rejections_total counter\nxbridge_rate_limit_rejections_total "@ == seq!['\n'] + "\n# HELP xbridge_rate_limit_rejections_total HTTP requests rejected by rate limiter\n# TYPE xbridge_rate_limit_rejections_total counter\nxbridge_rate_limit_rejections_total "@.skip(1),
{
    reveal_strlit("\n# HELP xbridge_trunk_calls_total Total calls from trunk host peers\n# TYPE xbridge_trunk_calls_total counter\nxbridge_trunk_calls_total ");
    reveal_strlit("\n# HELP xbridge_rate_limit_rejections_total HTTP requests rejected by rate limiter\n# TYPE xbridge_rate_limit_rejections_total counter\nxbridge_rate_limit_rejections_total ");
    reveal_strlit("\n# HELP xbridge_trunk_calls_total Total calls from trunk host peers\n# TYPE xbridge_trunk_calls_total counter");
    reveal_strlit("xbridge_trunk_calls_total ");
    assert("\n# HELP xbridge_trunk_calls_total Total calls from trunk host peers\n# TYPE xbridge_trunk_calls_total counter\nxbridge_trunk_calls_total "@ =~= "\n# HELP xbridge_trunk_calls_total Total calls from trunk host peers\n# TYPE xbridge_trunk_calls_total counter"@ + seq!['\n'] + "xbridge_trunk_calls_total "@);
    assert("\n# HELP xbridge_rate_limit_rejections_total HTTP requests rejected by rate limiter\n# TYPE xbridge_rate_limit_rejections_total counter\nxbridge_rate_limit_rejections_total "@ =~= seq!['\n'] + "\n# HELP xbridge_rate_limit_rejections_total HTTP requests rejected by rate limiter\n# TYPE xbridge_rate_limit_rejections_total counter\nxbridge_rate_limit_rejections_total "@.skip(1));
}

proof fn lemma_text_of_rate_limit_rejections()
    ensures
        "\n# HELP xbridge_rate_limit_rejections_total HTTP requests rejected by rate limiter\n# TYPE xbridge_rate_limit_rejections_total counter\nxbridge_rate_limit_rejections_total "@ == "\n# HELP xbridge_rate_limit_rejections_total HTTP requests rejected by rate limiter\n# TYPE xbridge_rate_limit_rejections_total counter"@ + seq!['\n'] + "xbridge_rate_limit_rejections_total "@,
        "\n"@ == seq!['\n'] + "\n"@.skip(1),
{
    reveal_strlit("\n# HELP xbridge_rate_limit_rejections_total HTTP requests rejected by rate limiter\n# TYPE xbridge_rate_limit_rejections_total counter\nxbridge_rate_limit_rejections_total ");
    reveal_strlit("\n");
    reveal_strlit("\n# HELP xbridge_rate_limit_rejections_total HTTP requests rejected by rate limiter\n# TYPE xbridge_rate_limit_rejections_total counter");
    reveal_strlit("xbridge_rate_limit_rejections_total ");
    assert("\n# HELP xbridge_rate_limit_rejections_total HTTP requests rejected by rate limiter\n# TYPE xbridge_rate_limit_rejections_total counter\nxbridge_rate_limit_rejections_total "@ =~= "\n# HELP xbridge_rate_limit_rejections_total HTTP requests rejected by rate limiter\n# TYPE xbridge_rate_limit_rejections_total counter"@ + seq!['\n'] + "xbridge_rate_limit_rejections_total "@);
    assert("\n"@ =~= seq!['\n'] + "\n"@.skip(1));
}

} // verus!
