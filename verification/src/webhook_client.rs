//! Delivery of webhooks: timeouts, retries with backoff, and the dead letter queue.

use rand::Rng;
use vstd::prelude::*;
use vstd::slice::slice_subrange;

use crate::config::WebhookConfig;
use crate::metrics;
use crate::metrics::{Metrics, MetricsView};
use crate::text;
use crate::webhook::{EventView, WebhookEvent};

verus! {

// ── Timeouts ──

/// A span of time in seconds and nanoseconds.
#[derive(Debug, Clone, Copy, PartialEq, Eq, Structural)]
pub struct Duration {
    pub secs: u64,
    pub nanos: u32,
}

/// The span of `n` seconds.
pub open spec fn seconds(n: nat) -> Duration {
    Duration { secs: n as u64, nanos: 0 }
}

/// The span of `n` milliseconds.
pub open spec fn millis(n: nat) -> Duration {
    Duration { secs: (n / 1000) as u64, nanos: ((n % 1000) * 1_000_000) as u32 }
}

impl Duration {
    /// The span of `n` seconds.
    pub fn from_secs(n: u64) -> (d: Self)
        ensures
            d == seconds(n as nat),
    {
        Duration { secs: n, nanos: 0 }
    }

    /// The span of `n` milliseconds.
    pub fn from_millis(n: u64) -> (d: Self)
        ensures
            d == millis(n as nat),
    {
        Duration { secs: n / 1000, nanos: ((n % 1000) * 1_000_000) as u32 }
    }
}

/// The timeout that a text gives: a number of milliseconds before `ms` or of seconds
/// before `s`, and five seconds for anything else.
pub open spec fn timeout_of(s: Seq<char>) -> Duration {
    let t = text::trim(s);
    if text::ends_with(t, "ms"@) {
        match text::parse_decimal(text::before(t, t.len() - 2), u64::MAX as nat) {
            Some(n) => millis(n),
            None => seconds(5),
        }
    } else if text::ends_with(t, "s"@) {
        match text::parse_decimal(text::before(t, t.len() - 1), u64::MAX as nat) {
            Some(n) => seconds(n),
            None => seconds(5),
        }
    } else {
        seconds(5)
    }
}

/// The timeout that a text gives.
pub fn parse_timeout(s: &str) -> (res: Duration)
    ensures
        res == timeout_of(s@),
{
    let all: Vec<char> = text::chars_of(s);
    let t: &[char] = text::trimmed(all.as_slice());
    let total: usize = t.len();
    proof {
        reveal_strlit("ms");
        reveal_strlit("s");
    }
    if text::has_suffix(t, text::chars_of("ms").as_slice()) {
        match text::read_decimal(slice_subrange(t, 0, total - 2), u64::MAX) {
            Some(n) => Duration::from_millis(n),
            None => Duration::from_secs(5),
        }
    } else if text::has_suffix(t, text::chars_of("s").as_slice()) {
        match text::read_decimal(slice_subrange(t, 0, total - 1), u64::MAX) {
            Some(n) => Duration::from_secs(n),
            None => Duration::from_secs(5),
        }
    } else {
        Duration::from_secs(5)
    }
}

// ── Errors ──

/// Why a webhook did not get through.
#[derive(Debug, PartialEq)]
pub enum WebhookError {
    /// The request failed, for this reason.
    Http(String),
    /// The application answered with this status.
    Status(u16),
}

pub enum WebhookErrorView {
    Http(Seq<char>),
    Status(u16),
}

impl View for WebhookError {
    type V = WebhookErrorView;

    open spec fn view(&self) -> WebhookErrorView {
        match self {
            WebhookError::Http(reason) => WebhookErrorView::Http(reason@),
            WebhookError::Status(code) => WebhookErrorView::Status(*code),
        }
    }
}

/// The text of an error.
pub open spec fn error_text(e: WebhookErrorView) -> Seq<char> {
    match e {
        WebhookErrorView::Http(reason) => "webhook HTTP error: "@ + reason,
        WebhookErrorView::Status(code) => "webhook returned "@ + text::decimal(code as nat),
    }
}

impl WebhookError {
    /// A description of the error.
    pub fn message(&self) -> (res: String)
        ensures
            res@ == error_text(self@),
    {
        match self {
            WebhookError::Http(reason) => {
                let mut out: String = String::from_str("webhook HTTP error: ");
                out.append(reason.as_str());
                out
            },
            WebhookError::Status(code) => {
                let mut out: String = String::from_str("webhook returned ");
                text::push_decimal(&mut out, *code as u64);
                out
            },
        }
    }
}

/// Whether a status says that a request succeeded.
pub open spec fn is_success(code: u16) -> bool {
    200 <= code < 300
}

/// Checks the status of an answer.
pub fn check_status(code: u16) -> (res: Result<(), WebhookError>)
    ensures
        match res {
            Ok(_) => is_success(code),
            Err(e) => !is_success(code) && e@ == WebhookErrorView::Status(code),
        },
{
    if 200 <= code && code < 300 {
        Ok(())
    } else {
        Err(WebhookError::Status(code))
    }
}

// ── Delivery ──

/// An event that could not be delivered.
#[derive(Debug, PartialEq)]
pub struct WebhookFailure {
    pub event: WebhookEvent,
    /// Why the last attempt failed.
    pub error: String,
    /// How many attempts were made.
    pub attempts: u64,
    /// When the last attempt was made.
    pub timestamp: String,
}

#[verifier::ext_equal]
pub struct FailureView {
    pub event: EventView,
    pub error: Seq<char>,
    pub attempts: u64,
    pub timestamp: Seq<char>,
}

impl View for WebhookFailure {
    type V = FailureView;

    open spec fn view(&self) -> FailureView {
        FailureView {
            event: self.event@,
            error: self.error@,
            attempts: self.attempts,
            timestamp: self.timestamp@,
        }
    }
}

impl Clone for WebhookFailure {
    fn clone(&self) -> (res: Self)
        ensures
            res@ == self@,
    {
        WebhookFailure {
            event: self.event.clone(),
            error: self.error.clone(),
            attempts: self.attempts,
            timestamp: self.timestamp.clone(),
        }
    }
}

/// How many failed events are kept.
pub const DLQ_LIMIT: usize = 1000;

/// The queue after one more failure: the oldest goes where it is full.
pub open spec fn pushed<T>(queue: Seq<T>, failure: T) -> Seq<T> {
    if queue.len() >= DLQ_LIMIT {
        queue.drop_first().push(failure)
    } else {
        queue.push(failure)
    }
}

/// The time in milliseconds between a failed attempt and the next, without jitter:
/// 100 after the first, and twice as long after each further one.
pub open spec fn base_delay(attempt: nat) -> nat
    decreases attempt,
{
    if attempt <= 1 {
        100
    } else {
        2 * base_delay((attempt - 1) as nat)
    }
}

/// The time with jitter, as far as a 64-bit number holds it.
pub open spec fn delay(attempt: nat, jitter: nat) -> u64 {
    if base_delay(attempt) + jitter <= u64::MAX {
        (base_delay(attempt) + jitter) as u64
    } else {
        u64::MAX
    }
}

/// What is to be done after an attempt to deliver an event.
#[derive(Debug, PartialEq)]
pub enum DeliveryStep {
    /// Nothing: the event is delivered.
    Delivered,
    /// Try again after this many milliseconds.
    Retry(u64),
    /// Give the event up, for this reason.
    GiveUp(String),
}

pub enum StepView {
    Delivered,
    Retry(u64),
    GiveUp(Seq<char>),
}

impl View for DeliveryStep {
    type V = StepView;

    open spec fn view(&self) -> StepView {
        match self {
            DeliveryStep::Delivered => StepView::Delivered,
            DeliveryStep::Retry(ms) => StepView::Retry(*ms),
            DeliveryStep::GiveUp(error) => StepView::GiveUp(error@),
        }
    }
}

/// What is kept of the reason for a failed delivery.
pub open spec fn failure_text(e: WebhookErrorView) -> Seq<char> {
    match e {
        WebhookErrorView::Http(reason) => reason,
        WebhookErrorView::Status(_) => error_text(e),
    }
}

/// What is to be done after an attempt: nothing once an answer says success, another
/// attempt while there are retries left, and else to give up.
pub open spec fn step_after(
    retry: u32,
    attempt: nat,
    outcome: Result<u16, Seq<char>>,
    jitter: nat,
) -> StepView {
    match outcome {
        Ok(code) if is_success(code) => StepView::Delivered,
        _ => if attempt <= retry {
            StepView::Retry(delay(attempt, jitter))
        } else {
            StepView::GiveUp(
                failure_text(
                    match outcome {
                        Ok(code) => WebhookErrorView::Status(code),
                        Err(reason) => WebhookErrorView::Http(reason),
                    },
                ),
            )
        },
    }
}

/// The text of an outcome.
pub open spec fn outcome_view(outcome: Result<u16, String>) -> Result<u16, Seq<char>> {
    match outcome {
        Ok(code) => Ok(code),
        Err(reason) => Err(reason@),
    }
}

/// Where webhooks go, how hard to try, and what could not be delivered.
#[derive(Debug)]
pub struct WebhookClient {
    pub url: String,
    pub retry: u32,
    pub timeout: Duration,
    pub dlq: Vec<WebhookFailure>,
}

pub struct ClientView {
    pub url: Seq<char>,
    pub retry: u32,
    pub timeout: Duration,
    pub dlq: Seq<FailureView>,
}

pub open spec fn failures_view(failures: Seq<WebhookFailure>) -> Seq<FailureView> {
    Seq::new(failures.len(), |i: int| failures[i]@)
}

impl View for WebhookClient {
    type V = ClientView;

    open spec fn view(&self) -> ClientView {
        ClientView {
            url: self.url@,
            retry: self.retry,
            timeout: self.timeout,
            dlq: failures_view(self.dlq@),
        }
    }
}

/// `Rng::random_range` of the crate rand over the numbers below `bound`, on its generator
/// for the thread: one of them. Where the operating system has no random data to seed the
/// generator with, the call panics; that rests on no argument.
#[verifier::external_body]
fn random_below(bound: u64) -> (res: u64)
    requires
        bound > 0,
    ensures
        res < bound,
{
    rand::rng().random_range(0..bound)
}

/// What jitter stays below, in milliseconds.
pub const JITTER: u64 = 50;

/// The time before the next attempt, with the given jitter.
pub fn retry_delay(attempt: u64, jitter: u64) -> (res: u64)
    requires
        attempt >= 1,
    ensures
        res == delay(attempt as nat, jitter as nat),
{
    let mut ms: u64 = 100;
    let mut i: u64 = 1;
    while i < attempt
        invariant
            1 <= i <= attempt,
            ms == base_delay(i as nat),
        decreases attempt - i,
    {
        if ms > u64::MAX / 2 {
            proof {
                lemma_base_delay_grows((i + 1) as nat, attempt as nat);
            }
            return u64::MAX;
        }
        ms = ms * 2;
        i += 1;
    }
    if jitter > u64::MAX - ms {
        u64::MAX
    } else {
        ms + jitter
    }
}

proof fn lemma_base_delay_grows(a: nat, b: nat)
    requires
        1 <= a <= b,
    ensures
        base_delay(a) <= base_delay(b),
    decreases b - a,
{
    if a < b {
        lemma_base_delay_grows(a, (b - 1) as nat);
    }
}

impl WebhookClient {
    /// Whether no more failures are kept than there is room for.
    pub open spec fn wf(&self) -> bool {
        self.dlq@.len() <= DLQ_LIMIT
    }

    /// A client as configured, with nothing failed yet.
    pub fn new(config: &WebhookConfig) -> (c: Self)
        ensures
            c.wf(),
            c@ == (ClientView {
                url: config.url@,
                retry: config.retry,
                timeout: timeout_of(config.timeout@),
                dlq: Seq::empty(),
            }),
    {
        let c = WebhookClient {
            url: config.url.clone(),
            retry: config.retry,
            timeout: parse_timeout(config.timeout.as_str()),
            dlq: Vec::new(),
        };
        assert(c@.dlq =~= Seq::empty());
        c
    }

    /// Where the application is asked about an incoming call.
    pub fn incoming_url(&self) -> (res: String)
        ensures
            res@ == self@.url + "/incoming"@,
    {
        let mut out: String = self.url.clone();
        out.append("/incoming");
        out
    }

    /// What is to be done after an attempt, the first being number one, with the given
    /// jitter in milliseconds. `outcome` is the status of the answer, or why there was
    /// none.
    pub fn step(&self, attempt: u64, outcome: &Result<u16, String>, jitter: u64) -> (res:
        DeliveryStep)
        requires
            attempt >= 1,
        ensures
            res@ == step_after(
                self@.retry,
                attempt as nat,
                outcome_view(*outcome),
                jitter as nat,
            ),
    {
        let error: WebhookError = match outcome {
            Ok(code) => match check_status(*code) {
                Ok(_) => {
                    return DeliveryStep::Delivered;
                },
                Err(e) => e,
            },
            Err(reason) => WebhookError::Http(reason.clone()),
        };
        if attempt <= self.retry as u64 {
            return DeliveryStep::Retry(retry_delay(attempt, jitter));
        }
        match error {
            WebhookError::Http(reason) => DeliveryStep::GiveUp(reason),
            WebhookError::Status(code) => DeliveryStep::GiveUp(
                WebhookError::Status(code).message(),
            ),
        }
    }

    /// What is to be done after an attempt, with random jitter below 50 ms.
    pub fn next_step(&self, attempt: u64, outcome: &Result<u16, String>) -> (res: DeliveryStep)
        requires
            attempt >= 1,
        ensures
            exists|jitter: nat|
                jitter < JITTER && res@ == #[trigger] step_after(
                    self@.retry,
                    attempt as nat,
                    outcome_view(*outcome),
                    jitter,
                ),
    {
        let jitter: u64 = random_below(JITTER);
        let res: DeliveryStep = self.step(attempt, outcome, jitter);
        assert((jitter as nat) < JITTER && res@ == step_after(
            self@.retry,
            attempt as nat,
            outcome_view(*outcome),
            jitter as nat,
        ));
        res
    }

    /// Keeps an event that could not be delivered, and drops the oldest where there is
    /// no room.
    pub fn dlq_push(&mut self, failure: WebhookFailure)
        requires
            old(self).wf(),
        ensures
            final(self).wf(),
            final(self)@ == (ClientView { dlq: pushed(old(self)@.dlq, failure@), ..old(self)@ }),
    {
        let ghost before = failures_view(self.dlq@);
        if self.dlq.len() >= DLQ_LIMIT {
            let _ = self.dlq.remove(0);
            assert(failures_view(self.dlq@) =~= before.drop_first());
        }
        let ghost kept = failures_view(self.dlq@);
        self.dlq.push(failure);
        assert(failures_view(self.dlq@) =~= kept.push(failure@));
    }

    /// Counts the end of a delivery after `attempts` attempts, and keeps an event that
    /// was given up. `timestamp` says when that was.
    pub fn settle(
        &mut self,
        metrics: &mut Metrics,
        event: &WebhookEvent,
        step: &DeliveryStep,
        attempts: u64,
        timestamp: &str,
    )
        requires
            old(self).wf(),
            old(metrics).wf(),
        ensures
            final(self).wf(),
            final(metrics).wf(),
            match step@ {
                StepView::Delivered => {
                    &&& final(self)@ == old(self)@
                    &&& final(metrics)@ == (MetricsView {
                        webhooks_sent: metrics::more(old(metrics)@.webhooks_sent),
                        ..old(metrics)@
                    })
                },
                StepView::Retry(_) => {
                    &&& final(self)@ == old(self)@
                    &&& final(metrics)@ == old(metrics)@
                },
                StepView::GiveUp(error) => {
                    &&& final(self)@ == (ClientView {
                        dlq: pushed(
                            old(self)@.dlq,
                            FailureView { event: event@, error, attempts, timestamp: timestamp@ },
                        ),
                        ..old(self)@
                    })
                    &&& final(metrics)@ == (MetricsView {
                        webhooks_failed: metrics::more(old(metrics)@.webhooks_failed),
                        ..old(metrics)@
                    })
                },
            },
    {
        match step {
            DeliveryStep::Delivered => metrics.inc_webhooks_sent(),
            DeliveryStep::Retry(_) => {},
            DeliveryStep::GiveUp(error) => {
                metrics.inc_webhooks_failed();
                self.dlq_push(
                    WebhookFailure {
                        event: event.clone(),
                        error: error.clone(),
                        attempts,
                        timestamp: timestamp.to_owned(),
                    },
                );
            },
        }
    }

    /// How many failed events are kept.
    pub fn dlq_len(&self) -> (res: usize)
        ensures
            res == self@.dlq.len(),
    {
        self.dlq.len()
    }

    /// The failed events, the oldest first.
    pub fn dlq_list(&self) -> (res: Vec<WebhookFailure>)
        ensures
            failures_view(res@) == self@.dlq,
    {
        let mut out: Vec<WebhookFailure> = Vec::new();
        let mut i: usize = 0;
        while i < self.dlq.len()
            invariant
                i <= self.dlq@.len(),
                out@.len() == i,
                forall|j: int| 0 <= j < i ==> (#[trigger] out@[j])@ == self.dlq@[j]@,
            decreases self.dlq@.len() - i,
        {
            out.push(self.dlq[i].clone());
            i += 1;
        }
        assert(failures_view(out@) =~= self@.dlq);
        out
    }

    /// Takes the failed events out, the oldest first.
    pub fn dlq_drain(&mut self) -> (res: Vec<WebhookFailure>)
        requires
            old(self).wf(),
        ensures
            final(self).wf(),
            failures_view(res@) == old(self)@.dlq,
            final(self)@ == (ClientView { dlq: Seq::empty(), ..old(self)@ }),
    {
        let res: Vec<WebhookFailure> = self.dlq_list();
        self.dlq.clear();
        assert(self@.dlq =~= Seq::empty());
        res
    }
}

// ── Laws ──

/// Each further retry waits twice as long.
pub proof fn law_backoff_doubles(attempt: nat)
    requires
        attempt >= 1,
    ensures
        base_delay(1) == 100,
        base_delay(attempt + 1) == 2 * base_delay(attempt),
{
}

/// An event that never gets through is tried once and then as often as there are
/// retries, and given up after that.
pub proof fn law_attempts(retry: u32, attempt: nat, outcome: Result<u16, Seq<char>>, jitter: nat)
    requires
        attempt >= 1,
        outcome matches Ok(code) ==> !is_success(code),
    ensures
        step_after(retry, attempt, outcome, jitter) is GiveUp <==> attempt >= 1 + retry,
        step_after(retry, attempt, outcome, jitter) is Retry <==> attempt < 1 + retry,
{
}

/// How a delivery goes from an attempt on, with these outcomes and jitters of its attempts:
/// the attempt that it ends with, and how. None where the outcomes do not reach that far.
pub open spec fn delivery(
    retry: u32,
    outcomes: Seq<Result<u16, Seq<char>>>,
    jitters: Seq<nat>,
    attempt: nat,
) -> Option<(nat, StepView)>
    decreases outcomes.len() + 1 - attempt,
{
    if attempt < 1 || attempt > outcomes.len() {
        None
    } else {
        match step_after(retry, attempt, outcomes[attempt - 1], jitters[attempt - 1]) {
            StepView::Retry(_) => delivery(retry, outcomes, jitters, attempt + 1),
            step => Some((attempt, step)),
        }
    }
}

/// Whether an attempt had this outcome and succeeded.
pub open spec fn succeeded(outcome: Result<u16, Seq<char>>) -> bool {
    outcome matches Ok(code) && is_success(code)
}

/// A delivery ends with the first attempt that succeeds; where none does, it is given up
/// after the last, and never before. No jitter changes that.
pub proof fn law_delivery(
    retry: u32,
    outcomes: Seq<Result<u16, Seq<char>>>,
    jitters: Seq<nat>,
    n: nat,
)
    requires
        outcomes.len() == 1 + retry,
        1 <= n <= outcomes.len(),
        forall|i: int| 0 <= i < n - 1 ==> !succeeded(#[trigger] outcomes[i]),
        succeeded(outcomes[n - 1]) || n == outcomes.len(),
    ensures
        delivery(retry, outcomes, jitters, 1) matches Some((attempts, step)) && {
            &&& attempts == n
            &&& step is Delivered <==> succeeded(outcomes[n - 1])
            &&& step is GiveUp <==> !succeeded(outcomes[n - 1])
        },
{
    lemma_delivery(retry, outcomes, jitters, n, 1);
}

proof fn lemma_delivery(
    retry: u32,
    outcomes: Seq<Result<u16, Seq<char>>>,
    jitters: Seq<nat>,
    n: nat,
    attempt: nat,
)
    requires
        outcomes.len() == 1 + retry,
        1 <= attempt <= n <= outcomes.len(),
        forall|i: int| 0 <= i < n - 1 ==> !succeeded(#[trigger] outcomes[i]),
        succeeded(outcomes[n - 1]) || n == outcomes.len(),
    ensures
        delivery(retry, outcomes, jitters, attempt) == Some(
            (n, step_after(retry, n, outcomes[n - 1], jitters[n - 1])),
        ),
        step_after(retry, n, outcomes[n - 1], jitters[n - 1]) is Delivered <==> succeeded(
            outcomes[n - 1],
        ),
        step_after(retry, n, outcomes[n - 1], jitters[n - 1]) is GiveUp <==> !succeeded(
            outcomes[n - 1],
        ),
    decreases n - attempt,
{
    if attempt < n {
        assert(!succeeded(outcomes[attempt - 1]));
        lemma_delivery(retry, outcomes, jitters, n, attempt + 1);
    }
}

/// The waits of a delivery that is retried `n` times, without jitter.
pub open spec fn total_delay(n: nat) -> nat
    decreases n,
{
    if n == 0 {
        0
    } else {
        total_delay((n - 1) as nat) + base_delay(n)
    }
}

/// All waits together are as long as the next one would be, less 100 ms: 700 ms for
/// three retries.
pub proof fn law_total_delay(n: nat)
    ensures
        total_delay(n) == base_delay(n + 1) - 100,
    decreases n,
{
    if n > 0 {
        law_total_delay((n - 1) as nat);
    }
}

/// The queue after failures one after the other.
pub open spec fn pushed_all<T>(failures: Seq<T>) -> Seq<T>
    decreases failures.len(),
{
    if failures.len() == 0 {
        Seq::empty()
    } else {
        pushed(pushed_all(failures.drop_last()), failures.last())
    }
}

/// The queue holds the newest failures, in order, as many as there is room for.
pub proof fn law_dlq_keeps_newest<T>(failures: Seq<T>)
    ensures
        pushed_all(failures) == if failures.len() <= DLQ_LIMIT {
            failures
        } else {
            failures.skip(failures.len() - DLQ_LIMIT)
        },
    decreases failures.len(),
{
    if failures.len() == 0 {
        assert(pushed_all(failures) =~= failures);
    } else {
        let earlier = failures.drop_last();
        law_dlq_keeps_newest(earlier);
        let want = if failures.len() <= DLQ_LIMIT {
            failures
        } else {
            failures.skip(failures.len() - DLQ_LIMIT)
        };
        assert(pushed_all(failures) =~= want);
    }
}

/// A timeout is a number before `ms` or before `s`, whatever white space is around it: it
/// lasts that many milliseconds, or that many seconds.
pub proof fn law_timeout(pre: Seq<char>, n: nat, post: Seq<char>)
    requires
        forall|i: int| 0 <= i < pre.len() ==> text::is_whitespace(#[trigger] pre[i]),
        forall|i: int| 0 <= i < post.len() ==> text::is_whitespace(#[trigger] post[i]),
        n <= u64::MAX,
    ensures
        ({
            let d = timeout_of(pre + (text::decimal(n) + seq!['m', 's']) + post);
            &&& d.nanos < 1_000_000_000
            &&& d.secs as nat * 1_000_000_000 + d.nanos == n * 1_000_000
        }),
        ({
            let d = timeout_of(pre + (text::decimal(n) + seq!['s']) + post);
            d.secs == n && d.nanos == 0
        }),
{
    reveal_strlit("ms");
    reveal_strlit("s");
    let number = text::decimal(n);
    text::lemma_decimal_value(n);
    text::lemma_parse_decimal(n, u64::MAX as nat);
    let in_millis = number + seq!['m', 's'];
    text::law_trim(pre, in_millis, post);
    assert(in_millis.skip(in_millis.len() - 2) =~= "ms"@);
    assert(text::before(in_millis, in_millis.len() - 2) =~= number);
    let in_seconds = number + seq!['s'];
    text::law_trim(pre, in_seconds, post);
    assert(in_seconds.skip(in_seconds.len() - 1) =~= "s"@);
    assert(text::before(in_seconds, in_seconds.len() - 1) =~= number);
    assert(in_seconds[in_seconds.len() - 2] == number.last());
    assert(in_seconds.skip(in_seconds.len() - 2)[0] != "ms"@[0]);
}

/// A timeout of any other form lasts five seconds.
pub proof fn law_default_timeout(s: Seq<char>, i: int)
    ensures
        ({
            let t = text::trim(s);
            ||| t.len() < 2
            ||| t.last() != 's'
            ||| 0 < i < t.len() - 2 && !text::is_digit(t[i])
            ||| !text::is_digit(t[t.len() - 2]) && t[t.len() - 2] != 'm' && t[t.len() - 2] != '+'
        }) ==> timeout_of(s) == (Duration { secs: 5, nanos: 0 }),
{
    reveal_strlit("ms");
    reveal_strlit("s");
    let t = text::trim(s);
    let n = t.len() as int;
    if n >= 2 {
        assert(t.skip(n - 2)[0] == t[n - 2] && t.skip(n - 2)[1] == t[n - 1]);
        assert(t.skip(n - 1)[0] == t[n - 1]);
        text::law_decimal_read(0, u64::MAX as nat, text::before(t, n - 2), i);
        text::law_decimal_read(0, u64::MAX as nat, text::before(t, n - 1), i);
        text::law_decimal_read(0, u64::MAX as nat, text::before(t, n - 1), n - 2);
        if n == 2 && t[1] == 's' && !text::is_digit(t[0]) && t[0] != 'm' && t[0] != '+' {
            let number = text::before(t, 1);
            assert(number[0] == t[0]);
            assert(text::strip_plus(number) == number);
        }
    } else if n == 1 {
        assert(t.skip(0)[0] == t[0]);
        assert(text::before(t, 0).len() == 0);
    }
}

/// An attempt delivers the event where it is answered with a status of 200 to 299, and in
/// no other case.
pub proof fn law_delivered(retry: u32, attempt: nat, outcome: Result<u16, Seq<char>>, jitter: nat)
    ensures
        step_after(retry, attempt, outcome, jitter) is Delivered <==> (outcome matches Ok(code)
            && 200 <= code <= 299),
{
}

/// The wait before a retry is the delay of the attempt and less than 50 ms more, as far as
/// a 64-bit number holds it.
pub proof fn law_retry_wait(retry: u32, attempt: nat, outcome: Result<u16, Seq<char>>, jitter: nat)
    requires
        jitter < JITTER,
    ensures
        step_after(retry, attempt, outcome, jitter) matches StepView::Retry(ms) ==> {
            &&& ms < base_delay(attempt) + 50
            &&& ms >= base_delay(attempt) || ms == u64::MAX
            &&& ms == base_delay(attempt) + jitter || ms == u64::MAX
            &&& base_delay(attempt) + jitter <= u64::MAX ==> ms == base_delay(attempt) + jitter
        },
{
}

/// An event that is given up is kept with the reason why its last attempt failed, or with
/// the status that this was answered with.
pub proof fn law_given_up(retry: u32, attempt: nat, outcome: Result<u16, Seq<char>>, jitter: nat)
    ensures
        step_after(retry, attempt, outcome, jitter) matches StepView::GiveUp(error) ==> match outcome {
            Ok(code) => error == "webhook returned "@ + text::decimal(code as nat),
            Err(reason) => error == reason,
        },
{
}

/// The last thousand failures are kept.
pub proof fn law_dlq_size<T>(failures: Seq<T>, i: int)
    ensures
        pushed_all(failures).len() == if failures.len() <= 1000 {
            failures.len()
        } else {
            1000
        },
        0 <= i < pushed_all(failures).len() ==> pushed_all(failures)[i] == failures[failures.len()
            - pushed_all(failures).len() + i],
{
    law_dlq_keeps_newest(failures);
}

/// What is said of a webhook that did not get through: why, or with which status it was
/// answered.
pub proof fn law_error_texts(reason: Seq<char>, code: u16)
    ensures
        error_text(WebhookErrorView::Http(reason)) == "webhook HTTP error: "@ + reason,
        error_text(WebhookErrorView::Status(code)) == "webhook returned "@ + text::decimal(
            code as nat,
        ),
{
}

} // verus!
