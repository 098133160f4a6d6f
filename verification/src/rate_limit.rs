//! A limit on the rate of requests, with room for bursts.
//!
//! Tokens are counted in billionths, and time in nanoseconds, so that a rate of `n` a
//! second adds `n` billionths a nanosecond.

use vstd::prelude::*;

verus! {

/// One token, in billionths.
pub const TOKEN: u64 = 1_000_000_000;

/// A token bucket: each request takes a token, and tokens come back at a fixed rate up to
/// a burst of twice that rate.
#[derive(Debug)]
pub struct RateLimiter {
    tokens: u64,
    rate: u32,
    last_refill: u64,
}

/// What a bucket holds.
pub struct BucketView {
    /// The tokens, in billionths.
    pub tokens: int,
    /// The tokens that come back each second.
    pub rate: int,
    /// When tokens last came back, in nanoseconds.
    pub last_refill: int,
}

/// The most that a bucket holds, in billionths of a token.
pub open spec fn burst(rate: int) -> int {
    2 * rate * TOKEN
}

/// A bucket at a later time, with the tokens that came back since.
pub open spec fn refilled(b: BucketView, now: int) -> BucketView {
    let elapsed = if now > b.last_refill {
        now - b.last_refill
    } else {
        0
    };
    let tokens = b.tokens + elapsed * b.rate;
    BucketView {
        tokens: if tokens < burst(b.rate) {
            tokens
        } else {
            burst(b.rate)
        },
        last_refill: now,
        ..b
    }
}

/// Whether a request at this time is let through.
pub open spec fn admits(b: BucketView, now: int) -> bool {
    refilled(b, now).tokens >= TOKEN
}

/// A bucket after a request at this time.
pub open spec fn after_request(b: BucketView, now: int) -> BucketView {
    let r = refilled(b, now);
    if r.tokens >= TOKEN {
        BucketView { tokens: r.tokens - TOKEN, ..r }
    } else {
        r
    }
}

impl View for RateLimiter {
    type V = BucketView;

    closed spec fn view(&self) -> BucketView {
        BucketView {
            tokens: self.tokens as int,
            rate: self.rate as int,
            last_refill: self.last_refill as int,
        }
    }
}

impl RateLimiter {
    /// Whether the bucket holds no more than it may.
    pub open spec fn wf(&self) -> bool {
        0 <= self@.rate <= u32::MAX && 0 <= self@.tokens <= burst(self@.rate)
    }

    /// A full bucket for `rps` requests a second.
    pub fn new(rps: u32, now: u64) -> (l: Self)
        ensures
            l.wf(),
            l@ == (BucketView {
                tokens: burst(rps as int),
                rate: rps as int,
                last_refill: now as int,
            }),
    {
        assert(2 * (rps as int) * TOKEN <= u64::MAX);
        RateLimiter { tokens: 2 * (rps as u64) * TOKEN, rate: rps, last_refill: now }
    }

    /// Takes a token at time `now`, in nanoseconds, if there is one.
    pub fn try_acquire(&mut self, now: u64) -> (res: bool)
        requires
            old(self).wf(),
        ensures
            final(self).wf(),
            res == admits(old(self)@, now as int),
            final(self)@ == after_request(old(self)@, now as int),
    {
        let elapsed: u64 = if now > self.last_refill {
            now - self.last_refill
        } else {
            0
        };
        let full: u64 = 2 * (self.rate as u64) * TOKEN;
        proof {
            let e = elapsed as int;
            let r = self.rate as int;
            assert(0 <= e * r <= 0xFFFF_FFFF_FFFF_FFFF * 0xFFFF_FFFF) by (nonlinear_arith)
                requires
                    0 <= e <= 0xFFFF_FFFF_FFFF_FFFF,
                    0 <= r <= 0xFFFF_FFFF,
            ;
        }
        let gained: u128 = (elapsed as u128) * (self.rate as u128);
        let tokens: u128 = self.tokens as u128 + gained;
        self.tokens = if tokens < full as u128 {
            tokens as u64
        } else {
            full
        };
        self.last_refill = now;
        if self.tokens >= TOKEN {
            self.tokens = self.tokens - TOKEN;
            true
        } else {
            false
        }
    }
}

// ── Laws ──

/// A bucket after requests one after the other.
pub open spec fn after_requests(b: BucketView, times: Seq<int>) -> BucketView
    decreases times.len(),
{
    if times.len() == 0 {
        b
    } else {
        after_request(after_requests(b, times.drop_last()), times.last())
    }
}

/// How many of the requests are let through.
pub open spec fn admitted(b: BucketView, times: Seq<int>) -> nat
    decreases times.len(),
{
    if times.len() == 0 {
        0
    } else {
        admitted(b, times.drop_last()) + (if admits(
            after_requests(b, times.drop_last()),
            times.last(),
        ) {
            1nat
        } else {
            0
        })
    }
}

/// Whether no time comes before another that stands before it, nor before `from`.
pub open spec fn in_order(from: int, times: Seq<int>) -> bool {
    &&& forall|i: int| 0 <= i < times.len() ==> from <= #[trigger] times[i]
    &&& forall|i: int, j: int|
        0 <= i <= j < times.len() ==> #[trigger] times[i] <= #[trigger] times[j]
}

/// However requests come, no more are let through than the bucket held at first and than
/// tokens came back until the last of them; the bucket is never over its burst.
pub proof fn law_rate(b: BucketView, times: Seq<int>)
    requires
        b.rate >= 0,
        0 <= b.tokens <= burst(b.rate),
        in_order(b.last_refill, times),
    ensures
        ({
            let end = if times.len() == 0 {
                b.last_refill
            } else {
                times.last()
            };
            let after = after_requests(b, times);
            &&& after.rate == b.rate
            &&& after.last_refill == end
            &&& 0 <= after.tokens <= burst(b.rate)
            &&& admitted(b, times) * TOKEN + after.tokens <= b.tokens + (end - b.last_refill)
                * b.rate
        }),
    decreases times.len(),
{
    if times.len() > 0 {
        let earlier = times.drop_last();
        assert(in_order(b.last_refill, earlier)) by {
            assert forall|i: int| 0 <= i < earlier.len() implies b.last_refill
                <= #[trigger] earlier[i] by {
                assert(earlier[i] == times[i]);
            }
            assert forall|i: int, j: int| 0 <= i <= j < earlier.len() implies #[trigger] earlier[i]
                <= #[trigger] earlier[j] by {
                assert(times[i] <= times[j]);
            }
        }
        law_rate(b, earlier);
        let mid = after_requests(b, earlier);
        let now = times.last();
        assert(times[times.len() - 1] == now);
        if earlier.len() > 0 {
            assert(earlier.last() == times[times.len() - 2]);
        }
        let gap = now - mid.last_refill;
        assert((now - b.last_refill) * b.rate == (mid.last_refill - b.last_refill) * b.rate + gap
            * b.rate && gap * b.rate >= 0) by (nonlinear_arith)
            requires
                gap == now - mid.last_refill,
                gap >= 0,
                b.rate >= 0,
        ;
        assert(burst(b.rate) >= 0);
    }
}

/// Requests that come all at once are let through up to twice the rate.
pub proof fn law_burst(rate: int, now: int, times: Seq<int>)
    requires
        rate >= 0,
        forall|i: int| 0 <= i < times.len() ==> #[trigger] times[i] == now,
    ensures
        ({
            let full = BucketView { tokens: burst(rate), rate, last_refill: now };
            admitted(full, times) == if times.len() <= 2 * rate {
                times.len() as int
            } else {
                2 * rate
            }
        }),
{
    let full = BucketView { tokens: burst(rate), rate, last_refill: now };
    lemma_burst(full, now, times);
}

proof fn lemma_burst(full: BucketView, now: int, times: Seq<int>)
    requires
        full.rate >= 0,
        full.last_refill == now,
        full.tokens == burst(full.rate),
        forall|i: int| 0 <= i < times.len() ==> #[trigger] times[i] == now,
    ensures
        ({
            let n = if times.len() <= 2 * full.rate {
                times.len() as int
            } else {
                2 * full.rate
            };
            &&& admitted(full, times) == n
            &&& after_requests(full, times) == (BucketView {
                tokens: burst(full.rate) - n * TOKEN,
                ..full
            })
        }),
    decreases times.len(),
{
    if times.len() > 0 {
        let earlier = times.drop_last();
        assert forall|i: int| 0 <= i < earlier.len() implies #[trigger] earlier[i] == now by {
            assert(earlier[i] == times[i]);
        }
        lemma_burst(full, now, earlier);
        assert(times[times.len() - 1] == now);
    }
}

/// Requests that come no faster than the rate are all let through, whatever the bucket held
/// at first.
pub proof fn law_steady_requests(b: BucketView, times: Seq<int>)
    requires
        b.rate >= 1,
        0 <= b.tokens <= burst(b.rate),
        times.len() > 0 ==> (times[0] - b.last_refill) * b.rate >= 1_000_000_000,
        forall|i: int|
            0 < i < times.len() ==> (#[trigger] times[i] - times[i - 1]) * b.rate >= 1_000_000_000,
    ensures
        admitted(b, times) == times.len(),
{
    lemma_steady_requests(b, times);
}

proof fn lemma_steady_requests(b: BucketView, times: Seq<int>)
    requires
        b.rate >= 1,
        0 <= b.tokens <= burst(b.rate),
        times.len() > 0 ==> (times[0] - b.last_refill) * b.rate >= 1_000_000_000,
        forall|i: int|
            0 < i < times.len() ==> (#[trigger] times[i] - times[i - 1]) * b.rate >= 1_000_000_000,
    ensures
        admitted(b, times) == times.len(),
        after_requests(b, times).rate == b.rate,
        0 <= after_requests(b, times).tokens <= burst(b.rate),
        times.len() > 0 ==> after_requests(b, times).last_refill == times.last(),
    decreases times.len(),
{
    if times.len() > 0 {
        let earlier = times.drop_last();
        assert forall|i: int| 0 < i < earlier.len() implies (#[trigger] earlier[i] - earlier[i
            - 1]) * b.rate >= 1_000_000_000 by {
            assert(earlier[i] == times[i] && earlier[i - 1] == times[i - 1]);
        }
        lemma_steady_requests(b, earlier);
        let mid = after_requests(b, earlier);
        let now = times.last();
        let gap = now - mid.last_refill;
        if earlier.len() > 0 {
            assert(earlier.last() == times[times.len() - 2]);
            assert(times[times.len() - 1] == now);
        }
        assert(gap * b.rate >= 1_000_000_000);
        assert(gap > 0) by (nonlinear_arith)
            requires
                gap * b.rate >= 1_000_000_000,
                b.rate >= 1,
        ;
        assert(burst(b.rate) >= 2_000_000_000);
    }
}

/// A bucket that is left alone for two seconds is full again: twice the rate comes through
/// at once after that, and no more.
pub proof fn law_recovers(b: BucketView, now: int, times: Seq<int>)
    requires
        b.rate >= 0,
        0 <= b.tokens <= burst(b.rate),
        now >= b.last_refill + 2_000_000_000,
        forall|i: int| 0 <= i < times.len() ==> #[trigger] times[i] == now,
    ensures
        admitted(b, times) == if times.len() <= 2 * b.rate {
            times.len() as int
        } else {
            2 * b.rate
        },
{
    let full = BucketView { tokens: burst(b.rate), rate: b.rate, last_refill: now };
    assert((now - b.last_refill) * b.rate >= 2_000_000_000 * b.rate) by (nonlinear_arith)
        requires
            now - b.last_refill >= 2_000_000_000,
            b.rate >= 0,
    ;
    assert(refilled(b, now) == full);
    lemma_burst(full, now, times);
    lemma_same_from(b, full, now, times);
}

proof fn lemma_same_from(b: BucketView, full: BucketView, now: int, times: Seq<int>)
    requires
        refilled(b, now) == full,
        refilled(full, now) == full,
        forall|i: int| 0 <= i < times.len() ==> #[trigger] times[i] == now,
    ensures
        admitted(b, times) == admitted(full, times),
        times.len() > 0 ==> after_requests(b, times) == after_requests(full, times),
    decreases times.len(),
{
    if times.len() > 0 {
        let earlier = times.drop_last();
        assert forall|i: int| 0 <= i < earlier.len() implies #[trigger] earlier[i] == now by {
            assert(earlier[i] == times[i]);
        }
        lemma_same_from(b, full, now, earlier);
        assert(times[times.len() - 1] == now);
    }
}

/// At a time that is not after the last one no token comes back and none is lost; from then
/// on tokens come back again.
pub proof fn law_no_time_passed(b: BucketView, now: int)
    requires
        b.rate >= 0,
        0 <= b.tokens <= burst(b.rate),
        now <= b.last_refill,
    ensures
        refilled(b, now) == (BucketView { last_refill: now, ..b }),
        admits(b, now) <==> b.tokens >= 1_000_000_000,
        after_request(b, now) == (BucketView {
            tokens: if b.tokens >= 1_000_000_000 {
                b.tokens - 1_000_000_000
            } else {
                b.tokens
            },
            last_refill: now,
            ..b
        }),
{
    assert(0 * b.rate == 0);
}

/// Tokens come back in proportion to the time that passed, as many a second as the rate
/// says, up to those of two seconds.
pub proof fn law_refill(b: BucketView, now: int)
    requires
        b.rate >= 0,
        0 <= b.tokens <= burst(b.rate),
        now >= b.last_refill,
    ensures
        ({
            let tokens = b.tokens + (now - b.last_refill) * b.rate;
            let full = 2_000_000_000 * b.rate;
            &&& tokens <= full ==> refilled(b, now).tokens == tokens
            &&& tokens > full ==> refilled(b, now).tokens == full
        }),
        refilled(b, now).last_refill == now,
        refilled(b, now).rate == b.rate,
{
    assert(0 * b.rate == 0);
}

} // verus!
