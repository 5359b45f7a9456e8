//! Token buckets that throttle tunnel traffic. Tokens are counted in
//! billionths of a byte and times in nanoseconds, so that nothing is lost to
//! rounding.

use std::collections::HashMap;
use vstd::prelude::*;

use crate::plane_model::SECOND;

verus! {

broadcast use vstd::std_specs::hash::group_hash_axioms;

/// Bytes per second in one megabit per second.
pub const MEGABIT: u64 = 125_000;

/// The longest time to wait before trying again, in nanoseconds.
pub const WAIT_CAP: u64 = 500_000_000;

/// The rate of a cap, in bytes per second.
pub open spec fn rate_of(mbps: u64) -> nat {
    (mbps * MEGABIT) as nat
}

/// The most a bucket holds: what the cap allows in one second.
pub open spec fn burst_of(mbps: u64) -> nat {
    rate_of(mbps) * SECOND as nat
}

/// The answer to a request for bytes.
#[derive(Debug, Clone, Copy, PartialEq, Eq, Structural)]
pub enum Grant {
    /// Send now.
    Pass,
    /// Try again after this many nanoseconds.
    Wait(u64),
}

/// What a bucket holds, and when that was counted.
#[derive(Debug, Clone, Copy, PartialEq, Eq, Structural)]
pub struct Bucket {
    pub tokens: u128,
    pub last: u64,
}

/// What a bucket holds at a later time.
pub open spec fn refilled(b: Bucket, mbps: u64, now: u64) -> nat {
    let elapsed = if now > b.last {
        (now - b.last) as nat
    } else {
        0
    };
    let sum = b.tokens as nat + elapsed * rate_of(mbps);
    if sum <= burst_of(mbps) {
        sum
    } else {
        burst_of(mbps)
    }
}

/// What bytes cost.
pub open spec fn cost(bytes: usize) -> nat {
    bytes as nat * SECOND as nat
}

/// The time until a bucket holds what is missing, rounded up, but no longer
/// than the cap.
pub open spec fn wait_for(missing: nat, mbps: u64) -> nat {
    let full = ((missing + rate_of(mbps) - 1) / rate_of(mbps) as int) as nat;
    if full <= WAIT_CAP {
        full
    } else {
        WAIT_CAP as nat
    }
}

/// The answer to a request, and the bucket after it. A cap of zero lets
/// everything pass.
pub open spec fn drawn(b: Bucket, mbps: u64, bytes: usize, now: u64) -> (Grant, Bucket) {
    if mbps == 0 {
        (Grant::Pass, b)
    } else {
        let tokens = refilled(b, mbps, now);
        if tokens >= cost(bytes) {
            (
                Grant::Pass,
                Bucket { tokens: (tokens - cost(bytes)) as u128, last: now },
            )
        } else {
            (
                Grant::Wait(wait_for((cost(bytes) - tokens) as nat, mbps) as u64),
                Bucket { tokens: tokens as u128, last: now },
            )
        }
    }
}

/// A full bucket.
pub open spec fn full_bucket(mbps: u64, now: u64) -> Bucket {
    Bucket { tokens: burst_of(mbps) as u128, last: now }
}

/// Whether a bucket holds no more than the highest cap allows.
pub open spec fn bucket_wf(b: Bucket) -> bool {
    b.tokens <= burst_of(u64::MAX)
}

proof fn lemma_burst(mbps: u64)
    ensures
        burst_of(mbps) == mbps * 125_000_000_000_000,
        burst_of(mbps) <= burst_of(u64::MAX),
        burst_of(u64::MAX) == 2_305_843_009_213_693_951_875_000_000_000_000,
        rate_of(mbps) == mbps * 125_000,
{
    assert(burst_of(mbps) == mbps * 125_000_000_000_000) by (nonlinear_arith)
        requires
            burst_of(mbps) == (mbps * 125_000) * 1_000_000_000,
    ;
    assert(mbps <= u64::MAX);
}

impl Bucket {
    /// A bucket filled to what the cap allows.
    pub fn full(mbps: u64, now: u64) -> (r: Self)
        ensures
            r == full_bucket(mbps, now),
            bucket_wf(r),
    {
        proof {
            lemma_burst(mbps);
        }
        Bucket { tokens: mbps as u128 * 125_000_000_000_000, last: now }
    }

    /// Asks for bytes at a time.
    pub fn draw(&mut self, mbps: u64, bytes: usize, now: u64) -> (r: Grant)
        requires
            bucket_wf(*old(self)),
        ensures
            bucket_wf(*final(self)),
            (r, *final(self)) == drawn(*old(self), mbps, bytes, now),
    {
        if mbps == 0 {
            return Grant::Pass;
        }
        proof {
            lemma_burst(mbps);
        }
        let rate: u128 = mbps as u128 * 125_000;
        let burst: u128 = mbps as u128 * 125_000_000_000_000;
        let elapsed: u64 = if now > self.last {
            now - self.last
        } else {
            0
        };
        let tokens: u128 = if elapsed >= 1_000_000_000 {
            proof {
                let e = elapsed as nat;
                let r = rate_of(mbps);
                assert(e * r >= 1_000_000_000 * r) by (nonlinear_arith)
                    requires
                        e >= 1_000_000_000,
                ;
            }
            burst
        } else {
            proof {
                let e = elapsed as nat;
                let r = rate_of(mbps);
                assert(e * r <= 1_000_000_000 * r) by (nonlinear_arith)
                    requires
                        e <= 1_000_000_000,
                ;
                assert(e * r >= 0) by (nonlinear_arith);
            }
            let sum: u128 = self.tokens + elapsed as u128 * rate;
            if sum <= burst {
                sum
            } else {
                burst
            }
        };
        assert(tokens == refilled(*self, mbps, now));
        self.last = now;
        let need: u128 = bytes as u128 * 1_000_000_000;
        if tokens >= need {
            self.tokens = tokens - need;
            return Grant::Pass;
        }
        self.tokens = tokens;
        let missing: u128 = need - tokens;
        let full: u128 = (missing + rate - 1) / rate;
        if full <= WAIT_CAP as u128 {
            Grant::Wait(full as u64)
        } else {
            Grant::Wait(WAIT_CAP)
        }
    }
}

/// Requests at their times.
pub type Requests = Seq<(usize, u64)>;

/// The bucket after requests under one cap.
pub open spec fn bucket_after(b: Bucket, mbps: u64, requests: Requests) -> Bucket
    decreases requests.len(),
{
    if requests.len() == 0 {
        b
    } else {
        drawn(
            bucket_after(b, mbps, requests.drop_last()),
            mbps,
            requests.last().0,
            requests.last().1,
        ).1
    }
}

/// What was let pass of requests under one cap, as cost.
pub open spec fn passed(b: Bucket, mbps: u64, requests: Requests) -> nat
    decreases requests.len(),
{
    if requests.len() == 0 {
        0
    } else {
        let before = bucket_after(b, mbps, requests.drop_last());
        passed(b, mbps, requests.drop_last()) + if drawn(
            before,
            mbps,
            requests.last().0,
            requests.last().1,
        ).0 is Pass {
            cost(requests.last().0)
        } else {
            0
        }
    }
}

/// Whether requests come in the order of their times, none before `start`.
pub open spec fn in_order(start: u64, requests: Requests) -> bool {
    forall|i: int|
        0 <= i < requests.len() ==> start <= (#[trigger] requests[i]).1 && forall|j: int|
            i <= j < requests.len() ==> requests[i].1 <= (#[trigger] requests[j]).1
}

/// Under a cap, whatever is asked, no more passes than the bucket held at the
/// start and the rate allows in the time since.
pub proof fn throughput_capped(b: Bucket, mbps: u64, requests: Requests)
    requires
        mbps > 0,
        bucket_wf(b),
        in_order(b.last, requests),
    ensures
        requests.len() > 0 ==> passed(b, mbps, requests) <= b.tokens + (requests.last().1 - b.last)
            * rate_of(mbps),
        requests.len() == 0 ==> passed(b, mbps, requests) == 0,
{
    lemma_throughput(b, mbps, requests);
}

proof fn lemma_throughput(b: Bucket, mbps: u64, requests: Requests)
    requires
        mbps > 0,
        bucket_wf(b),
        in_order(b.last, requests),
    ensures
        bucket_wf(bucket_after(b, mbps, requests)),
        bucket_after(b, mbps, requests).last == if requests.len() == 0 {
            b.last
        } else {
            requests.last().1
        },
        passed(b, mbps, requests) + bucket_after(b, mbps, requests).tokens <= b.tokens + (
        bucket_after(b, mbps, requests).last - b.last) * rate_of(mbps),
    decreases requests.len(),
{
    if requests.len() > 0 {
        let rest = requests.drop_last();
        assert forall|i: int| 0 <= i < rest.len() implies b.last <= (#[trigger] rest[i]).1
            && forall|j: int|
            i <= j < rest.len() ==> rest[i].1 <= (#[trigger] rest[j]).1 by {
            assert(b.last <= requests[i].1);
            assert forall|j: int| i <= j < rest.len() implies rest[i].1 <= (
            #[trigger] rest[j]).1 by {
                assert(requests[i].1 <= requests[j].1);
            }
        }
        lemma_throughput(b, mbps, rest);
        lemma_burst(mbps);
        let before = bucket_after(b, mbps, rest);
        let now = requests.last().1;
        let r = rate_of(mbps);
        assert(b.last <= requests[requests.len() - 1].1);
        assert(before.last <= now) by {
            if rest.len() > 0 {
                let n = rest.len() - 1;
                assert(requests[n].1 <= requests[n + 1].1);
            }
        }
        let e = now - before.last;
        assert(refilled(before, mbps, now) <= before.tokens + e * r);
        assert((before.last - b.last) * r + e * r == (now - b.last) * r) by (nonlinear_arith)
            requires
                e == now - before.last,
        ;
    } else {
        assert((b.last - b.last) * rate_of(mbps) == 0) by (nonlinear_arith);
    }
}

/// A request that fits a full bucket is let pass when it is asked again after
/// the time it was told to wait, unless that time was cut short.
pub proof fn waiting_pays(b: Bucket, mbps: u64, bytes: usize, now: u64, later: u64)
    requires
        mbps > 0,
        bucket_wf(b),
        cost(bytes) <= burst_of(mbps),
        drawn(b, mbps, bytes, now).0 matches Grant::Wait(w) && w < WAIT_CAP && later == now + w,
    ensures
        drawn(drawn(b, mbps, bytes, now).1, mbps, bytes, later).0 == Grant::Pass,
{
    lemma_burst(mbps);
    let tokens = refilled(b, mbps, now);
    let missing = (cost(bytes) - tokens) as nat;
    let r = rate_of(mbps) as int;
    let w = wait_for(missing, mbps);
    let full = (missing + r - 1) / r;
    assert(full >= 0 && full * r >= missing) by (nonlinear_arith)
        requires
            r > 0,
            missing >= 0,
            full == (missing + r - 1) / r,
    ;
    assert(w == full);
    assert(w * r >= missing);
    let c = drawn(b, mbps, bytes, now).1;
    assert(later >= c.last);
    assert((later - c.last) as nat * rate_of(mbps) == w * r);
}

/// A cap of zero never delays anything.
pub proof fn no_cap_no_delay(b: Bucket, bytes: usize, now: u64)
    ensures
        drawn(b, 0, bytes, now) == (Grant::Pass, b),
{
}

/// Per-device buckets for the direction from public clients to agents. Agents
/// throttle the other direction at its source, so that no byte is charged
/// twice. Devices never share tokens.
pub struct BandwidthLimiter {
    mbps: u64,
    buckets: HashMap<u128, Bucket>,
}

impl BandwidthLimiter {
    pub closed spec fn cap(&self) -> u64 {
        self.mbps
    }

    pub closed spec fn buckets(&self) -> Map<u128, Bucket> {
        self.buckets@
    }

    /// Every bucket is within what the highest cap allows.
    pub closed spec fn wf(&self) -> bool {
        forall|d: u128| #[trigger] self.buckets@.contains_key(d) ==> bucket_wf(self.buckets@[d])
    }

    pub fn new(mbps: u64) -> (r: Self)
        ensures
            r.wf(),
            r.cap() == mbps,
            r.buckets() == Map::<u128, Bucket>::empty(),
    {
        BandwidthLimiter { mbps, buckets: HashMap::new() }
    }

    /// The cap in megabits per second.
    pub fn current_mbps(&self) -> (r: u64)
        ensures
            r == self.cap(),
    {
        self.mbps
    }

    /// Changes the cap. Buckets keep what they hold.
    pub fn set_mbps(&mut self, mbps: u64)
        requires
            old(self).wf(),
        ensures
            final(self).wf(),
            final(self).cap() == mbps,
            final(self).buckets() == old(self).buckets(),
    {
        self.mbps = mbps;
    }

    /// Asks for bytes of one device. Its bucket starts full; without a cap no
    /// bucket is kept.
    pub fn acquire(&mut self, device_id: u128, bytes: usize, now: u64) -> (r: Grant)
        requires
            old(self).wf(),
        ensures
            final(self).wf(),
            final(self).cap() == old(self).cap(),
            old(self).cap() == 0 ==> r == Grant::Pass && final(self).buckets() == old(
                self,
            ).buckets(),
            old(self).cap() != 0 ==> ({
                let b = if old(self).buckets().contains_key(device_id) {
                    old(self).buckets()[device_id]
                } else {
                    full_bucket(old(self).cap(), now)
                };
                let (grant, after) = drawn(b, old(self).cap(), bytes, now);
                r == grant && final(self).buckets() == old(self).buckets().insert(device_id, after)
            }),
            forall|other: u128|
                other != device_id ==> #[trigger] final(self).buckets().get(other) == old(
                    self,
                ).buckets().get(other),
    {
        if self.mbps == 0 {
            return Grant::Pass;
        }
        let mut bucket: Bucket = match self.buckets.get(&device_id) {
            Some(bucket) => *bucket,
            None => Bucket::full(self.mbps, now),
        };
        let r = bucket.draw(self.mbps, bytes, now);
        self.buckets.insert(device_id, bucket);
        r
    }
}

/// The agent's one bucket, for everything it sends.
pub struct AgentLimiter {
    mbps: u64,
    bucket: Bucket,
}

impl AgentLimiter {
    pub closed spec fn cap(&self) -> u64 {
        self.mbps
    }

    pub closed spec fn bucket(&self) -> Bucket {
        self.bucket
    }

    /// The bucket is within what the highest cap allows.
    pub closed spec fn wf(&self) -> bool {
        bucket_wf(self.bucket)
    }

    pub fn new(mbps: u64, now: u64) -> (r: Self)
        ensures
            r.wf(),
            r.cap() == mbps,
            r.bucket() == full_bucket(mbps, now),
    {
        AgentLimiter { mbps, bucket: Bucket::full(mbps, now) }
    }

    /// Changes the cap. The bucket keeps what it holds.
    pub fn set_mbps(&mut self, mbps: u64)
        requires
            old(self).wf(),
        ensures
            final(self).wf(),
            final(self).cap() == mbps,
            final(self).bucket() == old(self).bucket(),
    {
        self.mbps = mbps;
    }

    /// Asks for bytes.
    pub fn acquire(&mut self, bytes: usize, now: u64) -> (r: Grant)
        requires
            old(self).wf(),
        ensures
            final(self).wf(),
            final(self).cap() == old(self).cap(),
            (r, final(self).bucket()) == drawn(old(self).bucket(), old(self).cap(), bytes, now),
    {
        self.bucket.draw(self.mbps, bytes, now)
    }
}

/// What a bucket holds at a later time is what it held and what its rate earned
/// since, at 125000 bytes a second for each megabit, up to what one second
/// earns. A request passes exactly where that covers its bytes, and takes its
/// bytes and nothing else; one that does not pass takes nothing.
pub proof fn passing_takes_its_cost(b: Bucket, mbps: u64, bytes: usize, now: u64)
    requires
        mbps > 0,
        bucket_wf(b),
        b.last <= now,
    ensures
        ({
            let earned = b.tokens + (now - b.last) * (mbps * 125_000);
            let most = mbps * 125_000_000_000_000;
            let held = if earned <= most {
                earned
            } else {
                most
            };
            let (grant, after) = drawn(b, mbps, bytes, now);
            &&& (grant is Pass <==> bytes * 1_000_000_000 <= held)
            &&& (grant is Pass ==> after.tokens + bytes * 1_000_000_000 == held)
            &&& (grant is Wait ==> after.tokens == held)
            &&& after.last == now
        }),
{
    lemma_burst(mbps);
    let r = rate_of(mbps);
    let e = (now - b.last) as nat;
    assert(e * r >= 0) by (nonlinear_arith);
    assert((now - b.last) * (mbps * 125_000) == e * r);
}

/// A bucket that starts full holds what the cap allows in one second.
pub proof fn buckets_start_with_one_second(mbps: u64, now: u64)
    ensures
        full_bucket(mbps, now).tokens == mbps * 125_000_000_000_000,
        full_bucket(mbps, now).last == now,
{
    lemma_burst(mbps);
}

/// The bytes of requests together.
pub open spec fn bytes_of(requests: Requests) -> nat
    decreases requests.len(),
{
    if requests.len() == 0 {
        0
    } else {
        bytes_of(requests.drop_last()) + requests.last().0 as nat
    }
}

/// Requests at one time whose bytes together fit what a bucket holds all pass,
/// and leave what they did not take: a burst is never cut short.
pub proof fn requests_that_fit_all_pass(b: Bucket, mbps: u64, requests: Requests, now: u64)
    requires
        mbps > 0,
        b.last == now,
        b.tokens <= burst_of(mbps),
        bytes_of(requests) * 1_000_000_000 <= b.tokens,
        forall|i: int| 0 <= i < requests.len() ==> (#[trigger] requests[i]).1 == now,
    ensures
        passed(b, mbps, requests) == bytes_of(requests) * 1_000_000_000,
        bucket_after(b, mbps, requests).tokens == b.tokens - bytes_of(requests) * 1_000_000_000,
        bucket_after(b, mbps, requests).last == now,
    decreases requests.len(),
{
    if requests.len() > 0 {
        let rest = requests.drop_last();
        assert(bytes_of(rest) * 1_000_000_000 <= b.tokens);
        requests_that_fit_all_pass(b, mbps, rest, now);
        assert(requests[requests.len() - 1].1 == now);
        let before = bucket_after(b, mbps, rest);
        lemma_burst(mbps);
        assert(0 * rate_of(mbps) == 0) by (nonlinear_arith);
        assert(refilled(before, mbps, now) == before.tokens);
    }
}

/// The time that a request is told to wait is needed: asked again any earlier,
/// it has to wait again. No wait is longer than half a second.
pub proof fn waiting_is_needed(b: Bucket, mbps: u64, bytes: usize, now: u64, early: u64)
    requires
        mbps > 0,
        bucket_wf(b),
        drawn(b, mbps, bytes, now).0 matches Grant::Wait(w) && now <= early < now + w,
    ensures
        drawn(b, mbps, bytes, now).0 matches Grant::Wait(w) && w <= 500_000_000,
        drawn(drawn(b, mbps, bytes, now).1, mbps, bytes, early).0 is Wait,
{
    lemma_burst(mbps);
    let tokens = refilled(b, mbps, now);
    let missing = (cost(bytes) - tokens) as nat;
    let r = rate_of(mbps) as int;
    let full = (missing + r - 1) / r;
    let w = wait_for(missing, mbps);
    let e = early - now;
    assert(e < full);
    assert(e * r < missing) by (nonlinear_arith)
        requires
            r > 0,
            0 <= e,
            e < full,
            full == (missing + r - 1) / r,
    ;
    let c = drawn(b, mbps, bytes, now).1;
    assert((early - c.last) as nat * rate_of(mbps) == e * r);
}

} // verus!
