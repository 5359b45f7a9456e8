//! How long an agent waits before it connects again.

use vstd::arithmetic::power2::pow2;
use vstd::prelude::*;

verus! {

/// The first wait before a data channel reconnects, in seconds.
pub const DATA_CHANNEL_RETRY_MIN: u64 = 1;

/// The longest wait before a data channel reconnects, in seconds.
pub const DATA_CHANNEL_RETRY_MAX: u64 = 60;

/// The shortest wait, in nanoseconds.
pub const SHORTEST_DELAY: u128 = 100_000_000;

/// The lowest jitter, in billionths.
pub const JITTER_LOW: u64 = 700_000_000;

/// The highest jitter, in billionths.
pub const JITTER_HIGH: u64 = 1_300_000_000;

/// The wait without jitter, in seconds: the minimum, doubled for each attempt
/// before, up to the maximum.
pub open spec fn base_delay(attempt: u32, min_secs: u64, max_secs: u64) -> nat {
    let grown = min_secs as nat * pow2(attempt as nat);
    if grown <= max_secs {
        grown
    } else {
        max_secs as nat
    }
}

/// The wait in nanoseconds, with jitter in billionths.
pub open spec fn delay_of(attempt: u32, min_secs: u64, max_secs: u64, jitter: u64) -> nat {
    let scaled = base_delay(attempt, min_secs, max_secs) * jitter as nat;
    if scaled >= SHORTEST_DELAY {
        scaled
    } else {
        SHORTEST_DELAY as nat
    }
}

/// The wait without jitter.
fn base_secs(attempt: u32, min_secs: u64, max_secs: u64) -> (r: u64)
    ensures
        r == base_delay(attempt, min_secs, max_secs),
{
    if min_secs == 0 {
        return 0;
    }
    let mut value: u128 = min_secs as u128;
    let mut i: u32 = 0;
    proof {
        vstd::arithmetic::power2::lemma2_to64();
    }
    while i < attempt && value < max_secs as u128
        invariant
            i <= attempt,
            min_secs > 0,
            value == min_secs as nat * pow2(i as nat),
            value <= 2 * u64::MAX,
        decreases attempt - i,
    {
        proof {
            vstd::arithmetic::power2::lemma_pow2_unfold((i + 1) as nat);
            let p = pow2(i as nat);
            assert(min_secs as nat * (2 * p) == 2 * (min_secs as nat * p)) by (nonlinear_arith);
        }
        value = value * 2;
        i += 1;
    }
    proof {
        if i < attempt {
            vstd::arithmetic::power2::lemma_pow2_strictly_increases(i as nat, attempt as nat);
            let p = pow2(i as nat);
            let q = pow2(attempt as nat);
            assert(min_secs as nat * p <= min_secs as nat * q) by (nonlinear_arith)
                requires
                    p <= q,
            ;
        }
    }
    if value <= max_secs as u128 {
        value as u64
    } else {
        max_secs
    }
}

/// The wait before the next attempt, in nanoseconds: exponential growth from
/// the minimum up to the maximum, scaled by a jitter in billionths.
pub fn reconnect_delay(attempt: u32, min_secs: u64, max_secs: u64, jitter: u64) -> (r: u128)
    ensures
        r == delay_of(attempt, min_secs, max_secs, jitter),
{
    let base: u64 = base_secs(attempt, min_secs, max_secs);
    proof {
        assert(base as nat * jitter as nat <= u64::MAX as nat * u64::MAX as nat)
            by (nonlinear_arith)
            requires
                base <= u64::MAX,
                jitter <= u64::MAX,
        ;
    }
    let scaled: u128 = base as u128 * jitter as u128;
    if scaled >= SHORTEST_DELAY {
        scaled
    } else {
        SHORTEST_DELAY
    }
}

/// A random jitter from `rand::Rng::gen_range`, within the bounds it is given.
#[verifier::external_body]
fn random_jitter(low: u64, high: u64) -> (r: u64)
    requires
        low <= high,
    ensures
        low <= r <= high,
{
    rand::Rng::gen_range(&mut rand::thread_rng(), low..=high)
}

/// A random jitter between 0.7 and 1.3, in billionths.
pub fn jitter() -> (r: u64)
    ensures
        JITTER_LOW <= r <= JITTER_HIGH,
{
    random_jitter(JITTER_LOW, JITTER_HIGH)
}

/// The wait before a data channel's next attempt, in nanoseconds, for a jitter
/// in billionths.
pub fn data_channel_delay(attempt: u32, jitter: u64) -> (r: u128)
    ensures
        r == delay_of(attempt, DATA_CHANNEL_RETRY_MIN, DATA_CHANNEL_RETRY_MAX, jitter),
{
    reconnect_delay(attempt, DATA_CHANNEL_RETRY_MIN, DATA_CHANNEL_RETRY_MAX, jitter)
}

/// The wait before a data channel's next attempt, in nanoseconds, with random
/// jitter.
pub fn data_channel_backoff(attempt: u32) -> (r: u128)
    ensures
        exists|j: u64|
            JITTER_LOW <= j <= JITTER_HIGH && r == #[trigger] delay_of(
                attempt,
                DATA_CHANNEL_RETRY_MIN,
                DATA_CHANNEL_RETRY_MAX,
                j,
            ),
{
    let j: u64 = jitter();
    data_channel_delay(attempt, j)
}

/// A later attempt never waits less than an earlier one under the same jitter.
pub proof fn delay_grows(a: u32, b: u32, min_secs: u64, max_secs: u64, jitter: u64)
    requires
        a <= b,
    ensures
        delay_of(a, min_secs, max_secs, jitter) <= delay_of(b, min_secs, max_secs, jitter),
{
    if a < b {
        vstd::arithmetic::power2::lemma_pow2_strictly_increases(a as nat, b as nat);
    }
    let p = pow2(a as nat);
    let q = pow2(b as nat);
    assert(min_secs as nat * p <= min_secs as nat * q) by (nonlinear_arith)
        requires
            p <= q,
    ;
    let x = base_delay(a, min_secs, max_secs);
    let y = base_delay(b, min_secs, max_secs);
    assert(x * jitter as nat <= y * jitter as nat) by (nonlinear_arith)
        requires
            x <= y,
    ;
}

/// No wait is longer than the maximum scaled by the jitter, or than the
/// shortest wait where that is longer.
pub proof fn delay_bounded(attempt: u32, min_secs: u64, max_secs: u64, jitter: u64)
    ensures
        delay_of(attempt, min_secs, max_secs, jitter) <= max_secs as nat * jitter as nat
            || delay_of(attempt, min_secs, max_secs, jitter) == SHORTEST_DELAY,
        delay_of(attempt, min_secs, max_secs, jitter) >= SHORTEST_DELAY,
{
    let x = base_delay(attempt, min_secs, max_secs);
    assert(x * jitter as nat <= max_secs as nat * jitter as nat) by (nonlinear_arith)
        requires
            x <= max_secs,
    ;
}

/// The wait reaches the maximum, at the latest after 64 failed attempts.
pub proof fn delay_reaches_maximum(attempt: u32, min_secs: u64, max_secs: u64)
    requires
        min_secs > 0,
        attempt >= 64,
    ensures
        base_delay(attempt, min_secs, max_secs) == max_secs,
{
    vstd::arithmetic::power2::lemma2_to64();
    if attempt > 64 {
        vstd::arithmetic::power2::lemma_pow2_strictly_increases(64, attempt as nat);
    }
    let q = pow2(attempt as nat);
    assert(min_secs as nat * q >= q) by (nonlinear_arith)
        requires
            min_secs > 0,
    ;
}

/// The first wait is the minimum, and each failed attempt doubles the wait, up
/// to the maximum.
pub proof fn delay_doubles(attempt: u32, min_secs: u64, max_secs: u64)
    requires
        attempt < u32::MAX,
    ensures
        base_delay(0, min_secs, max_secs) == if min_secs <= max_secs {
            min_secs
        } else {
            max_secs
        },
        base_delay((attempt + 1) as u32, min_secs, max_secs) == if 2 * base_delay(
            attempt,
            min_secs,
            max_secs,
        ) <= max_secs {
            2 * base_delay(attempt, min_secs, max_secs)
        } else {
            max_secs as nat
        },
{
    vstd::arithmetic::power2::lemma2_to64();
    vstd::arithmetic::power2::lemma_pow2_unfold((attempt + 1) as nat);
    let p = pow2(attempt as nat);
    assert(min_secs as nat * (2 * p) == 2 * (min_secs as nat * p)) by (nonlinear_arith);
    assert(min_secs as nat * 1 == min_secs) by (nonlinear_arith);
}

/// With a jitter from seven to thirteen tenths a wait of whole seconds is
/// between seven and thirteen tenths of the wait without jitter.
pub proof fn jitter_within_thirty_percent(attempt: u32, min_secs: u64, max_secs: u64, jitter: u64)
    requires
        JITTER_LOW <= jitter <= JITTER_HIGH,
        base_delay(attempt, min_secs, max_secs) >= 1,
    ensures
        base_delay(attempt, min_secs, max_secs) * 700_000_000 <= delay_of(
            attempt,
            min_secs,
            max_secs,
            jitter,
        ) <= base_delay(attempt, min_secs, max_secs) * 1_300_000_000,
        delay_of(attempt, 0, max_secs, jitter) == 100_000_000,
{
    let b = base_delay(attempt, min_secs, max_secs);
    assert(b * 700_000_000 <= b * jitter as nat <= b * 1_300_000_000) by (nonlinear_arith)
        requires
            700_000_000 <= jitter <= 1_300_000_000,
    ;
    let p = pow2(attempt as nat);
    assert(0 * p == 0) by (nonlinear_arith);
    assert(0 * jitter as nat == 0) by (nonlinear_arith);
}

/// The jitter goes from seven to thirteen tenths.
pub proof fn jitter_range(jitter: u64)
    ensures
        JITTER_LOW <= jitter <= JITTER_HIGH <==> 700_000_000 <= jitter <= 1_300_000_000,
{
}

/// A data channel waits one second first, then twice as long each time, and a
/// minute at most, from the sixth attempt on.
pub proof fn channel_waits_up_to_a_minute(attempt: u32)
    ensures
        attempt < 6 ==> base_delay(attempt, DATA_CHANNEL_RETRY_MIN, DATA_CHANNEL_RETRY_MAX) == pow2(
            attempt as nat,
        ),
        attempt >= 6 ==> base_delay(attempt, DATA_CHANNEL_RETRY_MIN, DATA_CHANNEL_RETRY_MAX) == 60,
{
    vstd::arithmetic::power2::lemma2_to64();
    let p = pow2(attempt as nat);
    assert(1nat * p == p) by (nonlinear_arith);
    if attempt > 6 {
        vstd::arithmetic::power2::lemma_pow2_strictly_increases(6, attempt as nat);
    }
    if attempt < 5 {
        vstd::arithmetic::power2::lemma_pow2_strictly_increases(attempt as nat, 5);
    }
}

} // verus!
