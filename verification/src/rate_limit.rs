//! Reading the rate-limit headers of an answer: how much of the allowance is
//! left, whether to pause until it is renewed, and the countdown while paused.
use vstd::prelude::*;
use crate::text::{parse_unsigned, parse_u32, parse_u64};

verus! {

/// Nanoseconds in a second.
pub const NANOS_PER_SEC: u128 = 1_000_000_000;

/// Nanoseconds in a millisecond.
pub const NANOS_PER_MILLI: u128 = 1_000_000;

/// The share of the allowance that is left, in percent, rounded down; a limit
/// of zero counts as a full allowance.
pub open spec fn percent_left(remaining: nat, limit: nat) -> nat {
    if limit > 0 {
        remaining * 100 / limit
    } else {
        100
    }
}

/// The share left is the remaining count times a hundred divided by the
/// limit, rounded down: it is the whole number `p` with
/// `p * limit <= remaining * 100 < (p + 1) * limit`; a full share where the
/// limit is zero.
pub proof fn law_percent_left_rounds_down(remaining: nat, limit: nat)
    ensures
        limit > 0 ==> percent_left(remaining, limit) * limit <= remaining * 100 < (percent_left(
            remaining,
            limit,
        ) + 1) * limit,
        limit == 0 ==> percent_left(remaining, limit) == 100,
        limit > 0 && remaining <= limit ==> percent_left(remaining, limit) <= 100,
        limit > 0 && remaining == limit ==> percent_left(remaining, limit) == 100,
{
    if limit > 0 {
        let p = percent_left(remaining, limit);
        assert(p * limit <= remaining * 100 < (p + 1) * limit) by (nonlinear_arith)
            requires
                limit > 0,
                p == remaining * 100 / limit,
        ;
        assert(remaining <= limit ==> p <= 100) by (nonlinear_arith)
            requires
                limit > 0,
                p * limit <= remaining * 100,
        ;
        assert(remaining == limit ==> p == 100) by (nonlinear_arith)
            requires
                limit > 0,
                p * limit <= remaining * 100 < (p + 1) * limit,
        ;
    }
}

/// What the two headers `X-RateLimit-Remaining` and `X-RateLimit-Limit` say,
/// where both hold a `u32`.
pub open spec fn allowance(remaining: Option<Seq<char>>, limit: Option<Seq<char>>) -> Option<(nat, nat)> {
    match (remaining, limit) {
        (Some(r), Some(l)) => match (parse_unsigned(r, u32::MAX as nat), parse_unsigned(l, u32::MAX as nat)) {
            (Some(rv), Some(lv)) => Some((rv, lv)),
            _ => None,
        },
        _ => None,
    }
}

/// The seconds until the allowance is renewed: where the header
/// `X-RateLimit-Remaining` holds a `u32` that is zero, the header
/// `X-RateLimit-Reset` holds a `u64` time, and that time lies after `now`.
/// The header `X-RateLimit-Limit` plays no part.
pub open spec fn seconds_to_reset(remaining: Option<Seq<char>>, reset: Option<Seq<char>>, now: u64) -> Option<nat> {
    match (remaining, reset) {
        (Some(r), Some(t)) => match (parse_unsigned(r, u32::MAX as nat), parse_unsigned(t, u64::MAX as nat)) {
            (Some(rv), Some(tv)) => if rv == 0 && tv > now {
                Some((tv - now) as nat)
            } else {
                None
            },
            _ => None,
        },
        _ => None,
    }
}

/// A pause lasts until the reset time: it comes only where the remaining count
/// reads zero, and `now` plus the seconds paused is the reset time that the
/// header reads, later than `now`. The limit header is not read for it.
pub proof fn law_pause_until_reset(remaining: Option<Seq<char>>, reset: Option<Seq<char>>, now: u64)
    ensures
        seconds_to_reset(remaining, reset, now) matches Some(w) ==> {
            &&& w > 0
            &&& parse_unsigned(remaining->0, u32::MAX as nat) == Some(0nat)
            &&& parse_unsigned(reset->0, u64::MAX as nat) == Some((now + w) as nat)
        },
        (remaining is Some && reset is Some && parse_unsigned(remaining->0, u32::MAX as nat) == Some(
            0nat,
        ) && parse_unsigned(reset->0, u64::MAX as nat) is Some && parse_unsigned(
            reset->0,
            u64::MAX as nat,
        )->0 > now)
            ==> seconds_to_reset(remaining, reset, now) is Some,
{
}

/// The view of an optional header text.
pub open spec fn opt_view(s: Option<&str>) -> Option<Seq<char>> {
    match s {
        Some(t) => Some(t@),
        None => None,
    }
}

/// What is left of the allowance.
#[derive(Debug, Clone, Copy, PartialEq, Eq)]
pub struct Allowance {
    pub remaining: u32,
    pub limit: u32,
    pub percent: u64,
}

/// What to do about the rate limit after an answer: show the allowance where
/// the headers give it, and pause for some seconds where it is used up.
#[derive(Debug, Clone, Copy, PartialEq, Eq)]
pub struct RateLimitPlan {
    pub allowance: Option<Allowance>,
    pub wait_secs: Option<u64>,
}

/// One step of the countdown while paused.
#[derive(Debug, Clone, Copy, PartialEq, Eq)]
pub struct CountdownTick {
    pub secs_remaining: u128,
    pub percent_elapsed: u64,
}

/// The share of the allowance that is left, in percent, for any counts.
pub fn percent_remaining(remaining: u32, limit: u32) -> (p: u64)
    ensures
        p == percent_left(remaining as nat, limit as nat),
{
    if limit > 0 {
        (remaining as u64 * 100) / (limit as u64)
    } else {
        100
    }
}

/// Whether `plan` is the plan for the headers `remaining`, `limit` and
/// `reset` at time `now`.
pub open spec fn is_plan(
    plan: RateLimitPlan,
    remaining: Option<Seq<char>>,
    limit: Option<Seq<char>>,
    reset: Option<Seq<char>>,
    now: u64,
) -> bool {
    &&& match allowance(remaining, limit) {
        Some((rv, lv)) => plan.allowance matches Some(a) && a.remaining == rv && a.limit == lv
            && a.percent == percent_left(rv, lv),
        None => plan.allowance is None,
    }
    &&& match seconds_to_reset(remaining, reset, now) {
        Some(w) => plan.wait_secs == Some(w as u64),
        None => plan.wait_secs is None,
    }
}

/// The plan for an answer whose rate-limit headers read `remaining`, `limit`
/// and `reset` (each where present as text), at time `now` in seconds since
/// the epoch. The allowance is shown where both counts are `u32`s; a pause
/// comes where nothing is left and the reset time lies ahead, and it lasts
/// until the reset time. Every set of headers has a plan.
pub fn rate_limit_plan(remaining: Option<&str>, limit: Option<&str>, reset: Option<&str>, now: u64) -> (plan: RateLimitPlan)
    ensures
        is_plan(plan, opt_view(remaining), opt_view(limit), opt_view(reset), now),
{
    let rv: Option<u32> = match remaining {
        Some(r) => parse_u32(r),
        None => None,
    };
    let lv: Option<u32> = match limit {
        Some(l) => parse_u32(l),
        None => None,
    };
    let allowance = match (rv, lv) {
        (Some(r), Some(l)) => Some(Allowance { remaining: r, limit: l, percent: percent_remaining(r, l) }),
        _ => None,
    };
    let tv: Option<u64> = match reset {
        Some(t) => parse_u64(t),
        None => None,
    };
    let wait_secs = match (rv, tv) {
        (Some(r), Some(t)) => if r == 0 && t > now {
            Some(t - now)
        } else {
            None
        },
        _ => None,
    };
    RateLimitPlan { allowance, wait_secs }
}

/// The current time, in whole seconds since the Unix epoch, from the system
/// clock through `chrono::Utc::now().timestamp()`. Nothing is claimed of it.
#[verifier::external_body]
fn unix_now() -> (t: u64) {
    chrono::Utc::now().timestamp() as u64
}

/// The plan for the headers at the current time, with the time it was made
/// for: whatever the clock says, the plan is the one for that time.
pub fn rate_limit_plan_now(remaining: Option<&str>, limit: Option<&str>, reset: Option<&str>) -> (r: (RateLimitPlan, u64))
    ensures
        is_plan(r.0, opt_view(remaining), opt_view(limit), opt_view(reset), r.1),
{
    let now = unix_now();
    (rate_limit_plan(remaining, limit, reset, now), now)
}

/// The length of a pause of `wait_secs` seconds and one more, in nanoseconds.
pub open spec fn pause_nanos(wait_secs: u64) -> nat {
    ((wait_secs + 1) * 1_000_000_000) as nat
}

/// The whole seconds left of the pause after `elapsed` nanoseconds.
pub open spec fn seconds_left(wait_secs: u64, elapsed: nat) -> nat {
    ((pause_nanos(wait_secs) - elapsed) / 1_000_000_000) as nat
}

/// The share of the pause that has passed after `elapsed` nanoseconds, in
/// percent, from the whole milliseconds on both sides, rounded down.
pub open spec fn percent_passed(wait_secs: u64, elapsed: nat) -> nat {
    (elapsed / 1_000_000) * 100 / ((wait_secs + 1) * 1000) as nat
}

/// The countdown step after `elapsed_nanos` of a pause of `wait_secs + 1`
/// seconds: nothing once the pause is over, else the whole seconds left and
/// the share passed, below a hundred.
pub fn countdown_tick(wait_secs: u64, elapsed_nanos: u128) -> (tick: Option<CountdownTick>)
    ensures
        elapsed_nanos >= pause_nanos(wait_secs) ==> tick is None,
        elapsed_nanos < pause_nanos(wait_secs) ==> (tick matches Some(t) && t.secs_remaining
            == seconds_left(wait_secs, elapsed_nanos as nat) && t.percent_elapsed == percent_passed(
            wait_secs,
            elapsed_nanos as nat,
        ) && t.percent_elapsed < 100),
{
    let secs: u128 = (wait_secs as u128) + 1;
    assert(secs * 1_000_000_000 <= 0xffff_ffff_ffff_ffff_ffff_ffff_ffff_ffffu128) by (nonlinear_arith)
        requires
            secs <= 0x1_0000_0000_0000_0000u128,
    ;
    let total: u128 = secs * NANOS_PER_SEC;
    if elapsed_nanos >= total {
        return None;
    }
    let left: u128 = total - elapsed_nanos;
    let secs_left: u128 = left / NANOS_PER_SEC;
    let millis: u128 = elapsed_nanos / NANOS_PER_MILLI;
    let total_millis: u128 = secs * 1000;
    assert(millis < total_millis) by (nonlinear_arith)
        requires
            elapsed_nanos < total,
            total == secs * 1_000_000_000,
            millis == elapsed_nanos / 1_000_000,
            total_millis == secs * 1000,
    ;
    assert(millis * 100 <= 0xffff_ffff_ffff_ffff_ffff_ffff_ffff_ffffu128) by (nonlinear_arith)
        requires
            millis < total_millis,
            total_millis == secs * 1000,
            secs <= 0x1_0000_0000_0000_0000u128,
    ;
    let percent: u128 = (millis * 100) / total_millis;
    assert(percent < 100) by (nonlinear_arith)
        requires
            millis < total_millis,
            percent == (millis * 100) as int / total_millis as int,
            total_millis > 0,
    ;
    Some(CountdownTick { secs_remaining: secs_left, percent_elapsed: percent as u64 })
}

/// The countdown shows the whole seconds left, rounded down, and the share of
/// the pause passed in whole milliseconds, in percent, rounded down.
pub proof fn law_countdown_rounds_down(wait_secs: u64, elapsed: nat)
    requires
        elapsed < pause_nanos(wait_secs),
    ensures
        seconds_left(wait_secs, elapsed) * 1_000_000_000 <= pause_nanos(wait_secs) - elapsed < (
        seconds_left(wait_secs, elapsed) + 1) * 1_000_000_000,
        percent_passed(wait_secs, elapsed) * ((wait_secs + 1) * 1000) <= (elapsed / 1_000_000) * 100
            < (percent_passed(wait_secs, elapsed) + 1) * ((wait_secs + 1) * 1000),
{
    let left: int = pause_nanos(wait_secs) - elapsed;
    let s: int = seconds_left(wait_secs, elapsed) as int;
    assert(s * 1_000_000_000 <= left < (s + 1) * 1_000_000_000) by (nonlinear_arith)
        requires
            left > 0,
            s == left / 1_000_000_000,
    ;
    let d: int = (wait_secs + 1) * 1000;
    let m: int = (elapsed / 1_000_000) as int;
    let p: int = percent_passed(wait_secs, elapsed) as int;
    assert(p * d <= m * 100 < (p + 1) * d) by (nonlinear_arith)
        requires
            d > 0,
            m >= 0,
            p == (m * 100) / d,
    ;
}

/// The share of a pause that has passed never goes down as time goes on.
pub proof fn lemma_countdown_monotone(wait_secs: u64, earlier: nat, later: nat)
    requires
        earlier <= later,
    ensures
        percent_passed(wait_secs, earlier) <= percent_passed(wait_secs, later),
        later <= pause_nanos(wait_secs) ==> seconds_left(wait_secs, later) <= seconds_left(
            wait_secs,
            earlier,
        ),
{
    let d: nat = ((wait_secs + 1) * 1000) as nat;
    assert(d > 0);
    assert(earlier / 1_000_000 <= later / 1_000_000) by (nonlinear_arith)
        requires
            earlier <= later,
    ;
    assert((earlier / 1_000_000) * 100 / d <= (later / 1_000_000) * 100 / d) by (nonlinear_arith)
        requires
            earlier / 1_000_000 <= later / 1_000_000,
            d > 0,
    ;
    if later <= pause_nanos(wait_secs) {
        let p: int = pause_nanos(wait_secs) as int;
        assert((p - later) / 1_000_000_000 <= (p - earlier) / 1_000_000_000) by (nonlinear_arith)
            requires
                earlier <= later <= p,
        ;
    }
}

} // verus!
