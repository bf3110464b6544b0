//! Subscription usage of the pool's accounts: reading an upstream usage sample, deciding
//! when an exhausted window cools an account down, and pooling the samples of all eligible
//! accounts into one report.
use vstd::prelude::*;
use crate::json::{
    Json, JsonV, Number, member, member_of, text_of, text_copy, entries_view, items_view,
    lemma_entries_view, lemma_items_view, lemma_key_index_at,
};
use crate::models::{Account, AccountStatus, BackendId};
use crate::text::owned;

verus! {

broadcast use vstd::string::group_string_axioms;

/// How old a usage sample may grow (twice this) before it is stale, and how often usage is
/// refreshed.
pub const REFRESH_INTERVAL_MS: i64 = 60000;

/// `x` saturated into the range of `i64`.
pub open spec fn saturate(x: int) -> i64 {
    if x < i64::MIN {
        i64::MIN
    } else if x > i64::MAX {
        i64::MAX
    } else {
        x as i64
    }
}

/// `i64::saturating_sub`.
pub fn saturating_sub(a: i64, b: i64) -> (r: i64)
    ensures
        r == saturate(a - b),
{
    match a.checked_sub(b) {
        Some(x) => x,
        None => if b > 0 {
            i64::MIN
        } else {
            i64::MAX
        },
    }
}

/// `i64::saturating_mul`.
pub fn saturating_mul(a: i64, b: i64) -> (r: i64)
    ensures
        r == saturate(a * b),
{
    match a.checked_mul(b) {
        Some(x) => x,
        None => {
            if (a < 0) != (b < 0) {
                assert(a * b < 0) by (nonlinear_arith)
                    requires
                        (a < 0) != (b < 0),
                        a != 0,
                        b != 0,
                ;
                i64::MIN
            } else {
                assert(a * b > 0) by (nonlinear_arith)
                    requires
                        (a < 0) == (b < 0),
                        a != 0,
                        b != 0,
                ;
                i64::MAX
            }
        },
    }
}

/// Whole seconds of a time in milliseconds (division truncating toward zero).
pub open spec fn seconds_of(ms: i64) -> int {
    if ms >= 0 {
        ms as int / 1000
    } else {
        -((-(ms as int)) / 1000)
    }
}

pub fn to_seconds(ms: i64) -> (r: i64)
    ensures
        r == seconds_of(ms),
{
    match ms.checked_div(1000) {
        Some(s) => s,
        None => 0,
    }
}

/// The bits of the floating-point number 100.
pub open spec fn hundred_bits() -> u64 {
    0x4059_0000_0000_0000u64
}

/// Whether a number is at least 100.
pub open spec fn at_least_hundred(n: Number) -> bool {
    match n {
        Number::PosInt(u) => u >= 100,
        Number::NegInt(_) => false,
        Number::Float(b) => hundred_bits() <= b && b <= 0x7ff0_0000_0000_0000u64,
    }
}

/// A percentage clamped into 0..=100, as `f64::clamp(0.0, 100.0)` does: integers above 100
/// become 100 and negative ones 0; floating-point numbers at or above 100 become 100,
/// negative ones below zero become 0, and -0.0 and NaN stay.
pub open spec fn clamp_percent(n: Number) -> Number {
    match n {
        Number::PosInt(u) => if u > 100 {
            Number::PosInt(100)
        } else {
            n
        },
        Number::NegInt(_) => Number::PosInt(0),
        Number::Float(b) => if hundred_bits() <= b && b <= 0x7ff0_0000_0000_0000u64 {
            Number::Float(hundred_bits())
        } else if 0x8000_0000_0000_0000u64 < b && b <= 0xfff0_0000_0000_0000u64 {
            Number::Float(0)
        } else {
            n
        },
    }
}

fn clamp_percent_exec(n: Number) -> (r: Number)
    ensures
        r == clamp_percent(n),
{
    match n {
        Number::PosInt(u) => if u > 100 {
            Number::PosInt(100)
        } else {
            n
        },
        Number::NegInt(_) => Number::PosInt(0),
        Number::Float(b) => if 0x4059_0000_0000_0000u64 <= b && b <= 0x7ff0_0000_0000_0000u64 {
            Number::Float(0x4059_0000_0000_0000u64)
        } else if 0x8000_0000_0000_0000u64 < b && b <= 0xfff0_0000_0000_0000u64 {
            Number::Float(0)
        } else {
            n
        },
    }
}

fn is_at_least_hundred(n: Number) -> (r: bool)
    ensures
        r == at_least_hundred(n),
{
    match n {
        Number::PosInt(u) => u >= 100,
        Number::NegInt(_) => false,
        Number::Float(b) => 0x4059_0000_0000_0000u64 <= b && b <= 0x7ff0_0000_0000_0000u64,
    }
}

/// The number `v` holds, if it is a number (`Value::as_f64` succeeds on every number).
pub open spec fn number_of(v: Option<JsonV>) -> Option<Number> {
    match v {
        Some(JsonV::Number(n)) => Some(n),
        _ => None,
    }
}

/// The value of `v` as an `i64` (`Value::as_i64`).
pub open spec fn i64_of(v: Option<JsonV>) -> Option<i64> {
    match v {
        Some(JsonV::Number(Number::PosInt(u))) => if u <= i64::MAX as u64 {
            Some(u as i64)
        } else {
            None
        },
        Some(JsonV::Number(Number::NegInt(i))) => Some(i),
        _ => None,
    }
}

/// The value of `v` as a `bool` (`Value::as_bool`).
pub open spec fn bool_of(v: Option<JsonV>) -> Option<bool> {
    match v {
        Some(JsonV::Bool(b)) => Some(b),
        _ => None,
    }
}

fn number_member(v: &Json, k: &str) -> (r: Option<Number>)
    ensures
        r == number_of(member(v@, k@)),
{
    match member_of(v, k) {
        Some(Json::Number(n)) => Some(*n),
        _ => None,
    }
}

fn i64_member(v: &Json, k: &str) -> (r: Option<i64>)
    ensures
        r == i64_of(member(v@, k@)),
{
    match member_of(v, k) {
        Some(Json::Number(Number::PosInt(u))) => if *u <= i64::MAX as u64 {
            Some(*u as i64)
        } else {
            None
        },
        Some(Json::Number(Number::NegInt(i))) => Some(*i),
        _ => None,
    }
}

fn bool_member(v: &Json, k: &str) -> (r: Option<bool>)
    ensures
        r == bool_of(member(v@, k@)),
{
    match member_of(v, k) {
        Some(Json::Bool(b)) => Some(*b),
        _ => None,
    }
}

/// One rate-limit window of an account's usage. The used percentage is the number that the
/// upstream reported, clamped into 0..=100.
#[derive(Clone, Copy, Debug, PartialEq, Eq, Structural)]
pub struct UsageWindow {
    pub used_percent: Number,
    pub limit_window_seconds: i64,
    pub reset_after_seconds: i64,
    pub reset_at: i64,
}

/// A usage sample of one account.
#[derive(Debug)]
pub struct AccountUsage {
    pub plan_type: String,
    pub allowed: bool,
    pub limit_reached: bool,
    pub primary_window: Option<UsageWindow>,
    pub secondary_window: Option<UsageWindow>,
    pub fetched_at_ms: i64,
}

/// What is known of an account's usage.
#[derive(Debug)]
pub enum AccountUsageState {
    Available { usage: AccountUsage },
    Unavailable { reason: String, checked_at_ms: i64 },
    Pending,
}

/// The window that an upstream window object describes: it needs a numeric `used_percent`,
/// an integer `limit_window_seconds` and an integer `reset_at`; a missing
/// `reset_after_seconds` is worked out from `reset_at` and the time `now_ms` (never below 0).
pub open spec fn window_of(v: Option<JsonV>, now_ms: i64) -> Option<UsageWindow> {
    match v {
        None => None,
        Some(w) => {
            let pct = number_of(member(w, "used_percent"@));
            let limit = i64_of(member(w, "limit_window_seconds"@));
            let after = match i64_of(member(w, "reset_after_seconds"@)) {
                Some(a) => a,
                None => saturate(
                    (match i64_of(member(w, "reset_at"@)) {
                        Some(r) => r,
                        None => 0,
                    }) - seconds_of(now_ms),
                ),
            };
            let reset = i64_of(member(w, "reset_at"@));
            if pct is Some && limit is Some && reset is Some {
                Some(
                    UsageWindow {
                        used_percent: clamp_percent(pct->0),
                        limit_window_seconds: limit->0,
                        reset_after_seconds: if after < 0 {
                            0
                        } else {
                            after
                        },
                        reset_at: reset->0,
                    },
                )
            } else {
                None
            }
        },
    }
}

pub fn parse_window(value: Option<&Json>, now_ms: i64) -> (r: Option<UsageWindow>)
    ensures
        r == window_of(
            match value {
                Some(v) => Some(v@),
                None => None,
            },
            now_ms,
        ),
{
    let value = match value {
        Some(v) => v,
        None => return None,
    };
    let pct = match number_member(value, "used_percent") {
        Some(n) => clamp_percent_exec(n),
        None => return None,
    };
    let limit = match i64_member(value, "limit_window_seconds") {
        Some(l) => l,
        None => return None,
    };
    let after = match i64_member(value, "reset_after_seconds") {
        Some(a) => a,
        None => {
            let reset = match i64_member(value, "reset_at") {
                Some(r) => r,
                None => 0,
            };
            saturating_sub(reset, to_seconds(now_ms))
        },
    };
    let reset_at = match i64_member(value, "reset_at") {
        Some(r) => r,
        None => return None,
    };
    Some(
        UsageWindow {
            used_percent: pct,
            limit_window_seconds: limit,
            reset_after_seconds: if after < 0 {
                0
            } else {
                after
            },
            reset_at,
        },
    )
}

/// The `plan_type` of an upstream usage reply, `unknown` when it has none.
pub open spec fn plan_of(v: JsonV) -> Seq<char> {
    match text_of(member(v, "plan_type"@)) {
        Some(p) => p,
        None => "unknown"@,
    }
}

/// The windows that an upstream usage reply describes at `now_ms`, primary then secondary.
pub open spec fn reply_windows(v: JsonV, now_ms: i64) -> (Option<UsageWindow>, Option<UsageWindow>) {
    match member(v, "rate_limit"@) {
        Some(d) => (
            window_of(member(d, "primary_window"@), now_ms),
            window_of(member(d, "secondary_window"@), now_ms),
        ),
        None => (None, None),
    }
}

/// Whether an upstream usage reply holds a usage sample: a `rate_limit` object with at least
/// one readable window.
pub open spec fn usage_readable(v: JsonV, now_ms: i64) -> bool {
    &&& member(v, "rate_limit"@) is Some
    &&& (reply_windows(v, now_ms).0 is Some || reply_windows(v, now_ms).1 is Some)
}

/// Whether `u` is the sample that the upstream reply `v`, read at `now_ms`, describes:
/// `allowed` and `limit_reached` default to false and the plan to `unknown`.
pub open spec fn describes_sample(u: &AccountUsage, v: JsonV, now_ms: i64) -> bool {
    let details = member(v, "rate_limit"@)->0;
    &&& u.plan_type@ == plan_of(v)
    &&& u.allowed == (bool_of(member(details, "allowed"@)) == Some(true))
    &&& u.limit_reached == (bool_of(member(details, "limit_reached"@)) == Some(true))
    &&& u.primary_window == reply_windows(v, now_ms).0
    &&& u.secondary_window == reply_windows(v, now_ms).1
    &&& u.fetched_at_ms == now_ms
}

/// Reads an upstream usage reply taken at `now_ms`: it needs a `rate_limit` object with at
/// least one readable window; `allowed` and `limit_reached` default to false and the plan
/// to `unknown`.
pub fn parse_usage(value: &Json, now_ms: i64) -> (r: Option<AccountUsage>)
    ensures
        r is Some <==> usage_readable(value@, now_ms),
        r matches Some(u) ==> describes_sample(&u, value@, now_ms),
{
    let details = match member_of(value, "rate_limit") {
        Some(d) => d,
        None => return None,
    };
    let plan_type = match text_copy(member_of(value, "plan_type")) {
        Some(p) => p,
        None => owned("unknown"),
    };
    let allowed = match bool_member(details, "allowed") {
        Some(b) => b,
        None => false,
    };
    let limit_reached = match bool_member(details, "limit_reached") {
        Some(b) => b,
        None => false,
    };
    let primary_window = parse_window(member_of(details, "primary_window"), now_ms);
    let secondary_window = parse_window(member_of(details, "secondary_window"), now_ms);
    if primary_window.is_none() && secondary_window.is_none() {
        return None;
    }
    Some(
        AccountUsage {
            plan_type,
            allowed,
            limit_reached,
            primary_window,
            secondary_window,
            fetched_at_ms: now_ms,
        },
    )
}


/// The windows that a sample reports, primary first.
pub open spec fn windows_of(u: &AccountUsage) -> Seq<UsageWindow> {
    (match u.primary_window {
        Some(w) => seq![w],
        None => Seq::empty(),
    }) + (match u.secondary_window {
        Some(w) => seq![w],
        None => Seq::empty(),
    })
}

/// The windows among `ws` whose used percentage is at least 100, in order.
pub open spec fn exhausted_among(ws: Seq<UsageWindow>) -> Seq<UsageWindow>
    decreases ws.len(),
{
    if ws.len() == 0 {
        ws
    } else if at_least_hundred(ws.last().used_percent) {
        exhausted_among(ws.drop_last()).push(ws.last())
    } else {
        exhausted_among(ws.drop_last())
    }
}

/// The latest reset, in milliseconds, of a non-empty list of windows.
pub open spec fn latest_reset_ms(ws: Seq<UsageWindow>) -> i64
    decreases ws.len(),
{
    if ws.len() <= 1 {
        saturate(ws[0].reset_at * 1000)
    } else {
        let m = latest_reset_ms(ws.drop_last());
        let r = saturate(ws.last().reset_at * 1000);
        if r > m {
            r
        } else {
            m
        }
    }
}

/// The windows of a sample that decide when its limit lifts: those at or above 100%, or,
/// when there are none, all of them.
pub open spec fn relevant_windows(u: &AccountUsage) -> Seq<UsageWindow> {
    if exhausted_among(windows_of(u)).len() > 0 {
        exhausted_among(windows_of(u))
    } else {
        windows_of(u)
    }
}

/// Whether every window of `ws` has a positive reset time.
pub open spec fn resets_known(ws: Seq<UsageWindow>) -> bool {
    forall|i: int| 0 <= i < ws.len() ==> #[trigger] ws[i].reset_at > 0
}

/// When an exhausted sample lifts its limit: the windows at or above 100% are the relevant
/// ones (all windows when none is but the sample says the limit is reached); with none, or
/// with any relevant window lacking a positive reset time, it is unknown; otherwise it is
/// the latest relevant reset in milliseconds, provided that it lies after `current_ms`.
pub open spec fn exhausted_reset(u: &AccountUsage, current_ms: i64) -> Option<i64> {
    let relevant = relevant_windows(u);
    if exhausted_among(windows_of(u)).len() == 0 && !u.limit_reached {
        None
    } else if relevant.len() == 0 || !resets_known(relevant) {
        None
    } else if latest_reset_ms(relevant) > current_ms {
        Some(latest_reset_ms(relevant))
    } else {
        None
    }
}

proof fn lemma_exhausted_among(ws: Seq<UsageWindow>)
    ensures
        forall|j: int|
            0 <= j < exhausted_among(ws).len() ==> ws.contains(#[trigger] exhausted_among(ws)[j])
                && at_least_hundred(exhausted_among(ws)[j].used_percent),
        forall|k: int|
            0 <= k < ws.len() && at_least_hundred((#[trigger] ws[k]).used_percent) ==> exhausted_among(
                ws,
            ).contains(ws[k]),
    decreases ws.len(),
{
    if ws.len() > 0 {
        let t = ws.drop_last();
        lemma_exhausted_among(t);
        let e = exhausted_among(ws);
        let et = exhausted_among(t);
        assert forall|j: int| 0 <= j < e.len() implies ws.contains(#[trigger] e[j]) && at_least_hundred(
            e[j].used_percent,
        ) by {
            if j < et.len() {
                assert(e[j] == et[j]);
                assert(t.contains(et[j]));
                let k = choose|k: int| 0 <= k < t.len() && t[k] == et[j];
                assert(ws[k] == t[k]);
            } else {
                assert(e[j] == ws[ws.len() - 1]);
            }
        }
        assert forall|k: int|
            0 <= k < ws.len() && at_least_hundred((#[trigger] ws[k]).used_percent) implies e.contains(
            ws[k],
        ) by {
            if k < t.len() {
                assert(t[k] == ws[k]);
                assert(et.contains(t[k]));
                let j = choose|j: int| 0 <= j < et.len() && et[j] == t[k];
                assert(e[j] == et[j]);
            } else {
                assert(e[e.len() - 1] == ws[k]);
            }
        }
    }
}

proof fn lemma_latest_reset(ws: Seq<UsageWindow>)
    requires
        ws.len() > 0,
    ensures
        forall|j: int|
            0 <= j < ws.len() ==> latest_reset_ms(ws) >= saturate(#[trigger] ws[j].reset_at * 1000),
        exists|j: int|
            0 <= j < ws.len() && latest_reset_ms(ws) == saturate(#[trigger] ws[j].reset_at * 1000),
    decreases ws.len(),
{
    if ws.len() == 1 {
        assert(latest_reset_ms(ws) == saturate(ws[0].reset_at * 1000));
    } else {
        let t = ws.drop_last();
        lemma_latest_reset(t);
        assert forall|j: int| 0 <= j < ws.len() implies latest_reset_ms(ws) >= saturate(
            #[trigger] ws[j].reset_at * 1000,
        ) by {
            if j < t.len() {
                assert(t[j] == ws[j]);
            }
        }
        let j = choose|j: int| 0 <= j < t.len() && latest_reset_ms(t) == saturate(#[trigger] t[j].reset_at * 1000);
        assert(t[j] == ws[j]);
        assert(latest_reset_ms(ws) == saturate(ws[j].reset_at * 1000) || latest_reset_ms(ws)
            == saturate(ws[ws.len() - 1].reset_at * 1000));
    }
}

/// When an exhausted sample lifts its limit, stated over the windows the sample reports. The
/// windows that decide are those at or above 100%, or, when none is, every window provided
/// the sample says its limit is reached. A known result lies after `current_ms`, every
/// deciding window has a positive reset no later than it, and it is the reset (in
/// milliseconds) of one of them: the latest. The result is known whenever some window
/// decides, all deciding windows have positive resets, and one of them lies after
/// `current_ms`.
pub proof fn law_exhausted_reset(u: AccountUsage, current_ms: i64)
    ensures
        ({
            let ws = windows_of(&u);
            let any_full = exists|k: int|
                0 <= k < ws.len() && at_least_hundred(#[trigger] ws[k].used_percent);
            let r = exhausted_reset(&u, current_ms);
            &&& r is Some ==> r->0 > current_ms
            &&& r is Some ==> forall|k: int|
                0 <= k < ws.len() && (if any_full {
                    at_least_hundred(ws[k].used_percent)
                } else {
                    u.limit_reached
                }) ==> (#[trigger] ws[k]).reset_at > 0 && r->0 >= saturate(ws[k].reset_at * 1000)
            &&& r is Some ==> exists|k: int|
                0 <= k < ws.len() && (if any_full {
                    at_least_hundred(ws[k].used_percent)
                } else {
                    u.limit_reached
                }) && r->0 == saturate((#[trigger] ws[k]).reset_at * 1000)
            &&& ((exists|k: int|
                0 <= k < ws.len() && (if any_full {
                    at_least_hundred(ws[k].used_percent)
                } else {
                    u.limit_reached
                }) && saturate((#[trigger] ws[k]).reset_at * 1000) > current_ms) && (forall|k: int|
                0 <= k < ws.len() && (if any_full {
                    at_least_hundred(ws[k].used_percent)
                } else {
                    u.limit_reached
                }) ==> (#[trigger] ws[k]).reset_at > 0)) ==> r is Some
        }),
{
    let ws = windows_of(&u);
    let ex = exhausted_among(ws);
    lemma_exhausted_among(ws);
    let any_full = exists|k: int| 0 <= k < ws.len() && at_least_hundred(#[trigger] ws[k].used_percent);
    if any_full {
        let k = choose|k: int| 0 <= k < ws.len() && at_least_hundred(#[trigger] ws[k].used_percent);
        assert(ex.contains(ws[k]));
    } else if ex.len() > 0 {
        assert(ws.contains(ex[0]));
        let k = choose|k: int| 0 <= k < ws.len() && ws[k] == ex[0];
        assert(at_least_hundred(ws[k].used_percent));
    }
    let rel = relevant_windows(&u);
    let r = exhausted_reset(&u, current_ms);
    let dec = |w: UsageWindow|
        if any_full {
            at_least_hundred(w.used_percent)
        } else {
            u.limit_reached
        };
    // The relevant windows are windows of the sample; every deciding window is relevant.
    assert forall|j: int| 0 <= j < rel.len() implies ws.contains(#[trigger] rel[j]) && (any_full
        ==> at_least_hundred(rel[j].used_percent)) by {
        if !any_full {
            assert(ws[j] == rel[j]);
        }
    }
    assert forall|k: int| 0 <= k < ws.len() && dec(#[trigger] ws[k]) implies rel.contains(ws[k]) by {
        if !any_full {
            assert(rel[k] == ws[k]);
        }
    }
    if rel.len() > 0 {
        lemma_latest_reset(rel);
    }
    if r is Some {
        assert forall|k: int|
            0 <= k < ws.len() && (if any_full {
                at_least_hundred(ws[k].used_percent)
            } else {
                u.limit_reached
            }) implies (#[trigger] ws[k]).reset_at > 0 && r->0 >= saturate(ws[k].reset_at * 1000) by {
            assert(dec(ws[k]));
            assert(rel.contains(ws[k]));
            let j = choose|j: int| 0 <= j < rel.len() && rel[j] == ws[k];
            assert(rel[j].reset_at > 0);
            assert(latest_reset_ms(rel) >= saturate(rel[j].reset_at * 1000));
        }
        let j = choose|j: int|
            0 <= j < rel.len() && latest_reset_ms(rel) == saturate(#[trigger] rel[j].reset_at * 1000);
        assert(ws.contains(rel[j]));
        let k = choose|k: int| 0 <= k < ws.len() && ws[k] == rel[j];
        assert(r->0 == saturate(ws[k].reset_at * 1000));
        assert(if any_full {
            at_least_hundred(ws[k].used_percent)
        } else {
            u.limit_reached
        });
    }
    if (exists|k: int|
        0 <= k < ws.len() && (if any_full {
            at_least_hundred(ws[k].used_percent)
        } else {
            u.limit_reached
        }) && saturate((#[trigger] ws[k]).reset_at * 1000) > current_ms) && (forall|k: int|
        0 <= k < ws.len() && (if any_full {
            at_least_hundred(ws[k].used_percent)
        } else {
            u.limit_reached
        }) ==> (#[trigger] ws[k]).reset_at > 0) {
        let k = choose|k: int|
            0 <= k < ws.len() && (if any_full {
                at_least_hundred(ws[k].used_percent)
            } else {
                u.limit_reached
            }) && saturate((#[trigger] ws[k]).reset_at * 1000) > current_ms;
        assert(dec(ws[k]));
        assert(rel.contains(ws[k]));
        let j = choose|j: int| 0 <= j < rel.len() && rel[j] == ws[k];
        assert forall|i: int| 0 <= i < rel.len() implies #[trigger] rel[i].reset_at > 0 by {
            assert(ws.contains(rel[i]));
            let k2 = choose|k2: int| 0 <= k2 < ws.len() && ws[k2] == rel[i];
            assert(dec(ws[k2]));
        }
        assert(latest_reset_ms(rel) >= saturate(rel[j].reset_at * 1000));
    }
}

fn sample_windows(u: &AccountUsage) -> (r: Vec<UsageWindow>)
    ensures
        r@ == windows_of(u),
{
    let mut v: Vec<UsageWindow> = Vec::new();
    if let Some(w) = u.primary_window {
        v.push(w);
    }
    if let Some(w) = u.secondary_window {
        v.push(w);
    }
    assert(v@ =~= windows_of(u));
    v
}

#[verifier::loop_isolation(false)]
pub fn exhausted_reset_ms(usage: &AccountUsage, current_ms: i64) -> (r: Option<i64>)
    ensures
        r == exhausted_reset(usage, current_ms),
{
    let windows = sample_windows(usage);
    let mut explicit: Vec<UsageWindow> = Vec::new();
    let mut i: usize = 0;
    while i < windows.len()
        invariant
            i <= windows@.len(),
            explicit@ == exhausted_among(windows@.take(i as int)),
        decreases windows@.len() - i,
    {
        assert(windows@.take(i + 1).drop_last() =~= windows@.take(i as int));
        if is_at_least_hundred(windows[i].used_percent) {
            explicit.push(windows[i]);
        }
        i += 1;
    }
    assert(windows@.take(i as int) =~= windows@);
    assert(explicit@ == exhausted_among(windows_of(usage)));
    if explicit.len() == 0 && !usage.limit_reached {
        return None;
    }
    let relevant = if explicit.len() > 0 {
        explicit
    } else {
        windows
    };
    if relevant.len() == 0 {
        return None;
    }
    let mut j: usize = 0;
    while j < relevant.len()
        invariant
            j <= relevant@.len(),
            forall|k: int| 0 <= k < j ==> #[trigger] relevant@[k].reset_at > 0,
        decreases relevant@.len() - j,
    {
        if relevant[j].reset_at <= 0 {
            assert(relevant@[j as int].reset_at <= 0);
            return None;
        }
        j += 1;
    }
    let mut latest = saturating_mul(relevant[0].reset_at, 1000);
    let mut k: usize = 1;
    while k < relevant.len()
        invariant
            1 <= k <= relevant@.len(),
            latest == latest_reset_ms(relevant@.take(k as int)),
        decreases relevant@.len() - k,
    {
        assert(relevant@.take(k + 1).drop_last() =~= relevant@.take(k as int));
        let r = saturating_mul(relevant[k].reset_at, 1000);
        if r > latest {
            latest = r;
        }
        k += 1;
    }
    assert(relevant@.take(k as int) =~= relevant@);
    if latest > current_ms {
        Some(latest)
    } else {
        None
    }
}

/// The cooldown that a usage sample imposes on an account with status `status`: an
/// exhausted sample with a known future reset cools a Healthy or Cooling account until that
/// reset; any other sample, or an account in another status, is left as it is.
pub fn cooling_deadline(status: AccountStatus, usage: &AccountUsage, current_ms: i64) -> (r: Option<
    i64,
>)
    ensures
        r == if status == AccountStatus::Healthy || status == AccountStatus::Cooling {
            exhausted_reset(usage, current_ms)
        } else {
            None
        },
{
    match exhausted_reset_ms(usage, current_ms) {
        Some(reset_at) => match status {
            AccountStatus::Healthy | AccountStatus::Cooling => Some(reset_at),
            _ => None,
        },
        None => None,
    }
}

/// The cooldown that a refreshed usage state imposes on its account, whose stored status is
/// `status` (none when the account is no longer stored): only an available sample can cool
/// an account down; an unavailable or pending state never changes its health.
pub fn cooling_update(state: &AccountUsageState, status: Option<AccountStatus>, current_ms: i64) -> (r:
    Option<i64>)
    ensures
        r == match (state, status) {
            (AccountUsageState::Available { usage }, Some(s)) => if s == AccountStatus::Healthy
                || s == AccountStatus::Cooling {
                exhausted_reset(usage, current_ms)
            } else {
                None
            },
            _ => None,
        },
{
    match (state, status) {
        (AccountUsageState::Available { usage }, Some(s)) => cooling_deadline(s, usage, current_ms),
        _ => None,
    }
}

/// The usage state recorded for the account `id` (the first entry with that id).
pub open spec fn state_of(states: Seq<(String, AccountUsageState)>, id: Seq<char>) -> Option<
    AccountUsageState,
>
    decreases states.len(),
{
    if states.len() == 0 {
        None
    } else if states[0].0@ == id {
        Some(states[0].1)
    } else {
        state_of(states.drop_first(), id)
    }
}

/// The usage state recorded for the account `id`.
pub fn find_state<'a>(states: &'a Vec<(String, AccountUsageState)>, id: &str) -> (r: Option<
    &'a AccountUsageState,
>)
    ensures
        match r {
            Some(s) => state_of(states@, id@) == Some(*s),
            None => state_of(states@, id@) is None,
        },
{
    let mut i: usize = 0;
    assert(states@.skip(0) =~= states@);
    while i < states.len()
        invariant
            i <= states@.len(),
            state_of(states@, id@) == state_of(states@.skip(i as int), id@),
        decreases states@.len() - i,
    {
        assert(states@.skip(i as int).drop_first() =~= states@.skip(i + 1));
        if crate::text::same_text(states[i].0.as_str(), id) {
            return Some(&states[i].1);
        }
        i += 1;
    }
    None
}

proof fn lemma_state_of_push(
    s: Seq<(String, AccountUsageState)>,
    e: (String, AccountUsageState),
    k: Seq<char>,
)
    ensures
        state_of(s.push(e), k) == match state_of(s, k) {
            Some(x) => Some(x),
            None => if e.0@ == k {
                Some(e.1)
            } else {
                None
            },
        },
    decreases s.len(),
{
    if s.len() > 0 {
        assert(s.push(e).drop_first() =~= s.drop_first().push(e));
        lemma_state_of_push(s.drop_first(), e, k);
    } else {
        assert(s.push(e).drop_first() =~= s);
    }
}

proof fn lemma_state_of_remove(s: Seq<(String, AccountUsageState)>, i: int, k: Seq<char>)
    requires
        0 <= i < s.len(),
        s[i].0@ != k,
    ensures
        state_of(s.remove(i), k) == state_of(s, k),
    decreases s.len(),
{
    if i == 0 {
        assert(s.remove(0) =~= s.drop_first());
    } else {
        assert(s.remove(i).drop_first() =~= s.drop_first().remove(i - 1));
        assert(s.remove(i)[0] == s[0]);
        lemma_state_of_remove(s.drop_first(), i - 1, k);
    }
}

proof fn lemma_state_of_absent(s: Seq<(String, AccountUsageState)>, k: Seq<char>)
    requires
        forall|j: int| 0 <= j < s.len() ==> (#[trigger] s[j]).0@ != k,
    ensures
        state_of(s, k) is None,
    decreases s.len(),
{
    if s.len() > 0 {
        assert forall|j: int| 0 <= j < s.drop_first().len() implies (#[trigger] s.drop_first()[j]).0@
            != k by {
            assert(s.drop_first()[j] == s[j + 1]);
        }
        lemma_state_of_absent(s.drop_first(), k);
    }
}

/// Records `state` as the usage state of the account `id`, replacing the one it had: the
/// entries stay one per account, and every other account keeps its state.
pub fn set_state(states: &mut Vec<(String, AccountUsageState)>, id: String, state: AccountUsageState)
    requires
        distinct_ids(old(states)@),
    ensures
        distinct_ids(final(states)@),
        state_of(final(states)@, id@) == Some(state),
        forall|k: Seq<char>| k != id@ ==> state_of(final(states)@, k) == state_of(old(states)@, k),
{
    let ghost s0 = states@;
    let mut i: usize = 0;
    while i < states.len() && !crate::text::same_text(states[i].0.as_str(), id.as_str())
        invariant
            states@ == s0,
            i <= s0.len(),
            forall|j: int| 0 <= j < i ==> (#[trigger] s0[j]).0@ != id@,
        decreases s0.len() - i,
    {
        i += 1;
    }
    if i < states.len() {
        let _replaced = states.remove(i);
        proof {
            let s1 = s0.remove(i as int);
            assert forall|j: int| 0 <= j < s1.len() implies (#[trigger] s1[j]).0@ != id@ by {
                if j < i {
                    assert(s1[j] == s0[j]);
                } else {
                    assert(s1[j] == s0[j + 1]);
                }
            }
            assert forall|a: int, b: int| 0 <= a < b < s1.len() implies s1[a].0@ != s1[b].0@ by {
                let a0 = if a < i { a } else { a + 1 };
                let b0 = if b < i { b } else { b + 1 };
                assert(s1[a] == s0[a0] && s1[b] == s0[b0]);
            }
            assert forall|k: Seq<char>| k != id@ implies state_of(s1, k) == state_of(s0, k) by {
                lemma_state_of_remove(s0, i as int, k);
            }
        }
    }
    let ghost s1 = states@;
    proof {
        assert(forall|j: int| 0 <= j < s1.len() ==> (#[trigger] s1[j]).0@ != id@);
        lemma_state_of_absent(s1, id@);
    }
    let e = (id, state);
    states.push(e);
    proof {
        lemma_state_of_push(s1, e, e.0@);
        assert forall|k: Seq<char>| k != e.0@ implies state_of(states@, k) == state_of(s0, k) by {
            lemma_state_of_push(s1, e, k);
        }
        assert forall|a: int, b: int| 0 <= a < b < states@.len() implies states@[a].0@
            != states@[b].0@ by {
            if b == s1.len() {
                assert(states@[a] == s1[a]);
            } else {
                assert(states@[a] == s1[a] && states@[b] == s1[b]);
            }
        }
    }
}

/// The reset that a fresh usage sample of the account `id` vouches for: the sample must be
/// available and at most two refresh intervals old at `current_ms`.
pub open spec fn authoritative_reset(
    states: Seq<(String, AccountUsageState)>,
    id: Seq<char>,
    current_ms: i64,
) -> Option<i64> {
    match state_of(states, id) {
        Some(AccountUsageState::Available { usage }) => if saturate(
            current_ms - usage.fetched_at_ms,
        ) > REFRESH_INTERVAL_MS * 2 {
            None
        } else {
            exhausted_reset(&usage, current_ms)
        },
        _ => None,
    }
}

pub fn authoritative_reset_ms(
    states: &Vec<(String, AccountUsageState)>,
    account_id: &str,
    current_ms: i64,
) -> (r: Option<i64>)
    requires
        distinct_ids(states@),
    ensures
        r == authoritative_reset(states@, account_id@, current_ms),
{
    match find_state(states, account_id) {
        Some(AccountUsageState::Available { usage }) => {
            if saturating_sub(current_ms, usage.fetched_at_ms) > REFRESH_INTERVAL_MS * 2 {
                None
            } else {
                exhausted_reset_ms(usage, current_ms)
            }
        },
        _ => None,
    }
}

/// Whether the usage cache, refreshed at `refreshed_at_ms`, is due for a refresh at
/// `now_ms`.
pub fn refresh_due(refreshed_at_ms: i64, now_ms: i64) -> (r: bool)
    ensures
        r == (saturate(now_ms - refreshed_at_ms) >= REFRESH_INTERVAL_MS),
{
    saturating_sub(now_ms, refreshed_at_ms) >= REFRESH_INTERVAL_MS
}

/// Why the usage of an account is not fetched at all: a backend other than Codex, a
/// disabled account, or one whose authentication failed; none for an account to fetch.
pub open spec fn skip_reason(backend: BackendId, status: AccountStatus) -> Option<Seq<char>> {
    if backend != BackendId::Codex {
        Some("unsupported_backend"@)
    } else if status == AccountStatus::Disabled {
        Some("disabled"@)
    } else if status == AccountStatus::AuthError {
        Some("authentication_failed"@)
    } else {
        None
    }
}

pub fn unavailable_reason(account: &Account) -> (r: Option<String>)
    ensures
        match skip_reason(account.backend, account.status) {
            Some(m) => r matches Some(s) && s@ == m,
            None => r is None,
        },
{
    if account.backend != BackendId::Codex {
        return Some(owned("unsupported_backend"));
    }
    match account.status {
        AccountStatus::Disabled => Some(owned("disabled")),
        AccountStatus::AuthError => Some(owned("authentication_failed")),
        _ => None,
    }
}


/// The next step of fetching one account's usage.
#[derive(Debug)]
pub enum FetchStep {
    /// Stop: the account's usage is unavailable for this reason.
    Unavailable(String),
    /// Ask the upstream for the usage with this access token.
    Request(String),
    /// The upstream refused the token: force a token refresh and ask once more.
    RefreshAndRetry,
    /// The upstream answered with success: read and parse the body.
    ReadBody,
}

/// After the access token was asked for: ask the upstream with it, or, without one, the
/// account's authentication failed.
pub fn after_token(token: Option<String>) -> (r: FetchStep)
    ensures
        match token {
            Some(t) => r matches FetchStep::Request(s) && s@ == t@,
            None => r matches FetchStep::Unavailable(m) && m@ == "authentication_failed"@,
        },
{
    match token {
        Some(t) => FetchStep::Request(t),
        None => FetchStep::Unavailable(owned("authentication_failed")),
    }
}

/// After the upstream answered with `status` (none: the request failed): a first 401 leads
/// to one forced refresh and retry; a success status to reading the body; anything else
/// leaves the usage unavailable.
pub fn after_response(status: Option<u16>, retried: bool) -> (r: FetchStep)
    ensures
        match status {
            Some(401) if !retried => r is RefreshAndRetry,
            Some(s) if 200 <= s < 300 => r is ReadBody,
            _ => r matches FetchStep::Unavailable(m) && m@ == "upstream_unavailable"@,
        },
{
    match status {
        Some(401) if !retried => FetchStep::RefreshAndRetry,
        Some(s) if 200 <= s && s < 300 => FetchStep::ReadBody,
        _ => FetchStep::Unavailable(owned("upstream_unavailable")),
    }
}

/// After the forced refresh: ask once more with the new token, or, without one, the usage
/// is unavailable.
pub fn after_refresh(token: Option<String>) -> (r: FetchStep)
    ensures
        match token {
            Some(t) => r matches FetchStep::Request(s) && s@ == t@,
            None => r matches FetchStep::Unavailable(m) && m@ == "upstream_unavailable"@,
        },
{
    match token {
        Some(t) => FetchStep::Request(t),
        None => FetchStep::Unavailable(owned("upstream_unavailable")),
    }
}

/// The usage state of an account whose fetch did not finish in time, checked at `now_ms`:
/// unavailable, never zero usage.
pub fn timed_out_state(now_ms: i64) -> (r: AccountUsageState)
    ensures
        r matches AccountUsageState::Unavailable { reason, checked_at_ms } && reason@
            == "refresh_timeout"@ && checked_at_ms == now_ms,
{
    AccountUsageState::Unavailable { reason: owned("refresh_timeout"), checked_at_ms: now_ms }
}

/// The usage state that a successful answer gives at `now_ms`: the parsed sample, or, when
/// the body could not be read as JSON (`None`) or holds no usage, unavailable.
pub fn usage_state_from_body(body: Option<&Json>, now_ms: i64) -> (r: AccountUsageState)
    ensures
        match body {
            Some(b) if usage_readable(b@, now_ms) => r matches AccountUsageState::Available {
                usage,
            } && describes_sample(&usage, b@, now_ms),
            _ => r matches AccountUsageState::Unavailable { reason, checked_at_ms } && reason@
                == "upstream_unavailable"@ && checked_at_ms == now_ms,
        },
{
    match body {
        Some(b) => match parse_usage(b, now_ms) {
            Some(usage) => AccountUsageState::Available { usage },
            None => AccountUsageState::Unavailable {
                reason: owned("upstream_unavailable"),
                checked_at_ms: now_ms,
            },
        },
        None => AccountUsageState::Unavailable {
            reason: owned("upstream_unavailable"),
            checked_at_ms: now_ms,
        },
    }
}


/// The windows that an account's usage state contributes: those of an available sample.
pub open spec fn account_windows(st: Option<AccountUsageState>) -> Seq<UsageWindow> {
    match st {
        Some(AccountUsageState::Available { usage }) => windows_of(&usage),
        _ => Seq::empty(),
    }
}

/// The accounts behind a sequence of references.
pub open spec fn deref_all(s: Seq<&Account>) -> Seq<Account> {
    s.map_values(|a: &Account| *a)
}

/// The windows of each of `accounts`, account by account, primary first (none for an
/// account without an available sample).
pub open spec fn window_lists(accounts: Seq<Account>, states: Seq<(String, AccountUsageState)>) -> Seq<
    Seq<UsageWindow>,
>
    decreases accounts.len(),
{
    if accounts.len() == 0 {
        Seq::empty()
    } else {
        window_lists(accounts.drop_last(), states).push(
            account_windows(state_of(states, accounts.last().id@)),
        )
    }
}

/// All the windows of `lists`, one list after the other.
pub open spec fn flat_windows(lists: Seq<Seq<UsageWindow>>) -> Seq<UsageWindow>
    decreases lists.len(),
{
    if lists.len() == 0 {
        Seq::empty()
    } else {
        flat_windows(lists.drop_last()) + lists.last()
    }
}

/// The used percentage of the first window of `ws` that lasts `d` seconds.
pub open spec fn first_percent(ws: Seq<UsageWindow>, d: i64) -> Option<Number>
    decreases ws.len(),
{
    if ws.len() == 0 {
        None
    } else {
        match first_percent(ws.drop_last(), d) {
            Some(p) => Some(p),
            None => if ws.last().limit_window_seconds == d {
                Some(ws.last().used_percent)
            } else {
                None
            },
        }
    }
}

/// The used percentages for the duration `d`: one per account that reports a window of
/// that duration (its first one), in account order. An account whose primary and secondary
/// windows share the duration still counts once.
pub open spec fn account_percents(lists: Seq<Seq<UsageWindow>>, d: i64) -> Seq<Number>
    decreases lists.len(),
{
    if lists.len() == 0 {
        Seq::empty()
    } else {
        let rest = account_percents(lists.drop_last(), d);
        match first_percent(lists.last(), d) {
            Some(p) => rest.push(p),
            None => rest,
        }
    }
}

/// The number of accounts of `lists` that report a window lasting `d` seconds.
pub open spec fn reporting_accounts_for(lists: Seq<Seq<UsageWindow>>, d: i64) -> nat
    decreases lists.len(),
{
    if lists.len() == 0 {
        0
    } else {
        reporting_accounts_for(lists.drop_last(), d) + if has_duration(lists.last(), d) {
            1nat
        } else {
            0nat
        }
    }
}

/// The earliest positive reset time among the windows of `ws` that last `d` seconds, or 0
/// when none has one.
pub open spec fn earliest_reset_for(ws: Seq<UsageWindow>, d: i64) -> i64
    decreases ws.len(),
{
    if ws.len() == 0 {
        0
    } else {
        let m = earliest_reset_for(ws.drop_last(), d);
        let w = ws.last();
        if w.limit_window_seconds == d && w.reset_at > 0 && (m == 0 || w.reset_at < m) {
            w.reset_at
        } else {
            m
        }
    }
}

/// The reset time pooled for the duration `d` is the earliest positive reset among the
/// windows of that duration: 0 exactly when none of them has a positive reset; otherwise the
/// reset of one of them, and no later than the positive reset of any of them.
pub proof fn law_earliest_reset(ws: Seq<UsageWindow>, d: i64)
    ensures
        earliest_reset_for(ws, d) >= 0,
        (earliest_reset_for(ws, d) == 0) == (forall|k: int|
            0 <= k < ws.len() && (#[trigger] ws[k]).limit_window_seconds == d ==> ws[k].reset_at
                <= 0),
        earliest_reset_for(ws, d) != 0 ==> exists|k: int|
            0 <= k < ws.len() && (#[trigger] ws[k]).limit_window_seconds == d && ws[k].reset_at
                == earliest_reset_for(ws, d),
        forall|k: int|
            0 <= k < ws.len() && (#[trigger] ws[k]).limit_window_seconds == d && ws[k].reset_at > 0
                ==> earliest_reset_for(ws, d) <= ws[k].reset_at,
    decreases ws.len(),
{
    if ws.len() > 0 {
        let t = ws.drop_last();
        law_earliest_reset(t, d);
        let m = earliest_reset_for(t, d);
        let r = earliest_reset_for(ws, d);
        assert forall|k: int| 0 <= k < t.len() implies #[trigger] t[k] == ws[k] by {}
        if m != 0 {
            let k = choose|k: int|
                0 <= k < t.len() && (#[trigger] t[k]).limit_window_seconds == d && t[k].reset_at == m;
            assert(ws[k] == t[k]);
        }
        if r != m {
            assert(ws[ws.len() - 1] == ws.last());
        }
        assert forall|k: int|
            0 <= k < ws.len() && (#[trigger] ws[k]).limit_window_seconds == d && ws[k].reset_at > 0
                implies r <= ws[k].reset_at by {
            if k < t.len() {
                assert(t[k] == ws[k]);
            }
        }
        if r == 0 {
            assert forall|k: int|
                0 <= k < ws.len() && (#[trigger] ws[k]).limit_window_seconds == d implies ws[k].reset_at
                    <= 0 by {
                if k < t.len() {
                    assert(t[k] == ws[k]);
                }
            }
        } else {
            if m == 0 {
                assert(ws[ws.len() - 1].limit_window_seconds == d && ws[ws.len() - 1].reset_at > 0);
            } else {
                let k = choose|k: int|
                    0 <= k < t.len() && (#[trigger] t[k]).limit_window_seconds == d && t[k].reset_at
                        == m;
                assert(ws[k] == t[k]);
            }
        }
    }
}

/// Whether some window of `ws` lasts `d` seconds.
pub open spec fn has_duration(ws: Seq<UsageWindow>, d: i64) -> bool {
    exists|k: int| 0 <= k < ws.len() && #[trigger] ws[k].limit_window_seconds == d
}

/// `d` placed into the increasing sequence `s`, unless `s` holds it already.
pub open spec fn insert_duration(s: Seq<i64>, d: i64) -> Seq<i64>
    decreases s.len(),
{
    if s.len() == 0 {
        seq![d]
    } else if s.last() == d {
        s
    } else if s.last() < d {
        s.push(d)
    } else {
        insert_duration(s.drop_last(), d).push(s.last())
    }
}

/// The distinct durations of the windows of `ws`, in increasing order.
pub open spec fn durations_of(ws: Seq<UsageWindow>) -> Seq<i64>
    decreases ws.len(),
{
    if ws.len() == 0 {
        Seq::empty()
    } else {
        insert_duration(durations_of(ws.drop_last()), ws.last().limit_window_seconds)
    }
}

/// Whether `s` is strictly increasing.
pub open spec fn increasing(s: Seq<i64>) -> bool {
    forall|i: int, j: int| 0 <= i < j < s.len() ==> s[i] < s[j]
}

proof fn lemma_insert_duration(s: Seq<i64>, d: i64)
    requires
        increasing(s),
    ensures
        increasing(insert_duration(s, d)),
        forall|x: i64| #[trigger] insert_duration(s, d).contains(x) <==> (s.contains(x) || x == d),
    decreases s.len(),
{
    if s.len() == 0 {
        let r = insert_duration(s, d);
        assert(r =~= seq![d]);
        assert forall|x: i64| #[trigger] r.contains(x) <==> (s.contains(x) || x == d) by {
            if x == d {
                assert(r[0] == x);
            }
        }
    } else if s.last() == d {
        assert(s.contains(s.last()) && s[s.len() - 1] == d);
    } else if s.last() < d {
        let r = s.push(d);
        assert forall|x: i64| #[trigger] r.contains(x) <==> (s.contains(x) || x == d) by {
            if s.contains(x) {
                let k = choose|k: int| 0 <= k < s.len() && s[k] == x;
                assert(r[k] == x);
            }
            if x == d {
                assert(r[s.len() as int] == d);
            }
            if r.contains(x) {
                let k = choose|k: int| 0 <= k < r.len() && r[k] == x;
                if k < s.len() {
                    assert(s[k] == x);
                }
            }
        }
    } else {
        let t = s.drop_last();
        let l = s.last();
        lemma_insert_duration(t, d);
        let it = insert_duration(t, d);
        let r = it.push(l);
        assert forall|x: i64| #[trigger] it.contains(x) implies x < l by {
            let k = choose|k: int| 0 <= k < it.len() && it[k] == x;
            if t.contains(x) {
                let m = choose|m: int| 0 <= m < t.len() && t[m] == x;
                assert(s[m] == x && s[s.len() - 1] == l);
            }
        }
        assert forall|i: int, j: int| 0 <= i < j < r.len() implies r[i] < r[j] by {
            assert(it.contains(r[i]));
            if j < it.len() {
            } else {
                assert(r[j] == l);
            }
        }
        assert forall|x: i64| #[trigger] r.contains(x) <==> (s.contains(x) || x == d) by {
            if s.contains(x) {
                let k = choose|k: int| 0 <= k < s.len() && s[k] == x;
                if k < t.len() {
                    assert(t[k] == x);
                    assert(it.contains(x));
                    let m = choose|m: int| 0 <= m < it.len() && it[m] == x;
                    assert(r[m] == x);
                } else {
                    assert(r[r.len() - 1] == x);
                }
            }
            if x == d {
                assert(it.contains(x));
                let m = choose|m: int| 0 <= m < it.len() && it[m] == x;
                assert(r[m] == x);
            }
            if r.contains(x) {
                let k = choose|k: int| 0 <= k < r.len() && r[k] == x;
                if k < it.len() {
                    assert(it[k] == x && it.contains(x));
                    if t.contains(x) {
                        let m = choose|m: int| 0 <= m < t.len() && t[m] == x;
                        assert(s[m] == x);
                    }
                } else {
                    assert(s[s.len() - 1] == x);
                }
            }
        }
    }
}

/// The durations of the pooled windows are distinct and increasing, and they are exactly
/// the durations that some reported window has.
pub proof fn law_durations_of(ws: Seq<UsageWindow>)
    ensures
        increasing(durations_of(ws)),
        forall|d: i64| #[trigger] durations_of(ws).contains(d) <==> has_duration(ws, d),
    decreases ws.len(),
{
    if ws.len() > 0 {
        let t = ws.drop_last();
        law_durations_of(t);
        lemma_insert_duration(durations_of(t), ws.last().limit_window_seconds);
        assert forall|d: i64| #[trigger] durations_of(ws).contains(d) <==> has_duration(ws, d) by {
            if has_duration(t, d) {
                let k = choose|k: int| 0 <= k < t.len() && #[trigger] t[k].limit_window_seconds == d;
                assert(ws[k].limit_window_seconds == d);
            }
            if d == ws.last().limit_window_seconds {
                assert(ws[ws.len() - 1].limit_window_seconds == d);
            }
            if has_duration(ws, d) {
                let k = choose|k: int| 0 <= k < ws.len() && #[trigger] ws[k].limit_window_seconds == d;
                if k < t.len() {
                    assert(t[k].limit_window_seconds == d);
                }
            }
        }
    }
}

proof fn lemma_first_percent(ws: Seq<UsageWindow>, d: i64)
    ensures
        (first_percent(ws, d) is Some) == has_duration(ws, d),
    decreases ws.len(),
{
    if ws.len() > 0 {
        let t = ws.drop_last();
        lemma_first_percent(t, d);
        if has_duration(t, d) {
            let k = choose|k: int| 0 <= k < t.len() && #[trigger] t[k].limit_window_seconds == d;
            assert(ws[k].limit_window_seconds == d);
        }
        if ws.last().limit_window_seconds == d {
            assert(ws[ws.len() - 1].limit_window_seconds == d);
        }
        if has_duration(ws, d) {
            let k = choose|k: int| 0 <= k < ws.len() && #[trigger] ws[k].limit_window_seconds == d;
            if k < t.len() {
                assert(t[k].limit_window_seconds == d);
            }
        }
    }
}

/// Each account weighs once in a pooled window: the percentages of a duration are as many
/// as the accounts that report a window of that duration, however many such windows each
/// of them has.
pub proof fn law_one_percent_per_account(lists: Seq<Seq<UsageWindow>>, d: i64)
    ensures
        account_percents(lists, d).len() == reporting_accounts_for(lists, d),
    decreases lists.len(),
{
    if lists.len() > 0 {
        law_one_percent_per_account(lists.drop_last(), d);
        lemma_first_percent(lists.last(), d);
    }
}

/// Each pooled group's reset time is the earliest positive reset among the reported windows
/// of its duration (0 when none has one), and it counts one percentage per account that
/// reports the duration.
pub proof fn law_group_resets(groups: Seq<WindowGroup>, lists: Seq<Seq<UsageWindow>>)
    requires
        groups_of(groups, lists),
    ensures
        forall|i: int, k: int|
            0 <= i < groups.len() && 0 <= k < flat_windows(lists).len() && (
            #[trigger] flat_windows(lists)[k]).limit_window_seconds == (#[trigger] groups[i]).limit_window_seconds
                && flat_windows(lists)[k].reset_at > 0 ==> 0 < groups[i].reset_at
                <= flat_windows(lists)[k].reset_at,
        forall|i: int|
            0 <= i < groups.len() && (#[trigger] groups[i]).reset_at != 0 ==> exists|k: int|
                0 <= k < flat_windows(lists).len() && (#[trigger] flat_windows(lists)[k]).limit_window_seconds
                    == groups[i].limit_window_seconds && flat_windows(lists)[k].reset_at
                    == groups[i].reset_at,
        forall|i: int|
            0 <= i < groups.len() ==> (#[trigger] groups[i]).percents@.len() == reporting_accounts_for(
                lists,
                groups[i].limit_window_seconds,
            ),
{
    let ws = flat_windows(lists);
    assert forall|i: int| 0 <= i < groups.len() implies {
        &&& (forall|k: int|
            0 <= k < ws.len() && (#[trigger] ws[k]).limit_window_seconds == groups[i].limit_window_seconds
                && ws[k].reset_at > 0 ==> 0 < groups[i].reset_at <= ws[k].reset_at)
        &&& (groups[i].reset_at != 0 ==> exists|k: int|
            0 <= k < ws.len() && (#[trigger] ws[k]).limit_window_seconds == groups[i].limit_window_seconds
                && ws[k].reset_at == groups[i].reset_at)
        &&& groups[i].percents@.len() == reporting_accounts_for(lists, groups[i].limit_window_seconds)
    } by {
        let d = groups[i].limit_window_seconds;
        law_earliest_reset(ws, d);
        law_one_percent_per_account(lists, d);
        assert forall|k: int|
            0 <= k < ws.len() && (#[trigger] ws[k]).limit_window_seconds == d && ws[k].reset_at > 0
                implies 0 < groups[i].reset_at <= ws[k].reset_at by {
            assert(groups[i].reset_at != 0);
        }
    }
}

/// The windows of one duration, pooled: the duration, one used percentage per account that
/// reports a window of that duration (in account order), and the earliest positive reset
/// time among those windows (0 when none has one).
#[derive(Debug)]
pub struct WindowGroup {
    pub limit_window_seconds: i64,
    pub percents: Vec<Number>,
    pub reset_at: i64,
}

/// Whether `groups` are the pooled groups of the window lists `lists`: one per distinct
/// duration, in increasing order of duration.
pub open spec fn groups_of(groups: Seq<WindowGroup>, lists: Seq<Seq<UsageWindow>>) -> bool {
    let ds = durations_of(flat_windows(lists));
    &&& groups.len() == ds.len()
    &&& forall|i: int|
        0 <= i < groups.len() ==> (#[trigger] groups[i]).limit_window_seconds == ds[i]
            && groups[i].percents@ == account_percents(lists, ds[i]) && groups[i].reset_at
            == earliest_reset_for(flat_windows(lists), ds[i])
}

fn first_percent_of(ws: &Vec<UsageWindow>, d: i64) -> (r: Option<Number>)
    ensures
        r == first_percent(ws@, d),
{
    let mut r: Option<Number> = None;
    let mut k: usize = 0;
    while k < ws.len()
        invariant
            k <= ws@.len(),
            r == first_percent(ws@.take(k as int), d),
        decreases ws@.len() - k,
    {
        assert(ws@.take(k + 1).drop_last() =~= ws@.take(k as int));
        if r.is_none() && ws[k].limit_window_seconds == d {
            r = Some(ws[k].used_percent);
        }
        k += 1;
    }
    assert(ws@.take(k as int) =~= ws@);
    r
}

fn insert_duration_into(durs: &mut Vec<i64>, d: i64)
    ensures
        final(durs)@ == insert_duration(old(durs)@, d),
{
    let ghost before = durs@;
    let mut j: usize = durs.len();
    assert(before.take(j as int) =~= before);
    assert(before.skip(j as int) =~= Seq::<i64>::empty());
    while j > 0 && durs[j - 1] > d
        invariant
            durs@ == before,
            j <= before.len(),
            insert_duration(before, d) == insert_duration(before.take(j as int), d) + before.skip(
                j as int,
            ),
        decreases j,
    {
        assert(before.take(j as int).drop_last() =~= before.take(j - 1));
        assert(insert_duration(before.take(j - 1), d).push(before[j - 1]) + before.skip(j as int)
            =~= insert_duration(before.take(j - 1), d) + before.skip(j - 1));
        j -= 1;
    }
    if j > 0 && durs[j - 1] == d {
        assert(before.take(j as int) + before.skip(j as int) =~= before);
        return;
    }
    durs.insert(j, d);
    assert(durs@ =~= insert_duration(before.take(j as int), d) + before.skip(j as int));
}

/// The windows of `lists` pooled by duration.
fn group_lists(lists: &Vec<Vec<UsageWindow>>, samples: &Vec<UsageWindow>) -> (r: Vec<WindowGroup>)
    requires
        samples@ == flat_windows(Seq::new(lists@.len(), |i: int| lists@[i]@)),
    ensures
        groups_of(r@, Seq::new(lists@.len(), |i: int| lists@[i]@)),
{
    let ghost ls = Seq::new(lists@.len(), |i: int| lists@[i]@);
    let ghost ws = samples@;
    let mut durs: Vec<i64> = Vec::new();
    let mut t: usize = 0;
    while t < samples.len()
        invariant
            ws == samples@,
            t <= ws.len(),
            durs@ == durations_of(ws.take(t as int)),
        decreases ws.len() - t,
    {
        assert(ws.take(t + 1).drop_last() =~= ws.take(t as int));
        insert_duration_into(&mut durs, samples[t].limit_window_seconds);
        t += 1;
    }
    assert(ws.take(t as int) =~= ws);
    let mut groups: Vec<WindowGroup> = Vec::new();
    let mut g: usize = 0;
    while g < durs.len()
        invariant
            ws == samples@,
            ls == Seq::new(lists@.len(), |i: int| lists@[i]@),
            ws == flat_windows(ls),
            durs@ == durations_of(ws),
            g <= durs@.len(),
            groups@.len() == g,
            forall|i: int|
                0 <= i < g ==> (#[trigger] groups@[i]).limit_window_seconds == durs@[i]
                    && groups@[i].percents@ == account_percents(ls, durs@[i])
                    && groups@[i].reset_at == earliest_reset_for(ws, durs@[i]),
        decreases durs@.len() - g,
    {
        let d = durs[g];
        let mut percents: Vec<Number> = Vec::new();
        let mut a: usize = 0;
        while a < lists.len()
            invariant
                ls == Seq::new(lists@.len(), |i: int| lists@[i]@),
                a <= lists@.len(),
                percents@ == account_percents(ls.take(a as int), d),
            decreases lists@.len() - a,
        {
            assert(ls.take(a + 1).drop_last() =~= ls.take(a as int));
            assert(ls.take(a + 1).last() == lists@[a as int]@);
            match first_percent_of(&lists[a], d) {
                Some(p) => percents.push(p),
                None => {},
            }
            a += 1;
        }
        assert(ls.take(a as int) =~= ls);
        let mut reset: i64 = 0;
        let mut t: usize = 0;
        while t < samples.len()
            invariant
                ws == samples@,
                t <= ws.len(),
                reset == earliest_reset_for(ws.take(t as int), d),
            decreases ws.len() - t,
        {
            assert(ws.take(t + 1).drop_last() =~= ws.take(t as int));
            let w = samples[t];
            if w.limit_window_seconds == d && w.reset_at > 0 && (reset == 0 || w.reset_at < reset) {
                reset = w.reset_at;
            }
            t += 1;
        }
        assert(ws.take(t as int) =~= ws);
        groups.push(WindowGroup { limit_window_seconds: d, percents, reset_at: reset });
        g += 1;
    }
    groups
}

/// The windows that the eligible accounts report, pooled by exact duration: one group per
/// duration that some window has, in increasing order of duration, each with one
/// percentage per reporting account. Accounts without an available sample contribute
/// nothing, not a zero.
pub fn group_windows(eligible: &[&Account], states: &Vec<(String, AccountUsageState)>) -> (r: Vec<
    WindowGroup,
>)
    requires
        distinct_ids(states@),
    ensures
        groups_of(r@, window_lists(deref_all(eligible@), states@)),
{
    let ghost es = deref_all(eligible@);
    let mut lists: Vec<Vec<UsageWindow>> = Vec::new();
    let mut samples: Vec<UsageWindow> = Vec::new();
    let mut a: usize = 0;
    while a < eligible.len()
        invariant
            es == deref_all(eligible@),
            a <= eligible@.len(),
            lists@.len() == a,
            Seq::new(lists@.len(), |i: int| lists@[i]@) == window_lists(es.take(a as int), states@),
            samples@ == flat_windows(window_lists(es.take(a as int), states@)),
        decreases eligible@.len() - a,
    {
        assert(es.take(a + 1).drop_last() =~= es.take(a as int));
        assert(es.take(a + 1).last() == *eligible@[a as int]);
        let ghost before = samples@;
        let ghost lists_before = Seq::new(lists@.len(), |i: int| lists@[i]@);
        let ws: Vec<UsageWindow> = match find_state(states, eligible[a].id.as_str()) {
            Some(AccountUsageState::Available { usage }) => sample_windows(usage),
            _ => Vec::new(),
        };
        let ghost aw = account_windows(state_of(states@, es[a as int].id@));
        assert(ws@ == aw);
        let ghost wl = window_lists(es.take(a as int), states@);
        assert(window_lists(es.take(a + 1), states@) == wl.push(aw));
        assert(flat_windows(wl.push(aw)) == flat_windows(wl) + aw) by {
            assert(wl.push(aw).drop_last() =~= wl);
        }
        let mut t: usize = 0;
        while t < ws.len()
            invariant
                t <= ws@.len(),
                samples@ == before + ws@.take(t as int),
            decreases ws@.len() - t,
        {
            samples.push(ws[t]);
            t += 1;
            assert(samples@ =~= before + ws@.take(t as int));
        }
        assert(ws@.take(t as int) =~= ws@);
        lists.push(ws);
        assert(Seq::new(lists@.len(), |i: int| lists@[i]@) =~= lists_before.push(
            account_windows(state_of(states@, es[a as int].id@)),
        ));
        a += 1;
    }
    assert(es.take(a as int) =~= es);
    group_lists(&lists, &samples)
}


/// One pooled window as the usage report gives it.
#[derive(Clone, Copy, Debug, PartialEq, Eq, Structural)]
pub struct PooledWindow {
    pub used_percent: i32,
    pub limit_window_seconds: i32,
    pub reset_after_seconds: i32,
    pub reset_at: i32,
    pub reporting_accounts: usize,
}

/// `x` clamped into 0..=`i32::MAX`.
pub open spec fn clamp_i32(x: int) -> i32 {
    if x < 0 {
        0
    } else if x > i32::MAX {
        i32::MAX
    } else {
        x as i32
    }
}

fn to_i32_clamped(x: i64) -> (r: i32)
    ensures
        r == clamp_i32(x as int),
{
    if x < 0 {
        0
    } else if x > i32::MAX as i64 {
        i32::MAX
    } else {
        x as i32
    }
}

/// The used percentage of a pooled window: the rounded-up mean clamped into 0..=100.
pub open spec fn clamp_percent_ceil(c: i64) -> i32 {
    if c < 0 {
        0
    } else if c > 100 {
        100
    } else {
        c as i32
    }
}

/// The pooled window of the duration `d` reported by `count` accounts with earliest reset
/// `reset`, `ceil` being the rounded-up mean used percentage: the percentage is clamped into
/// 0..=100, the duration and the reset time into the range of `i32`, and the time to the
/// reset is counted from `now_s` (never negative).
pub open spec fn pooled_window_of(d: i64, count: nat, reset: i64, ceil: i64, now_s: i64) -> PooledWindow {
    PooledWindow {
        used_percent: clamp_percent_ceil(ceil),
        limit_window_seconds: clamp_i32(d as int),
        reset_after_seconds: clamp_i32(saturate(reset - now_s) as int),
        reset_at: clamp_i32(reset as int),
        reporting_accounts: count as usize,
    }
}

/// The pooled window of a group (see [`pooled_window_of`]); every account that reports the
/// group's duration counts once.
pub fn pooled_window(group: &WindowGroup, used_percent_ceil: i64, now_seconds: i64) -> (r:
    PooledWindow)
    ensures
        r == pooled_window_of(
            group.limit_window_seconds,
            group.percents@.len(),
            group.reset_at,
            used_percent_ceil,
            now_seconds,
        ),
{
    let used = if used_percent_ceil < 0 {
        0
    } else if used_percent_ceil > 100 {
        100
    } else {
        used_percent_ceil as i32
    };
    PooledWindow {
        used_percent: used,
        limit_window_seconds: to_i32_clamped(group.limit_window_seconds),
        reset_after_seconds: to_i32_clamped(saturating_sub(group.reset_at, now_seconds)),
        reset_at: to_i32_clamped(group.reset_at),
        reporting_accounts: group.percents.len(),
    }
}

/// Whether an account takes part in the pooled usage: a Codex account that is Healthy or
/// Cooling.
pub open spec fn is_eligible(a: Account) -> bool {
    a.backend == BackendId::Codex && (a.status == AccountStatus::Healthy || a.status
        == AccountStatus::Cooling)
}

pub fn eligible(a: &Account) -> (r: bool)
    ensures
        r == is_eligible(*a),
{
    a.backend == BackendId::Codex && (a.status == AccountStatus::Healthy || a.status
        == AccountStatus::Cooling)
}

/// The number of eligible accounts among `accounts`.
pub open spec fn eligible_count(accounts: Seq<Account>) -> nat
    decreases accounts.len(),
{
    if accounts.len() == 0 {
        0
    } else {
        eligible_count(accounts.drop_last()) + if is_eligible(accounts.last()) {
            1nat
        } else {
            0nat
        }
    }
}

/// The available samples of the eligible accounts, account by account.
pub open spec fn available_samples(
    accounts: Seq<Account>,
    states: Seq<(String, AccountUsageState)>,
) -> Seq<AccountUsage>
    decreases accounts.len(),
{
    if accounts.len() == 0 {
        Seq::empty()
    } else {
        let rest = available_samples(accounts.drop_last(), states);
        let a = accounts.last();
        if is_eligible(a) {
            match state_of(states, a.id@) {
                Some(AccountUsageState::Available { usage }) => rest.push(usage),
                _ => rest,
            }
        } else {
            rest
        }
    }
}

/// Whether some sample allows requests and has not reached its limit.
pub open spec fn any_allowed(us: Seq<AccountUsage>) -> bool {
    exists|i: int| 0 <= i < us.len() && #[trigger] us[i].allowed && !us[i].limit_reached
}

/// The time of the oldest sample, if there is one.
pub open spec fn oldest_sample(us: Seq<AccountUsage>) -> Option<i64>
    decreases us.len(),
{
    if us.len() == 0 {
        None
    } else {
        let t = us.last().fetched_at_ms;
        match oldest_sample(us.drop_last()) {
            Some(o) => if t < o {
                Some(t)
            } else {
                Some(o)
            },
            None => Some(t),
        }
    }
}

/// The plan of the pool: the plan that every sample has, when they all have the same one
/// (and there is at least one); `unknown` otherwise.
pub open spec fn pool_plan(us: Seq<AccountUsage>) -> Seq<char> {
    if us.len() > 0 && forall|i: int| 0 <= i < us.len() ==> #[trigger] us[i].plan_type@ == us[0].plan_type@ {
        us[0].plan_type@
    } else {
        "unknown"@
    }
}

/// Whether the eligible account at `k` of `accounts` has an available sample that allows
/// requests and has not reached its limit.
pub open spec fn allows_requests(
    accounts: Seq<Account>,
    states: Seq<(String, AccountUsageState)>,
    k: int,
) -> bool {
    &&& is_eligible(accounts[k])
    &&& match state_of(states, accounts[k].id@) {
        Some(AccountUsageState::Available { usage }) => usage.allowed && !usage.limit_reached,
        _ => false,
    }
}

proof fn lemma_any_allowed(accounts: Seq<Account>, states: Seq<(String, AccountUsageState)>)
    ensures
        any_allowed(available_samples(accounts, states)) == exists|k: int|
            0 <= k < accounts.len() && #[trigger] allows_requests(accounts, states, k),
    decreases accounts.len(),
{
    if accounts.len() > 0 {
        let t = accounts.drop_last();
        lemma_any_allowed(t, states);
        let rest = available_samples(t, states);
        let us = available_samples(accounts, states);
        let n = accounts.len() - 1;
        assert forall|k: int| 0 <= k < t.len() implies #[trigger] allows_requests(t, states, k)
            == allows_requests(accounts, states, k) by {
            assert(t[k] == accounts[k]);
        }
        if any_allowed(us) {
            let i = choose|i: int| 0 <= i < us.len() && #[trigger] us[i].allowed && !us[i].limit_reached;
            if i < rest.len() {
                assert(us[i] == rest[i]);
                assert(any_allowed(rest));
                let k = choose|k: int| 0 <= k < t.len() && #[trigger] allows_requests(t, states, k);
                assert(allows_requests(accounts, states, k));
            } else {
                assert(allows_requests(accounts, states, n));
            }
        }
        if exists|k: int| 0 <= k < accounts.len() && #[trigger] allows_requests(accounts, states, k) {
            let k = choose|k: int| 0 <= k < accounts.len() && #[trigger] allows_requests(accounts, states, k);
            if k < n {
                assert(allows_requests(t, states, k));
                let i = choose|i: int| 0 <= i < rest.len() && #[trigger] rest[i].allowed && !rest[i].limit_reached;
                assert(us[i] == rest[i]);
            } else {
                assert(us[us.len() - 1].allowed && !us[us.len() - 1].limit_reached);
            }
        }
    }
}

/// The pool allows requests exactly when some eligible account (a Codex account that is
/// Healthy or Cooling) has an available sample that allows requests and has not reached its
/// limit, whatever the other accounts report; `limit_reached` is the opposite. So adding
/// such a sample never makes the pool refuse. (With no pooled window there is no
/// `rate_limit` section.)
pub proof fn law_pool_allowed(
    accounts: Seq<Account>,
    states: Seq<(String, AccountUsageState)>,
    windows: Seq<PooledWindow>,
    current_ms: i64,
)
    ensures
        ({
            let report = pooled_report(accounts, states, windows, current_ms);
            let allowed = exists|k: int|
                0 <= k < accounts.len() && #[trigger] allows_requests(accounts, states, k);
            &&& windows.len() > 0 ==> member(report, "rate_limit"@) is Some && member(
                member(report, "rate_limit"@)->0,
                "allowed"@,
            ) == Some(JsonV::Bool(allowed)) && member(
                member(report, "rate_limit"@)->0,
                "limit_reached"@,
            ) == Some(JsonV::Bool(!allowed))
            &&& windows.len() == 0 ==> member(report, "rate_limit"@) == Some(JsonV::Null)
        }),
{
    lemma_any_allowed(accounts, states);
    reveal_strlit("plan_type");
    reveal_strlit("rate_limit");
    reveal_strlit("allowed");
    reveal_strlit("limit_reached");
    let entries = pooled_report(accounts, states, windows, current_ms)->Object_0;
    assert(entries[0].0 != "rate_limit"@) by {
        assert(entries[0].0.len() != "rate_limit"@.len());
    }
    lemma_key_index_at(entries, "rate_limit"@, 1);
    if windows.len() > 0 {
        let rl = rate_limit_view(any_allowed(available_samples(accounts, states)), windows)->Object_0;
        lemma_key_index_at(rl, "allowed"@, 0);
        assert(rl[0].0 != "limit_reached"@) by {
            assert(rl[0].0.len() != "limit_reached"@.len());
        }
        lemma_key_index_at(rl, "limit_reached"@, 1);
    }
}

/// A JSON number for an integer (negative ones as negative integers).
pub open spec fn int_number(x: int) -> JsonV {
    if x < 0 {
        JsonV::Number(Number::NegInt(x as i64))
    } else {
        JsonV::Number(Number::PosInt(x as u64))
    }
}

fn number_json(x: i64) -> (r: Json)
    ensures
        r@ == int_number(x as int),
{
    if x < 0 {
        Json::Number(Number::NegInt(x))
    } else {
        Json::Number(Number::PosInt(x as u64))
    }
}

/// A pooled window in the upstream's own shape.
pub open spec fn native_window(w: PooledWindow) -> JsonV {
    JsonV::Object(
        seq![
            ("used_percent"@, int_number(w.used_percent as int)),
            ("limit_window_seconds"@, int_number(w.limit_window_seconds as int)),
            ("reset_after_seconds"@, int_number(w.reset_after_seconds as int)),
            ("reset_at"@, int_number(w.reset_at as int)),
        ],
    )
}

/// How many accounts report each pooled window.
pub open spec fn coverage_entry(w: PooledWindow) -> JsonV {
    JsonV::Object(
        seq![
            ("limit_window_seconds"@, int_number(w.limit_window_seconds as int)),
            ("reporting_accounts"@, int_number(w.reporting_accounts as int)),
        ],
    )
}

/// The `rate_limit` section of the pooled report: the pooled windows, when there are any,
/// and whether some account still allows requests.
pub open spec fn rate_limit_view(allowed: bool, windows: Seq<PooledWindow>) -> JsonV {
    if windows.len() > 0 {
        JsonV::Object(
            seq![
                ("allowed"@, JsonV::Bool(allowed)),
                ("limit_reached"@, JsonV::Bool(!allowed)),
                ("primary_window"@, native_window(windows[0])),
                (
                    "secondary_window"@,
                    if windows.len() > 1 {
                        native_window(windows[1])
                    } else {
                        JsonV::Null
                    },
                ),
            ],
        )
    } else {
        JsonV::Null
    }
}

/// The `_underclass` section of the pooled report: it is an estimate (the equal-account
/// mean), with the number of eligible and of reporting accounts, whether every eligible
/// account reported, how many accounts report each window, and the age of the oldest sample.
pub open spec fn coverage_view(
    eligible: nat,
    us: Seq<AccountUsage>,
    windows: Seq<PooledWindow>,
    current_ms: i64,
) -> JsonV {
    let oldest = oldest_sample(us);
    JsonV::Object(
        seq![
            ("estimated"@, JsonV::Bool(true)),
            ("aggregation"@, JsonV::Str("equal_account_mean"@)),
            ("eligible_accounts"@, int_number(eligible as int)),
            ("reporting_accounts"@, int_number(us.len() as int)),
            ("coverage_complete"@, JsonV::Bool(us.len() == eligible)),
            ("window_coverage"@, JsonV::Array(windows.map_values(|w: PooledWindow| coverage_entry(w)))),
            (
                "oldest_sample_ms"@,
                match oldest {
                    Some(o) => int_number(o as int),
                    None => JsonV::Null,
                },
            ),
            (
                "stale"@,
                JsonV::Bool(
                    match oldest {
                        Some(o) => saturate(current_ms - o) > REFRESH_INTERVAL_MS * 2,
                        None => true,
                    },
                ),
            ),
        ],
    )
}

/// The pooled usage report, in the upstream's usage shape plus an `_underclass` section
/// that marks it as an estimate and says which accounts it covers.
pub open spec fn pooled_report(
    accounts: Seq<Account>,
    states: Seq<(String, AccountUsageState)>,
    windows: Seq<PooledWindow>,
    current_ms: i64,
) -> JsonV {
    let us = available_samples(accounts, states);
    JsonV::Object(
        seq![
            ("plan_type"@, JsonV::Str(pool_plan(us))),
            ("rate_limit"@, rate_limit_view(any_allowed(us), windows)),
            ("credits"@, JsonV::Null),
            ("_underclass"@, coverage_view(eligible_count(accounts), us, windows, current_ms)),
        ],
    )
}

fn native_window_json(w: &PooledWindow) -> (r: Json)
    ensures
        r@ == native_window(*w),
{
    let mut e: Vec<(String, Json)> = Vec::new();
    e.push((owned("used_percent"), number_json(w.used_percent as i64)));
    e.push((owned("limit_window_seconds"), number_json(w.limit_window_seconds as i64)));
    e.push((owned("reset_after_seconds"), number_json(w.reset_after_seconds as i64)));
    e.push((owned("reset_at"), number_json(w.reset_at as i64)));
    proof {
        lemma_entries_view(e);
        assert(entries_view(e) =~= native_window(*w)->Object_0);
    }
    Json::Object(e)
}

fn count_json(x: usize) -> (r: Json)
    ensures
        r@ == int_number(x as int),
{
    Json::Number(Number::PosInt(x as u64))
}

fn coverage_json(w: &PooledWindow) -> (r: Json)
    ensures
        r@ == coverage_entry(*w),
{
    let mut e: Vec<(String, Json)> = Vec::new();
    e.push((owned("limit_window_seconds"), number_json(w.limit_window_seconds as i64)));
    e.push((owned("reporting_accounts"), count_json(w.reporting_accounts)));
    proof {
        lemma_entries_view(e);
        assert(entries_view(e) =~= coverage_entry(*w)->Object_0);
    }
    Json::Object(e)
}


/// The eligible accounts among `accounts`, in order.
pub open spec fn eligible_of(accounts: Seq<Account>) -> Seq<Account>
    decreases accounts.len(),
{
    if accounts.len() == 0 {
        Seq::empty()
    } else if is_eligible(accounts.last()) {
        eligible_of(accounts.drop_last()).push(accounts.last())
    } else {
        eligible_of(accounts.drop_last())
    }
}

/// The window lists of the eligible accounts among `accounts`.
pub open spec fn pool_lists(accounts: Seq<Account>, states: Seq<(String, AccountUsageState)>) -> Seq<
    Seq<UsageWindow>,
> {
    window_lists(eligible_of(accounts), states)
}

/// The durations of the pooled windows of `accounts`.
pub open spec fn pool_durations(accounts: Seq<Account>, states: Seq<(String, AccountUsageState)>) -> Seq<
    i64,
> {
    durations_of(flat_windows(pool_lists(accounts, states)))
}

/// The pooled windows of the eligible accounts among `accounts`, one per duration in
/// increasing order, `ceils[i]` being the rounded-up mean used percentage of the `i`-th,
/// and `now_s` the time in seconds.
pub open spec fn pooled_windows_of(
    accounts: Seq<Account>,
    states: Seq<(String, AccountUsageState)>,
    ceils: Seq<i64>,
    now_s: i64,
) -> Seq<PooledWindow> {
    let lists = pool_lists(accounts, states);
    let ds = pool_durations(accounts, states);
    Seq::new(
        ds.len(),
        |i: int|
            pooled_window_of(
                ds[i],
                account_percents(lists, ds[i]).len(),
                earliest_reset_for(flat_windows(lists), ds[i]),
                ceils[i],
                now_s,
            ),
    )
}

/// Whether the windows of `s` come in order of duration.
pub open spec fn in_duration_order(s: Seq<PooledWindow>) -> bool {
    forall|i: int, j: int|
        0 <= i < j < s.len() ==> s[i].limit_window_seconds <= s[j].limit_window_seconds
}

/// The pooled windows come in order of duration, so the primary window of the report is
/// the shortest one and the secondary the next; each counts the accounts that report it.
pub proof fn law_pooled_windows_in_order(
    accounts: Seq<Account>,
    states: Seq<(String, AccountUsageState)>,
    ceils: Seq<i64>,
    now_s: i64,
)
    ensures
        in_duration_order(pooled_windows_of(accounts, states, ceils, now_s)),
        forall|i: int|
            0 <= i < pool_durations(accounts, states).len() ==> #[trigger] pooled_windows_of(
                accounts,
                states,
                ceils,
                now_s,
            )[i].reporting_accounts == reporting_accounts_for(
                pool_lists(accounts, states),
                pool_durations(accounts, states)[i],
            ) as usize,
{
    let lists = pool_lists(accounts, states);
    law_durations_of(flat_windows(lists));
    assert forall|i: int|
        0 <= i < pool_durations(accounts, states).len() implies #[trigger] pooled_windows_of(
        accounts,
        states,
        ceils,
        now_s,
    )[i].reporting_accounts == reporting_accounts_for(lists, pool_durations(accounts, states)[i])
        as usize by {
        law_one_percent_per_account(lists, pool_durations(accounts, states)[i]);
    }
}

/// Whether no two entries of `states` are for the same account.
pub open spec fn distinct_ids(states: Seq<(String, AccountUsageState)>) -> bool {
    forall|i: int, j: int| 0 <= i < j < states.len() ==> states[i].0@ != states[j].0@
}

/// The windows of the eligible accounts among `accounts` (Codex accounts that are Healthy
/// or Cooling), pooled by duration; disabled, failed and unsupported accounts take no part.
pub fn pooled_groups(accounts: &[Account], states: &Vec<(String, AccountUsageState)>) -> (r: Vec<
    WindowGroup,
>)
    requires
        distinct_ids(states@),
    ensures
        groups_of(r@, pool_lists(accounts@, states@)),
{
    let mut el: Vec<&Account> = Vec::new();
    let mut i: usize = 0;
    while i < accounts.len()
        invariant
            i <= accounts@.len(),
            deref_all(el@) == eligible_of(accounts@.take(i as int)),
        decreases accounts@.len() - i,
    {
        assert(accounts@.take(i + 1).drop_last() =~= accounts@.take(i as int));
        assert(accounts@.take(i + 1).last() == accounts@[i as int]);
        if eligible(&accounts[i]) {
            let ghost before = el@;
            el.push(&accounts[i]);
            assert(deref_all(el@) =~= deref_all(before).push(accounts@[i as int]));
        }
        i += 1;
    }
    assert(accounts@.take(i as int) =~= accounts@);
    group_windows(el.as_slice(), states)
}

/// The pooled usage report of `accounts` (see [`pooled_report`]) from the usage `states`
/// and the time `current_ms`. The pooled windows are those of the eligible accounts (see
/// [`pooled_groups`]); `used_percent_ceils` gives the rounded-up mean used percentage of
/// each, in the same order.
pub fn pooled_value(
    accounts: &[Account],
    states: &Vec<(String, AccountUsageState)>,
    used_percent_ceils: &Vec<i64>,
    current_ms: i64,
) -> (r: Json)
    requires
        distinct_ids(states@),
        used_percent_ceils@.len() == pool_durations(accounts@, states@).len(),
    ensures
        r@ == pooled_report(
            accounts@,
            states@,
            pooled_windows_of(accounts@, states@, used_percent_ceils@, seconds_of(current_ms) as i64),
            current_ms,
        ),
{
    let groups = pooled_groups(accounts, states);
    let now_s = to_seconds(current_ms);
    let ghost spec_windows = pooled_windows_of(accounts@, states@, used_percent_ceils@, now_s);
    let mut windows: Vec<PooledWindow> = Vec::new();
    let mut g: usize = 0;
    while g < groups.len()
        invariant
            groups_of(groups@, pool_lists(accounts@, states@)),
            used_percent_ceils@.len() == groups@.len(),
            spec_windows == pooled_windows_of(accounts@, states@, used_percent_ceils@, now_s),
            g <= groups@.len(),
            windows@.len() == g,
            forall|k: int| 0 <= k < g ==> #[trigger] windows@[k] == spec_windows[k],
        decreases groups@.len() - g,
    {
        windows.push(pooled_window(&groups[g], used_percent_ceils[g], now_s));
        g += 1;
    }
    assert(windows@ =~= spec_windows);
    let mut n: usize = 0;
    let mut m: usize = 0;
    let mut allowed = false;
    let mut oldest: Option<i64> = None;
    let mut first_plan: Option<String> = None;
    let mut same_plan = true;
    let mut i: usize = 0;
    while i < accounts.len()
        invariant
            i <= accounts@.len(),
            n as nat == eligible_count(accounts@.take(i as int)),
            n <= i,
            m as nat == available_samples(accounts@.take(i as int), states@).len(),
            m <= i,
            allowed == any_allowed(available_samples(accounts@.take(i as int), states@)),
            oldest == oldest_sample(available_samples(accounts@.take(i as int), states@)),
            ({
                let us = available_samples(accounts@.take(i as int), states@);
                &&& (us.len() == 0 <==> first_plan is None)
                &&& first_plan matches Some(p) ==> p@ == us[0].plan_type@
                &&& same_plan == forall|k: int| 0 <= k < us.len() ==> #[trigger] us[k].plan_type@ == us[0].plan_type@
            }),
        decreases accounts@.len() - i,
    {
        let ghost prev = available_samples(accounts@.take(i as int), states@);
        assert(accounts@.take(i + 1).drop_last() =~= accounts@.take(i as int));
        let a = &accounts[i];
        if eligible(a) {
            n += 1;
            if let Some(AccountUsageState::Available { usage }) = find_state(states, a.id.as_str()) {
                let ghost us = prev.push(*usage);
                assert(available_samples(accounts@.take(i + 1), states@) == us);
                m += 1;
                let ok = usage.allowed && !usage.limit_reached;
                let ghost old_allowed = allowed;
                if ok {
                    allowed = true;
                }
                proof {
                    assert(us.drop_last() =~= prev);
                    if ok {
                        assert(us[us.len() - 1].allowed && !us[us.len() - 1].limit_reached);
                    } else {
                        if old_allowed {
                            let k = choose|k: int| 0 <= k < prev.len() && #[trigger] prev[k].allowed && !prev[k].limit_reached;
                            assert(us[k] == prev[k]);
                        }
                        if any_allowed(us) {
                            let k = choose|k: int| 0 <= k < us.len() && #[trigger] us[k].allowed && !us[k].limit_reached;
                            assert(k < prev.len());
                            assert(us[k] == prev[k]);
                        }
                    }
                }
                oldest = match oldest {
                    Some(o) => if usage.fetched_at_ms < o {
                        Some(usage.fetched_at_ms)
                    } else {
                        Some(o)
                    },
                    None => Some(usage.fetched_at_ms),
                };
                match &first_plan {
                    Some(p) => {
                        let same = crate::text::same_text(p.as_str(), usage.plan_type.as_str());
                        let ghost old_same = same_plan;
                        if !same {
                            same_plan = false;
                        }
                        proof {
                            assert(us[0] == prev[0]);
                            if same_plan {
                                assert forall|k: int| 0 <= k < us.len() implies #[trigger] us[k].plan_type@
                                    == us[0].plan_type@ by {
                                    if k < prev.len() {
                                        assert(us[k] == prev[k]);
                                    }
                                }
                            } else if !same {
                                assert(us[us.len() - 1].plan_type@ != us[0].plan_type@);
                            } else {
                                assert(!old_same);
                                let k = choose|k: int|
                                    0 <= k < prev.len() && #[trigger] prev[k].plan_type@
                                        != prev[0].plan_type@;
                                assert(us[k] == prev[k]);
                            }
                        }
                    },
                    None => {
                        first_plan = Some(usage.plan_type.clone());
                    },
                }
            }
        }
        i += 1;
    }
    assert(accounts@.take(i as int) =~= accounts@);
    let ghost us = available_samples(accounts@, states@);
    let plan = match first_plan {
        Some(p) => if same_plan {
            p
        } else {
            owned("unknown")
        },
        None => owned("unknown"),
    };
    let rate_limit = if windows.len() > 0 {
        let mut e: Vec<(String, Json)> = Vec::new();
        e.push((owned("allowed"), Json::Bool(allowed)));
        e.push((owned("limit_reached"), Json::Bool(!allowed)));
        e.push((owned("primary_window"), native_window_json(&windows[0])));
        let secondary = if windows.len() > 1 {
            native_window_json(&windows[1])
        } else {
            Json::Null
        };
        e.push((owned("secondary_window"), secondary));
        proof {
            lemma_entries_view(e);
            assert(entries_view(e) =~= rate_limit_view(allowed, windows@)->Object_0);
        }
        Json::Object(e)
    } else {
        Json::Null
    };
    let mut coverage: Vec<Json> = Vec::new();
    let mut k: usize = 0;
    while k < windows.len()
        invariant
            k <= windows@.len(),
            coverage@.len() == k,
            forall|j: int| 0 <= j < k ==> #[trigger] coverage@[j]@ == coverage_entry(windows@[j]),
        decreases windows@.len() - k,
    {
        coverage.push(coverage_json(&windows[k]));
        k += 1;
    }
    proof {
        lemma_items_view(coverage);
        assert(items_view(coverage) =~= windows@.map_values(|w: PooledWindow| coverage_entry(w)));
    }
    let oldest_json = match oldest {
        Some(o) => number_json(o),
        None => Json::Null,
    };
    let stale = match oldest {
        Some(o) => saturating_sub(current_ms, o) > REFRESH_INTERVAL_MS * 2,
        None => true,
    };
    let mut meta: Vec<(String, Json)> = Vec::new();
    meta.push((owned("estimated"), Json::Bool(true)));
    meta.push((owned("aggregation"), Json::Str(owned("equal_account_mean"))));
    meta.push((owned("eligible_accounts"), count_json(n)));
    meta.push((owned("reporting_accounts"), count_json(m)));
    meta.push((owned("coverage_complete"), Json::Bool(m == n)));
    meta.push((owned("window_coverage"), Json::Array(coverage)));
    meta.push((owned("oldest_sample_ms"), oldest_json));
    meta.push((owned("stale"), Json::Bool(stale)));
    let mut doc: Vec<(String, Json)> = Vec::new();
    doc.push((owned("plan_type"), Json::Str(plan)));
    doc.push((owned("rate_limit"), rate_limit));
    doc.push((owned("credits"), Json::Null));
    proof {
        lemma_entries_view(meta);
        assert(entries_view(meta) =~= coverage_view(eligible_count(accounts@), us, windows@, current_ms)->Object_0);
    }
    doc.push((owned("_underclass"), Json::Object(meta)));
    proof {
        lemma_entries_view(doc);
        let spec_doc = pooled_report(accounts@, states@, windows@, current_ms)->Object_0;
        assert(plan@ == pool_plan(us));
        assert(entries_view(doc) =~= spec_doc);
    }
    Json::Object(doc)
}

} // verus!
