use underclass::json::{member_of, Json, Number};
use underclass::models::{Account, AccountStatus, BackendId};
use underclass::usage::{
    after_refresh, after_response, after_token, authoritative_reset_ms, cooling_deadline,
    cooling_update,
    exhausted_reset_ms, group_windows, parse_usage, parse_window, pooled_groups, pooled_value,
    pooled_window, set_state,
    refresh_due, saturating_mul, timed_out_state, saturating_sub, to_seconds, unavailable_reason,
    usage_state_from_body, AccountUsage, AccountUsageState, FetchStep, PooledWindow, UsageWindow,
    WindowGroup,
};

fn account(id: &str, status: AccountStatus) -> Account {
    Account {
        id: id.into(),
        backend: BackendId::Codex,
        label: id.into(),
        refresh_token: None,
        access_token: None,
        expires_at: 0,
        account_id: None,
        residency: None,
        enterprise_url: None,
        status,
        reset_at: 0,
        created_at: 0,
        updated_at: 0,
    }
}

fn pct(p: f64) -> Number {
    Number::Float(p.to_bits())
}

fn window(percent: f64, seconds: i64, reset_at: i64) -> UsageWindow {
    UsageWindow {
        used_percent: pct(percent),
        limit_window_seconds: seconds,
        reset_after_seconds: 30,
        reset_at,
    }
}

fn sample(percent: f64, seconds: i64) -> AccountUsage {
    AccountUsage {
        plan_type: "pro".into(),
        allowed: true,
        limit_reached: false,
        primary_window: Some(window(percent, seconds, 2_000_000_000)),
        secondary_window: None,
        fetched_at_ms: 0,
    }
}

fn usage(percent: f64, seconds: i64) -> AccountUsageState {
    AccountUsageState::Available { usage: sample(percent, seconds) }
}

fn as_f64(n: &Number) -> f64 {
    match n {
        Number::PosInt(u) => *u as f64,
        Number::NegInt(i) => *i as f64,
        Number::Float(b) => f64::from_bits(*b),
    }
}

/// The pooled windows as the server computes them: the equal-account mean of each group,
/// rounded up.
fn aggregate_windows(
    eligible: &[&Account],
    states: &Vec<(String, AccountUsageState)>,
    now_seconds: i64,
) -> Vec<PooledWindow> {
    group_windows(eligible, states)
        .iter()
        .map(|g: &WindowGroup| {
            let used = g.percents.iter().map(as_f64).sum::<f64>() / g.percents.len() as f64;
            pooled_window(g, used.ceil() as i64, now_seconds)
        })
        .collect()
}

/// The pooled usage report, with the rounded-up means computed as the server does.
fn report(accounts: &[Account], states: &Vec<(String, AccountUsageState)>, current_ms: i64) -> Json {
    let ceils: Vec<i64> = pooled_groups(accounts, states)
        .iter()
        .map(|g| (g.percents.iter().map(as_f64).sum::<f64>() / g.percents.len() as f64).ceil() as i64)
        .collect();
    pooled_value(accounts, states, &ceils, current_ms)
}

fn obj(members: Vec<(&str, Json)>) -> Json {
    Json::Object(members.into_iter().map(|(k, v)| (k.to_string(), v)).collect())
}

fn num(i: u64) -> Json {
    Json::Number(Number::PosInt(i))
}

#[test]
fn missing_usage_is_not_counted_as_free() {
    let a = account("a", AccountStatus::Healthy);
    let b = account("b", AccountStatus::Healthy);
    let states = vec![
        (a.id.clone(), usage(80.0, 3600)),
        (
            b.id.clone(),
            AccountUsageState::Unavailable { reason: "upstream_unavailable".into(), checked_at_ms: 0 },
        ),
    ];
    let p = aggregate_windows(&[&a, &b], &states, 0).remove(0);
    assert_eq!(p.used_percent, 80);
    assert_eq!(p.reporting_accounts, 1);
}

#[test]
fn durations_are_never_mixed() {
    let a = account("a", AccountStatus::Healthy);
    let b = account("b", AccountStatus::Healthy);
    let states = vec![(a.id.clone(), usage(20.0, 18000)), (b.id.clone(), usage(90.0, 604800))];
    let pooled = aggregate_windows(&[&a, &b], &states, 0);
    assert_eq!(pooled.len(), 2);
    assert!(pooled.iter().all(|window| window.reporting_accounts == 1));
}

#[test]
fn matching_durations_combine_across_window_positions() {
    let a = account("a", AccountStatus::Healthy);
    let b = account("b", AccountStatus::Healthy);
    let mut second = sample(60.0, 604800);
    second.secondary_window = second.primary_window.take();
    let states = vec![
        (a.id.clone(), usage(20.0, 604800)),
        (b.id.clone(), AccountUsageState::Available { usage: second }),
    ];
    let pooled = aggregate_windows(&[&a, &b], &states, 0);
    assert_eq!(pooled.len(), 1);
    assert_eq!(pooled[0].used_percent, 40);
    assert_eq!(pooled[0].reporting_accounts, 2);
}

#[test]
fn parses_native_usage_shape() {
    let reply = obj(vec![
        ("plan_type", Json::Str("pro".into())),
        (
            "rate_limit",
            obj(vec![
                (
                    "primary_window",
                    obj(vec![
                        ("used_percent", Json::Number(pct(34.5))),
                        ("limit_window_seconds", num(18000)),
                        ("reset_after_seconds", num(12)),
                        ("reset_at", num(2_000_000_000)),
                    ]),
                ),
                ("secondary_window", Json::Null),
            ]),
        ),
    ]);
    let parsed = parse_usage(&reply, 0).unwrap();
    assert_eq!(parsed.plan_type, "pro");
    assert_eq!(parsed.primary_window.unwrap().used_percent, pct(34.5));
}

#[test]
fn fresh_exhaustion_replaces_fallback_and_blocks_routing_until_reset() {
    let current_ms = 1_700_000_000_123;
    let reset_ms = current_ms + 60_000;
    let sample = AccountUsage {
        plan_type: "pro".into(),
        allowed: false,
        limit_reached: true,
        primary_window: Some(UsageWindow {
            used_percent: pct(100.0),
            limit_window_seconds: 18_000,
            reset_after_seconds: 60,
            reset_at: reset_ms / 1000,
        }),
        secondary_window: None,
        fetched_at_ms: current_ms,
    };
    assert_eq!(cooling_deadline(AccountStatus::Cooling, &sample, current_ms), Some(reset_ms / 1000 * 1000));
    assert_eq!(cooling_deadline(AccountStatus::Healthy, &sample, current_ms), Some(reset_ms / 1000 * 1000));
    assert_eq!(cooling_deadline(AccountStatus::Disabled, &sample, current_ms), None);
}

#[test]
fn unknown_reset_never_changes_health() {
    let sample = AccountUsage {
        plan_type: "pro".into(),
        allowed: false,
        limit_reached: true,
        primary_window: Some(UsageWindow {
            used_percent: pct(99.0),
            limit_window_seconds: 18_000,
            reset_after_seconds: 0,
            reset_at: 0,
        }),
        secondary_window: None,
        fetched_at_ms: 1_700_000_000_000,
    };
    assert_eq!(cooling_deadline(AccountStatus::Healthy, &sample, 1_700_000_000_000), None);
}

#[test]
fn multiple_exhausted_windows_use_latest_reset() {
    let current_ms = 1_700_000_000_456;
    let usage = AccountUsage {
        plan_type: "pro".into(),
        allowed: false,
        limit_reached: true,
        primary_window: Some(UsageWindow {
            used_percent: pct(100.0),
            limit_window_seconds: 18_000,
            reset_after_seconds: 60,
            reset_at: current_ms / 1000 + 60,
        }),
        secondary_window: Some(UsageWindow {
            used_percent: pct(100.0),
            limit_window_seconds: 604_800,
            reset_after_seconds: 120,
            reset_at: current_ms / 1000 + 120,
        }),
        fetched_at_ms: current_ms,
    };
    assert_eq!(exhausted_reset_ms(&usage, current_ms), Some((current_ms / 1000 + 120) * 1000));
}

#[test]
fn exhaustion_needs_a_full_window_or_a_reached_limit() {
    let mut u = sample(99.5, 18_000);
    assert_eq!(exhausted_reset_ms(&u, 0), None);
    u.limit_reached = true;
    assert_eq!(exhausted_reset_ms(&u, 0), Some(2_000_000_000_000));
    assert_eq!(exhausted_reset_ms(&u, 2_000_000_000_000), None);
    let mut v = sample(100.0, 18_000);
    v.secondary_window = Some(window(10.0, 604_800, 3_000_000_000));
    assert_eq!(exhausted_reset_ms(&v, 0), Some(2_000_000_000_000));
    v.primary_window = Some(window(100.0, 18_000, 0));
    assert_eq!(exhausted_reset_ms(&v, 0), None);
}

#[test]
fn window_percent_is_clamped_and_reset_after_derived() {
    let w = obj(vec![
        ("used_percent", num(250)),
        ("limit_window_seconds", num(3600)),
        ("reset_at", num(1_000)),
    ]);
    let parsed = parse_window(Some(&w), 400_000).unwrap();
    assert_eq!(parsed.used_percent, Number::PosInt(100));
    assert_eq!(parsed.reset_after_seconds, 600);
    let w = obj(vec![
        ("used_percent", Json::Number(pct(-3.0))),
        ("limit_window_seconds", num(3600)),
        ("reset_after_seconds", Json::Number(Number::NegInt(-5))),
        ("reset_at", num(1_000)),
    ]);
    let parsed = parse_window(Some(&w), 0).unwrap();
    assert_eq!(parsed.used_percent, pct(0.0));
    assert_eq!(parsed.reset_after_seconds, 0);
    let w = obj(vec![("used_percent", Json::Number(pct(101.5))), ("limit_window_seconds", num(1)), ("reset_at", num(0))]);
    assert_eq!(parse_window(Some(&w), 0).unwrap().used_percent, pct(100.0));
    let missing = obj(vec![("used_percent", num(1)), ("limit_window_seconds", num(3600))]);
    assert!(parse_window(Some(&missing), 0).is_none());
    assert!(parse_window(None, 0).is_none());
}

#[test]
fn usage_without_windows_is_not_a_sample() {
    let reply = obj(vec![("rate_limit", obj(vec![("allowed", Json::Bool(true))]))]);
    assert!(parse_usage(&reply, 0).is_none());
    assert!(parse_usage(&obj(vec![]), 0).is_none());
    let reply = obj(vec![(
        "rate_limit",
        obj(vec![
            ("allowed", Json::Bool(true)),
            (
                "secondary_window",
                obj(vec![("used_percent", num(5)), ("limit_window_seconds", num(7)), ("reset_at", num(9))]),
            ),
        ]),
    )]);
    let parsed = parse_usage(&reply, 5).unwrap();
    assert_eq!(parsed.plan_type, "unknown");
    assert!(parsed.allowed);
    assert!(!parsed.limit_reached);
    assert!(parsed.primary_window.is_none());
    assert_eq!(parsed.fetched_at_ms, 5);
}

#[test]
fn authoritative_reset_needs_a_fresh_sample() {
    let mut u = sample(100.0, 18_000);
    u.fetched_at_ms = 1_000_000;
    let states = vec![("a".to_string(), AccountUsageState::Available { usage: u })];
    assert_eq!(authoritative_reset_ms(&states, "a", 1_000_000 + 120_000), Some(2_000_000_000_000));
    assert_eq!(authoritative_reset_ms(&states, "a", 1_000_000 + 120_001), None);
    assert_eq!(authoritative_reset_ms(&states, "b", 1_000_000), None);
}

#[test]
fn refresh_and_fetch_decisions() {
    assert!(!refresh_due(0, 59_999));
    assert!(refresh_due(0, 60_000));
    assert!(refresh_due(i64::MIN, i64::MAX));
    let mut a = account("a", AccountStatus::Healthy);
    assert_eq!(unavailable_reason(&a), None);
    a.status = AccountStatus::Disabled;
    assert_eq!(unavailable_reason(&a).as_deref(), Some("disabled"));
    a.status = AccountStatus::AuthError;
    assert_eq!(unavailable_reason(&a).as_deref(), Some("authentication_failed"));
    a.backend = BackendId::Copilot;
    assert_eq!(unavailable_reason(&a).as_deref(), Some("unsupported_backend"));
    assert!(matches!(after_token(Some("t".into())), FetchStep::Request(t) if t == "t"));
    assert!(matches!(after_token(None), FetchStep::Unavailable(m) if m == "authentication_failed"));
    assert!(matches!(after_response(Some(401), false), FetchStep::RefreshAndRetry));
    assert!(matches!(after_response(Some(401), true), FetchStep::Unavailable(m) if m == "upstream_unavailable"));
    assert!(matches!(after_response(Some(204), true), FetchStep::ReadBody));
    assert!(matches!(after_response(Some(500), false), FetchStep::Unavailable(_)));
    assert!(matches!(after_response(None, false), FetchStep::Unavailable(_)));
    assert!(matches!(after_refresh(None), FetchStep::Unavailable(m) if m == "upstream_unavailable"));
    assert!(matches!(after_refresh(Some("n".into())), FetchStep::Request(t) if t == "n"));
    assert!(matches!(
        usage_state_from_body(None, 9),
        AccountUsageState::Unavailable { reason, checked_at_ms: 9 } if reason == "upstream_unavailable"
    ));
    assert!(matches!(usage_state_from_body(Some(&obj(vec![])), 9), AccountUsageState::Unavailable { .. }));
    assert!(matches!(
        timed_out_state(4),
        AccountUsageState::Unavailable { reason, checked_at_ms: 4 } if reason == "refresh_timeout"
    ));
}

#[test]
fn saturating_arithmetic() {
    assert_eq!(saturating_sub(i64::MIN, 1), i64::MIN);
    assert_eq!(saturating_sub(i64::MAX, -1), i64::MAX);
    assert_eq!(saturating_sub(5, 7), -2);
    assert_eq!(saturating_mul(i64::MAX / 2, 3), i64::MAX);
    assert_eq!(saturating_mul(i64::MIN / 2, 3), i64::MIN);
    assert_eq!(saturating_mul(-4, 1000), -4000);
    assert_eq!(to_seconds(-1999), -1);
    assert_eq!(to_seconds(1999), 1);
}

#[test]
fn pooled_window_clamps_into_i32() {
    let g = WindowGroup { limit_window_seconds: i64::MAX, percents: vec![pct(1.0), pct(2.0)], reset_at: 5_000_000_000 };
    let w = pooled_window(&g, 150, 10);
    assert_eq!(w.used_percent, 100);
    assert_eq!(w.limit_window_seconds, i32::MAX);
    assert_eq!(w.reset_at, i32::MAX);
    assert_eq!(w.reset_after_seconds, i32::MAX);
    assert_eq!(w.reporting_accounts, 2);
    let g = WindowGroup { limit_window_seconds: -1, percents: vec![], reset_at: 0 };
    let w = pooled_window(&g, -3, 10);
    assert_eq!((w.used_percent, w.limit_window_seconds, w.reset_at, w.reset_after_seconds), (0, 0, 0, 0));
}

#[test]
fn pooled_report_covers_eligible_accounts() {
    let a = account("a", AccountStatus::Healthy);
    let b = account("b", AccountStatus::Cooling);
    let mut c = account("c", AccountStatus::Disabled);
    c.backend = BackendId::Codex;
    let mut other = sample(50.0, 3600);
    other.plan_type = "plus".into();
    other.fetched_at_ms = 500;
    other.allowed = false;
    let states = vec![
        ("a".to_string(), usage(10.0, 604800)),
        ("b".to_string(), AccountUsageState::Available { usage: other }),
        ("c".to_string(), usage(90.0, 3600)),
    ];
    let accounts = vec![a, b, c];
    let report = report(&accounts, &states, 1_000);
    let meta = member_of(&report, "_underclass").unwrap();
    assert_eq!(member_of(&report, "plan_type"), Some(&Json::Str("unknown".into())));
    assert_eq!(member_of(meta, "eligible_accounts"), Some(&num(2)));
    assert_eq!(member_of(meta, "reporting_accounts"), Some(&num(2)));
    assert_eq!(member_of(meta, "coverage_complete"), Some(&Json::Bool(true)));
    assert_eq!(member_of(meta, "oldest_sample_ms"), Some(&num(0)));
    assert_eq!(member_of(meta, "stale"), Some(&Json::Bool(false)));
    assert_eq!(member_of(meta, "estimated"), Some(&Json::Bool(true)));
    let rate = member_of(&report, "rate_limit").unwrap();
    assert_eq!(member_of(rate, "allowed"), Some(&Json::Bool(true)));
    let primary = member_of(rate, "primary_window").unwrap();
    assert_eq!(member_of(primary, "limit_window_seconds"), Some(&num(3600)));
    assert_eq!(member_of(primary, "used_percent"), Some(&num(50)));
    let secondary = member_of(rate, "secondary_window").unwrap();
    assert_eq!(member_of(secondary, "limit_window_seconds"), Some(&num(604800)));
}

#[test]
fn pooled_report_sorts_windows_and_marks_missing_samples_stale() {
    let accounts = vec![
        account("a", AccountStatus::Healthy),
        account("b", AccountStatus::Healthy),
        account("c", AccountStatus::Healthy),
    ];
    let states = vec![
        ("a".to_string(), usage(1.0, 30)),
        ("b".to_string(), usage(1.0, 10)),
        ("c".to_string(), usage(1.0, 20)),
    ];
    let r = report(&accounts, &states, 0);
    let rate = member_of(&r, "rate_limit").unwrap();
    let primary = member_of(rate, "primary_window").unwrap();
    assert_eq!(member_of(primary, "limit_window_seconds"), Some(&num(10)));
    let secondary = member_of(rate, "secondary_window").unwrap();
    assert_eq!(member_of(secondary, "limit_window_seconds"), Some(&num(20)));
    let coverage = member_of(member_of(&r, "_underclass").unwrap(), "window_coverage").unwrap();
    assert!(matches!(coverage, Json::Array(items) if items.len() == 3));
    let empty = report(&[], &vec![], 0);
    assert_eq!(member_of(&empty, "rate_limit"), Some(&Json::Null));
    assert_eq!(member_of(&empty, "credits"), Some(&Json::Null));
    let meta = member_of(&empty, "_underclass").unwrap();
    assert_eq!(member_of(meta, "stale"), Some(&Json::Bool(true)));
    assert_eq!(member_of(meta, "oldest_sample_ms"), Some(&Json::Null));
}

#[test]
fn an_account_with_two_windows_of_one_duration_counts_once() {
    let a = account("a", AccountStatus::Healthy);
    let mut both = sample(20.0, 604800);
    both.secondary_window = Some(window(60.0, 604800, 1_000));
    let states = vec![(a.id.clone(), AccountUsageState::Available { usage: both })];
    let groups = group_windows(&[&a], &states);
    assert_eq!(groups.len(), 1);
    assert_eq!(groups[0].percents, vec![pct(20.0)]);
    assert_eq!(groups[0].reset_at, 1_000);
    let pooled = aggregate_windows(&[&a], &states, 0);
    assert_eq!(pooled.len(), 1);
    assert_eq!(pooled[0].reporting_accounts, 1);
    assert_eq!(pooled[0].used_percent, 20);
}

#[test]
fn pooled_report_leaves_out_ineligible_accounts() {
    let accounts = vec![account("a", AccountStatus::Healthy), account("b", AccountStatus::Disabled)];
    let states = vec![("a".to_string(), usage(20.0, 18000)), ("b".to_string(), usage(60.0, 18000))];
    let r = report(&accounts, &states, 0);
    let meta = member_of(&r, "_underclass").unwrap();
    assert_eq!(member_of(meta, "eligible_accounts"), Some(&num(1)));
    assert_eq!(member_of(meta, "reporting_accounts"), Some(&num(1)));
    assert_eq!(member_of(meta, "coverage_complete"), Some(&Json::Bool(true)));
    assert_eq!(member_of(&r, "plan_type"), Some(&Json::Str("pro".into())));
    let rate = member_of(&r, "rate_limit").unwrap();
    let primary = member_of(rate, "primary_window").unwrap();
    assert_eq!(member_of(primary, "used_percent"), Some(&num(20)));
    let coverage = member_of(meta, "window_coverage").unwrap();
    assert_eq!(
        coverage,
        &Json::Array(vec![obj(vec![("limit_window_seconds", num(18000)), ("reporting_accounts", num(1))])])
    );
    let mut copilot = account("c", AccountStatus::Healthy);
    copilot.backend = BackendId::Copilot;
    let accounts = vec![account("a", AccountStatus::Healthy), copilot];
    let states = vec![("a".to_string(), usage(20.0, 18000)), ("c".to_string(), usage(90.0, 3600))];
    let r = report(&accounts, &states, 0);
    let rate = member_of(&r, "rate_limit").unwrap();
    assert_eq!(member_of(rate, "secondary_window"), Some(&Json::Null));
}

#[test]
fn recorded_states_stay_one_per_account() {
    let mut states = Vec::new();
    set_state(&mut states, "a".to_string(), AccountUsageState::Pending);
    set_state(&mut states, "b".to_string(), usage(5.0, 60));
    set_state(&mut states, "a".to_string(), usage(7.0, 60));
    assert_eq!(states.len(), 2);
    assert!(states.iter().any(|(id, s)| id == "a" && matches!(s, AccountUsageState::Available { .. })));
    assert!(states.iter().any(|(id, s)| id == "b" && matches!(s, AccountUsageState::Available { .. })));
}

#[test]
fn only_available_samples_cool_accounts() {
    let mut exhausted = sample(100.0, 18_000);
    exhausted.fetched_at_ms = 1;
    let state = AccountUsageState::Available { usage: exhausted };
    assert_eq!(cooling_update(&state, Some(AccountStatus::Healthy), 0), Some(2_000_000_000_000));
    assert_eq!(cooling_update(&state, Some(AccountStatus::AuthError), 0), None);
    assert_eq!(cooling_update(&state, None, 0), None);
    let failed = AccountUsageState::Unavailable { reason: "upstream_unavailable".into(), checked_at_ms: 0 };
    assert_eq!(cooling_update(&failed, Some(AccountStatus::Cooling), 0), None);
    assert_eq!(cooling_update(&AccountUsageState::Pending, Some(AccountStatus::Healthy), 0), None);
}
