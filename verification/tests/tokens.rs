use underclass::json::Json;
use underclass::models::{Account, AccountStatus, BackendId};
use underclass::tokens::{
    access_token_plan, exchange_outcome, refresh_plan, token_update, ExchangedTokens, RefreshPlan,
    TokenError, TokenPlan,
    PROACTIVE_REFRESH_MARGIN_MS,
};

fn account(backend: BackendId, access: Option<&str>, refresh: Option<&str>, expires_at: i64) -> Account {
    Account {
        id: "a".into(),
        backend,
        label: "l".into(),
        refresh_token: refresh.map(str::to_string),
        access_token: access.map(str::to_string),
        expires_at,
        account_id: Some("stored".into()),
        residency: None,
        enterprise_url: None,
        status: AccountStatus::Healthy,
        reset_at: 0,
        created_at: 0,
        updated_at: 0,
    }
}

fn obj(members: Vec<(&str, Json)>) -> Json {
    Json::Object(members.into_iter().map(|(k, v)| (k.to_string(), v)).collect())
}

#[test]
fn error_messages() {
    assert_eq!(TokenError::MissingToken.message(), "account has no stored credential");
    assert_eq!(TokenError::RefreshFailed("boom".into()).message(), "token refresh failed: boom");
}

#[test]
fn access_token_uses_valid_tokens_and_refreshes_near_expiry() {
    assert_eq!(PROACTIVE_REFRESH_MARGIN_MS, 300_000);
    let now = 1_000_000;
    let fresh = account(BackendId::Codex, Some("at"), Some("rt"), now + 300_001);
    assert!(matches!(access_token_plan(&fresh, now), TokenPlan::Use(t) if t == "at"));
    let near = account(BackendId::Codex, Some("at"), Some("rt"), now + 300_000);
    assert!(matches!(access_token_plan(&near, now), TokenPlan::Refresh));
    let none = account(BackendId::Codex, None, Some("rt"), i64::MAX);
    assert!(matches!(access_token_plan(&none, now), TokenPlan::Refresh));
    let old = account(BackendId::Codex, Some("at"), None, i64::MIN);
    assert!(matches!(access_token_plan(&old, i64::MIN), TokenPlan::Refresh));
    let gh = account(BackendId::Copilot, Some("ignored"), Some("gh"), 0);
    assert!(matches!(access_token_plan(&gh, now), TokenPlan::Use(t) if t == "gh"));
    let gh = account(BackendId::Copilot, Some("ignored"), None, i64::MAX);
    assert!(matches!(access_token_plan(&gh, now), TokenPlan::Missing));
}

#[test]
fn forced_refresh_plans() {
    assert!(matches!(refresh_plan(None), RefreshPlan::Fail(TokenError::MissingToken)));
    let a = account(BackendId::Codex, None, None, 0);
    assert!(matches!(refresh_plan(Some(&a)), RefreshPlan::Fail(TokenError::MissingToken)));
    let a = account(BackendId::Codex, None, Some("rt"), 0);
    assert!(matches!(refresh_plan(Some(&a)), RefreshPlan::Exchange(t) if t == "rt"));
    let a = account(BackendId::Copilot, None, Some("gh"), 0);
    assert!(matches!(refresh_plan(Some(&a)), RefreshPlan::Ready(t) if t == "gh"));
}

#[test]
fn token_update_reads_claims_and_expiry() {
    let a = account(BackendId::Codex, None, Some("rt"), 0);
    let claims = obj(vec![
        ("chatgpt_account_id", Json::Str("acc-9".into())),
        ("chatgpt_compute_residency", Json::Str("eu".into())),
    ]);
    let u = token_update(&a, "new-at".into(), "new-rt".into(), Some(120), Some(&claims), 1_000);
    assert_eq!(u.access_token, "new-at");
    assert_eq!(u.refresh_token, "new-rt");
    assert_eq!(u.expires_at, 121_000);
    assert_eq!(u.account_id.as_deref(), Some("acc-9"));
    assert_eq!(u.residency.as_deref(), Some("eu"));
    let u = token_update(&a, "x".into(), "y".into(), None, None, 0);
    assert_eq!(u.expires_at, 3_600_000);
    assert_eq!(u.account_id.as_deref(), Some("stored"));
    assert_eq!(u.residency, None);
    let u = token_update(&a, "x".into(), "y".into(), None, Some(&obj(vec![])), 0);
    assert_eq!(u.account_id.as_deref(), Some("stored"));
}

#[test]
fn failed_exchanges_are_refresh_failures() {
    let a = account(BackendId::Codex, None, Some("rt"), 0);
    match exchange_outcome(&a, Err("invalid_grant".into()), None, 0) {
        Err(TokenError::RefreshFailed(m)) => assert_eq!(m, "invalid_grant"),
        other => panic!("unexpected {other:?}"),
    }
    let ok = ExchangedTokens { access_token: "at".into(), refresh_token: "rt2".into(), expires_in: Some(60) };
    let u = exchange_outcome(&a, Ok(ok), None, 10).unwrap();
    assert_eq!((u.access_token.as_str(), u.refresh_token.as_str(), u.expires_at), ("at", "rt2", 60_010));
    assert_eq!(u.account_id.as_deref(), Some("stored"));
}
