//! Which credential a request for an account uses, and what a token refresh stores.
use vstd::prelude::*;
use crate::json::{Json, JsonV};
use crate::jwt::{account_id_of, residency_of, extract_account_id, extract_residency};
use crate::models::{Account, BackendId};
use crate::text::{owned, join_text, opt_string};

verus! {

broadcast use vstd::string::group_string_axioms;

/// How long before its expiry an access token is refreshed anyway.
pub const PROACTIVE_REFRESH_MARGIN_MS: i64 = 300000;

/// Why no credential could be had for an account.
#[derive(Debug)]
pub enum TokenError {
    MissingToken,
    RefreshFailed(String),
}

impl TokenError {
    /// The error's message.
    pub fn message(&self) -> (r: String)
        ensures
            r@ == match self {
                TokenError::MissingToken => "account has no stored credential"@,
                TokenError::RefreshFailed(m) => "token refresh failed: "@ + m@,
            },
    {
        match self {
            TokenError::MissingToken => owned("account has no stored credential"),
            TokenError::RefreshFailed(m) => join_text("token refresh failed: ", m.as_str()),
        }
    }
}

/// What getting an account's credential comes to.
#[derive(Debug)]
pub enum TokenPlan {
    /// Use this credential as it is.
    Use(String),
    /// Refresh the credential first.
    Refresh,
    /// The account has no credential.
    Missing,
}

/// `i64::saturating_sub` of two times.
pub open spec fn sat_sub(a: i64, b: i64) -> i64 {
    crate::usage::saturate(a - b)
}

/// The credential for a request of `account` at `now_ms`: a Copilot account uses its stored
/// GitHub token (none: missing); a Codex account uses its access token while that is
/// valid for more than the refresh margin, and is refreshed otherwise.
pub fn access_token_plan(account: &Account, now_ms: i64) -> (r: TokenPlan)
    ensures
        match account.backend {
            BackendId::Copilot => match account.refresh_token {
                Some(t) => r matches TokenPlan::Use(s) && s@ == t@,
                None => r is Missing,
            },
            BackendId::Codex => match account.access_token {
                Some(t) => if sat_sub(account.expires_at, PROACTIVE_REFRESH_MARGIN_MS) > now_ms {
                    r matches TokenPlan::Use(s) && s@ == t@
                } else {
                    r is Refresh
                },
                None => r is Refresh,
            },
        },
{
    match account.backend {
        BackendId::Copilot => match &account.refresh_token {
            Some(t) => TokenPlan::Use(t.clone()),
            None => TokenPlan::Missing,
        },
        BackendId::Codex => {
            if let Some(token) = &account.access_token {
                if crate::usage::saturating_sub(account.expires_at, PROACTIVE_REFRESH_MARGIN_MS)
                    > now_ms {
                    return TokenPlan::Use(token.clone());
                }
            }
            TokenPlan::Refresh
        },
    }
}

/// What a forced refresh of the stored account `account` comes to.
#[derive(Debug)]
pub enum RefreshPlan {
    /// The refresh fails with this error.
    Fail(TokenError),
    /// The stored credential is the answer (a Copilot account).
    Ready(String),
    /// Exchange this refresh token for new tokens (a Codex account).
    Exchange(String),
}

/// A forced refresh of an account: an unknown account, or one without a refresh token,
/// has no credential; a Copilot account's GitHub token is the credential; a Codex account
/// exchanges its refresh token.
pub fn refresh_plan(account: Option<&Account>) -> (r: RefreshPlan)
    ensures
        match account {
            None => r matches RefreshPlan::Fail(TokenError::MissingToken),
            Some(a) => match a.refresh_token {
                None => r matches RefreshPlan::Fail(TokenError::MissingToken),
                Some(t) => match a.backend {
                    BackendId::Copilot => r matches RefreshPlan::Ready(s) && s@ == t@,
                    BackendId::Codex => r matches RefreshPlan::Exchange(s) && s@ == t@,
                },
            },
        },
{
    let account = match account {
        Some(a) => a,
        None => return RefreshPlan::Fail(TokenError::MissingToken),
    };
    let refresh_token = match &account.refresh_token {
        Some(t) => t.clone(),
        None => return RefreshPlan::Fail(TokenError::MissingToken),
    };
    match account.backend {
        BackendId::Copilot => RefreshPlan::Ready(refresh_token),
        BackendId::Codex => RefreshPlan::Exchange(refresh_token),
    }
}

/// What a successful token exchange stores for an account.
#[derive(Debug)]
pub struct TokenUpdate {
    pub refresh_token: String,
    pub access_token: String,
    pub expires_at: i64,
    pub account_id: Option<String>,
    pub residency: Option<String>,
}

/// The lifetime in seconds of a new access token: `expires_in`, an hour when not said.
pub open spec fn lifetime_secs(expires_in: Option<u64>) -> int {
    match expires_in {
        Some(e) => e as int,
        None => 3600,
    }
}

/// Whether the expiry time of a token with that lifetime, issued at `now_ms`, fits in
/// milliseconds of an `i64`.
pub open spec fn expiry_fits(expires_in: Option<u64>, now_ms: i64) -> bool {
    &&& lifetime_secs(expires_in) * 1000 <= i64::MAX
    &&& i64::MIN <= now_ms + lifetime_secs(expires_in) * 1000 <= i64::MAX
}

/// Whether `u` is what an exchange at `now_ms` stores for `account` when it returned
/// `access_token`, `refresh_token` and `expires_in`, `claims` being the claims of the new
/// access token when they could be read.
pub open spec fn describes_update(
    u: TokenUpdate,
    account: Account,
    access_token: Seq<char>,
    refresh_token: Seq<char>,
    expires_in: Option<u64>,
    claims: Option<JsonV>,
    now_ms: i64,
) -> bool {
    &&& u.access_token@ == access_token
    &&& u.refresh_token@ == refresh_token
    &&& u.expires_at == now_ms + lifetime_secs(expires_in) * 1000
    &&& opt_string(u.account_id) == match claims {
        Some(c) => match account_id_of(c) {
            Some(id) => Some(id),
            None => opt_string(account.account_id),
        },
        None => opt_string(account.account_id),
    }
    &&& opt_string(u.residency) == match claims {
        Some(c) => residency_of(c),
        None => None,
    }
}

pub open spec fn claims_view(claims: Option<&Json>) -> Option<JsonV> {
    match claims {
        Some(c) => Some(c@),
        None => None,
    }
}

/// The stored tokens after an exchange at `now_ms` that returned `access_token`,
/// `refresh_token` and `expires_in` seconds (an hour when not said); `claims` are the
/// claims of the new access token, when they could be read. The ChatGPT account id comes
/// from the claims, else stays what was stored; the residency comes from the claims.
pub fn token_update(
    account: &Account,
    access_token: String,
    refresh_token: String,
    expires_in: Option<u64>,
    claims: Option<&Json>,
    now_ms: i64,
) -> (r: TokenUpdate)
    requires
        expiry_fits(expires_in, now_ms),
    ensures
        describes_update(
            r,
            *account,
            access_token@,
            refresh_token@,
            expires_in,
            claims_view(claims),
            now_ms,
        ),
{
    let from_claims = match claims {
        Some(c) => extract_account_id(c),
        None => None,
    };
    let account_id = match from_claims {
        Some(id) => Some(id),
        None => match &account.account_id {
            Some(id) => Some(id.clone()),
            None => None,
        },
    };
    let residency = match claims {
        Some(c) => extract_residency(c),
        None => None,
    };
    let secs: u64 = match expires_in {
        Some(e) => e,
        None => 3600,
    };
    let secs_i: i64 = secs as i64;
    assert(secs_i as int == secs as int);
    let expires_at = now_ms + secs_i * 1000;
    TokenUpdate { refresh_token, access_token, expires_at, account_id, residency }
}

/// The tokens that a successful exchange of a refresh token returned.
#[derive(Debug)]
pub struct ExchangedTokens {
    pub access_token: String,
    pub refresh_token: String,
    pub expires_in: Option<u64>,
}

/// What a forced refresh of a Codex account comes to once the exchange answered: a failed
/// exchange, with its message, is a refresh failure; a successful one is the update to
/// store (see [`token_update`]).
pub fn exchange_outcome(
    account: &Account,
    exchanged: Result<ExchangedTokens, String>,
    claims: Option<&Json>,
    now_ms: i64,
) -> (r: Result<TokenUpdate, TokenError>)
    requires
        exchanged matches Ok(t) ==> expiry_fits(t.expires_in, now_ms),
    ensures
        match exchanged {
            Err(m) => r matches Err(TokenError::RefreshFailed(e)) && e@ == m@,
            Ok(t) => r matches Ok(u) && describes_update(
                u,
                *account,
                t.access_token@,
                t.refresh_token@,
                t.expires_in,
                claims_view(claims),
                now_ms,
            ),
        },
{
    match exchanged {
        Err(m) => Err(TokenError::RefreshFailed(m)),
        Ok(t) => Ok(token_update(account, t.access_token, t.refresh_token, t.expires_in, claims, now_ms)),
    }
}

} // verus!
