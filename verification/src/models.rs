//! Accounts of the pool and the models that the pool offers.
use vstd::prelude::*;

verus! {

/// A model that a backend serves: its identifier and its display name.
#[derive(Debug)]
pub struct ModelInfo {
    pub id: String,
    pub name: String,
}

/// The subscription service behind an account.
#[derive(Clone, Copy, Debug, PartialEq, Eq, Structural)]
pub enum BackendId {
    Codex,
    Copilot,
}

/// The health of an account in the pool.
#[derive(Clone, Copy, Debug, PartialEq, Eq, Structural)]
pub enum AccountStatus {
    Healthy,
    Cooling,
    Disabled,
    AuthError,
}

/// An account of the pool with its stored credentials.
#[derive(Debug)]
pub struct Account {
    pub id: String,
    pub backend: BackendId,
    pub label: String,
    pub refresh_token: Option<String>,
    pub access_token: Option<String>,
    pub expires_at: i64,
    pub account_id: Option<String>,
    pub residency: Option<String>,
    pub enterprise_url: Option<String>,
    pub status: AccountStatus,
    pub reset_at: i64,
    pub created_at: i64,
    pub updated_at: i64,
}

} // verus!
