//! What the server decides when it starts: which bind addresses count as loopback, where the
//! proxy key and the admin UI token come from, which catalogs are seeded, and which accounts
//! get their identity looked up again.
use vstd::prelude::*;
use crate::correlation::{hyphenated, is_rfc4122, new_uuid_v4, uuid_text, version_num};
use crate::jsonc::{is_white_space, is_whitespace};
use crate::models::{Account, AccountStatus, BackendId, ModelInfo};
use crate::text::{chars_of, join_text, has_prefix, owned, push_char, same_text, starts_with, opt_string};

verus! {

broadcast use vstd::string::group_string_axioms;

/// Whether `bind` is an IP loopback address with a port: `127.0.0.1:` or `[::1]:` followed
/// by at least one character.
pub open spec fn loopback_bind(bind: Seq<char>) -> bool {
    ||| has_prefix(bind, "127.0.0.1:"@) && bind.len() > "127.0.0.1:"@.len()
    ||| has_prefix(bind, "[::1]:"@) && bind.len() > "[::1]:"@.len()
}

/// Whether `bind` is an IP loopback address with a port (host names such as `localhost`
/// do not count).
pub fn is_loopback_bind(bind: &str) -> (r: bool)
    ensures
        r == loopback_bind(bind@),
{
    let n = chars_of(bind).len();
    let v4 = "127.0.0.1:";
    let v6 = "[::1]:";
    (starts_with(bind, v4) && n > chars_of(v4).len()) || (starts_with(bind, v6) && n > chars_of(
        v6,
    ).len())
}

/// Whether every character of `s` is white space (so that `trim` leaves nothing).
pub open spec fn all_white_space(s: Seq<char>) -> bool {
    forall|i: int| 0 <= i < s.len() ==> is_white_space(#[trigger] s[i])
}

/// Whether an account label says nothing of who the account is: a backend's default label
/// (`chatgpt`, `github`) or only white space.
pub open spec fn generic_label(label: Seq<char>) -> bool {
    label == "chatgpt"@ || label == "github"@ || all_white_space(label)
}

/// Whether an account label is generic, so that the account's identity is looked up.
pub fn is_generic_label(label: &str) -> (r: bool)
    ensures
        r == generic_label(label@),
{
    if same_text(label, "chatgpt") || same_text(label, "github") {
        return true;
    }
    let cs = chars_of(label);
    let mut i: usize = 0;
    while i < cs.len()
        invariant
            cs@ == label@,
            label@ != "chatgpt"@,
            label@ != "github"@,
            i <= cs@.len(),
            forall|k: int| 0 <= k < i ==> is_white_space(#[trigger] cs@[k]),
        decreases cs@.len() - i,
    {
        if !is_whitespace(cs[i]) {
            assert(!is_white_space(label@[i as int]));
            return false;
        }
        i += 1;
    }
    true
}

/// `s` with every `-` removed.
pub open spec fn without_hyphens(s: Seq<char>) -> Seq<char>
    decreases s.len(),
{
    if s.len() == 0 {
        s
    } else if s.last() == '-' {
        without_hyphens(s.drop_last())
    } else {
        without_hyphens(s.drop_last()).push(s.last())
    }
}

/// `s` with every `-` removed.
pub fn strip_hyphens(s: &str) -> (r: String)
    ensures
        r@ == without_hyphens(s@),
{
    let cs = chars_of(s);
    let mut out = String::new();
    let mut i: usize = 0;
    while i < cs.len()
        invariant
            cs@ == s@,
            i <= cs@.len(),
            out@ == without_hyphens(cs@.take(i as int)),
        decreases cs@.len() - i,
    {
        assert(cs@.take(i + 1).drop_last() =~= cs@.take(i as int));
        if cs[i] != '-' {
            push_char(&mut out, cs[i]);
        }
        i += 1;
    }
    assert(cs@.take(i as int) =~= cs@);
    out
}

/// A secret made from a fresh UUIDv4: its 32 hexadecimal digits, without the hyphens.
pub open spec fn uuid_secret(id: u128) -> Seq<char> {
    without_hyphens(hyphenated(id))
}

/// Whether `s` is the secret of some UUIDv4.
pub open spec fn is_uuid_secret(s: Seq<char>) -> bool {
    exists|id: u128| version_num(id) == 4 && is_rfc4122(id) && s == #[trigger] uuid_secret(id)
}

/// Whether `key` is a proxy key minted from some UUIDv4: `sk-underclass-` and its digits.
pub open spec fn is_minted_proxy_key(key: Seq<char>) -> bool {
    exists|id: u128|
        version_num(id) == 4 && is_rfc4122(id) && key == "sk-underclass-"@ + #[trigger] uuid_secret(
            id,
        )
}

/// A fresh secret: the digits of a random UUIDv4.
pub fn mint_secret() -> (r: String)
    ensures
        is_uuid_secret(r@),
{
    let id = new_uuid_v4();
    let text = uuid_text(id);
    let r = strip_hyphens(text.as_str());
    assert(r@ == uuid_secret(id));
    r
}

/// A fresh proxy key: `sk-underclass-` followed by the digits of a random UUIDv4.
pub fn mint_proxy_key() -> (r: String)
    ensures
        is_minted_proxy_key(r@),
{
    let id = new_uuid_v4();
    let text = uuid_text(id);
    let digits = strip_hyphens(text.as_str());
    let r = join_text("sk-underclass-", digits.as_str());
    assert(r@ == "sk-underclass-"@ + uuid_secret(id));
    r
}

/// A secret that the server uses, and whether it was minted just now (and must be stored).
#[derive(Debug)]
pub struct Credential {
    pub value: String,
    pub minted: bool,
}

/// Where the proxy key of a start comes from, given the configured and the stored key:
/// `Some` of the key that is used, or `None` when a fresh key is to be minted.
pub open spec fn proxy_key_source(configured: Option<Seq<char>>, stored: Option<Seq<char>>) -> Option<
    Seq<char>,
> {
    match configured {
        Some(k) if k.len() > 0 => Some(k),
        _ => stored,
    }
}

/// The proxy key at start: a non-empty configured key, else the stored one, else a fresh
/// minted key that is to be stored.
pub fn startup_proxy_key(configured: Option<String>, stored: Option<String>) -> (r: Credential)
    ensures
        match proxy_key_source(opt_string(configured), opt_string(stored)) {
            Some(k) => r.value@ == k && !r.minted,
            None => r.minted && is_minted_proxy_key(r.value@),
        },
{
    if let Some(k) = configured {
        if !k.as_str().is_empty() {
            return Credential { value: k, minted: false };
        }
    }
    match stored {
        Some(k) => Credential { value: k, minted: false },
        None => Credential { value: mint_proxy_key(), minted: true },
    }
}

/// The message when an empty UI token is configured on a bind that is not loopback.
pub open spec fn ui_token_refused() -> Seq<char> {
    "ui_token can be disabled only on a loopback bind"@
}

/// Where the admin UI token of a start comes from.
pub enum UiTokenSource {
    /// UI authentication is disabled.
    Disabled,
    /// The start is refused: an empty token on a bind that is not loopback.
    Refused,
    /// This token is used.
    Use(Seq<char>),
    /// A fresh token is minted and stored.
    Mint,
}

/// Where the admin UI token comes from, given the configured token, whether the bind is
/// loopback and the stored token.
pub open spec fn ui_token_source(
    configured: Option<Seq<char>>,
    loopback: bool,
    stored: Option<Seq<char>>,
) -> UiTokenSource {
    match configured {
        Some(t) => if t.len() == 0 {
            if loopback {
                UiTokenSource::Disabled
            } else {
                UiTokenSource::Refused
            }
        } else {
            UiTokenSource::Use(t)
        },
        None => match stored {
            Some(t) => UiTokenSource::Use(t),
            None => UiTokenSource::Mint,
        },
    }
}

/// The admin UI token at start. A configured empty token disables UI authentication
/// (`Ok(None)`), which is refused unless `bind` is loopback; a configured non-empty token is
/// used; without one, the stored token, else a fresh minted one that is to be stored.
pub fn startup_ui_token(configured: Option<String>, bind: &str, stored: Option<String>) -> (r:
    Result<Option<Credential>, String>)
    ensures
        match ui_token_source(opt_string(configured), loopback_bind(bind@), opt_string(stored)) {
            UiTokenSource::Disabled => r matches Ok(None),
            UiTokenSource::Refused => r matches Err(e) && e@ == ui_token_refused(),
            UiTokenSource::Use(t) => r matches Ok(Some(c)) && c.value@ == t && !c.minted,
            UiTokenSource::Mint => r matches Ok(Some(c)) && c.minted && is_uuid_secret(c.value@),
        },
{
    match configured {
        Some(t) => {
            if t.as_str().is_empty() {
                if is_loopback_bind(bind) {
                    Ok(None)
                } else {
                    Err(owned("ui_token can be disabled only on a loopback bind"))
                }
            } else {
                Ok(Some(Credential { value: t, minted: false }))
            }
        },
        None => match stored {
            Some(t) => Ok(Some(Credential { value: t, minted: false })),
            None => Ok(Some(Credential { value: mint_secret(), minted: true })),
        },
    }
}

/// A proxy key is minted once: when a start mints one and stores it, every later start with
/// the same configuration uses that stored key; a non-empty configured key always wins.
pub proof fn law_proxy_key_minted_once(
    configured: Option<Seq<char>>,
    minted: Seq<char>,
    stored: Option<Seq<char>>,
)
    ensures
        proxy_key_source(configured, None) is None ==> proxy_key_source(configured, Some(minted))
            == Some(minted),
        configured is Some && configured->0.len() > 0 ==> proxy_key_source(configured, stored)
            == configured,
{
}

/// A UI token is minted once: when a start mints one and stores it, every later start
/// without a configured token uses that stored token. An empty configured token disables
/// UI authentication exactly on a loopback bind, and is refused elsewhere.
pub proof fn law_ui_token_minted_once(
    loopback: bool,
    minted: Seq<char>,
    stored: Option<Seq<char>>,
)
    ensures
        ui_token_source(None, loopback, None) is Mint,
        ui_token_source(None, loopback, Some(minted)) == UiTokenSource::Use(minted),
        (ui_token_source(Some(Seq::empty()), loopback, stored) is Disabled) == loopback,
        (ui_token_source(Some(Seq::empty()), loopback, stored) is Refused) == !loopback,
{
}

/// The catalog to store for a backend at start: its defaults when nothing is stored yet,
/// else nothing.
pub fn seeded_catalog(stored: &Vec<ModelInfo>, defaults: Vec<ModelInfo>) -> (r: Option<
    Vec<ModelInfo>,
>)
    ensures
        stored@.len() == 0 ==> r == Some(defaults),
        stored@.len() > 0 ==> r is None,
{
    if stored.len() == 0 {
        Some(defaults)
    } else {
        None
    }
}

/// The ids of the models of a catalog, in order.
pub open spec fn catalog_ids(catalog: Seq<ModelInfo>) -> Seq<Seq<char>> {
    Seq::new(catalog.len(), |i: int| catalog[i].id@)
}

/// After a Copilot catalog was fetched at start: the model ids that the pool routes to, or
/// nothing when the catalog came back empty (then nothing is stored either).
pub fn fetched_catalog_ids(catalog: &Vec<ModelInfo>) -> (r: Option<Vec<String>>)
    ensures
        catalog@.len() == 0 ==> r is None,
        catalog@.len() > 0 ==> (r matches Some(ids) && ids@.len() == catalog@.len() && forall|
            i: int,
        |
            0 <= i < ids@.len() ==> #[trigger] ids@[i]@ == catalog_ids(catalog@)[i]),
{
    if catalog.len() == 0 {
        return None;
    }
    let mut ids: Vec<String> = Vec::new();
    let mut i: usize = 0;
    while i < catalog.len()
        invariant
            i <= catalog@.len(),
            ids@.len() == i,
            forall|k: int| 0 <= k < i ==> #[trigger] ids@[k]@ == catalog@[k].id@,
        decreases catalog@.len() - i,
    {
        ids.push(catalog[i].id.clone());
        i += 1;
    }
    Some(ids)
}

/// The GitHub token with which the catalog of `account` is fetched at start: a Copilot
/// account's stored token; other accounts, and Copilot accounts without one, are skipped.
pub fn catalog_source(account: &Account) -> (r: Option<String>)
    ensures
        match account.backend {
            BackendId::Copilot => opt_string(r) == opt_string(account.refresh_token),
            BackendId::Codex => r is None,
        },
{
    match account.backend {
        BackendId::Copilot => match &account.refresh_token {
            Some(t) => Some(t.clone()),
            None => None,
        },
        BackendId::Codex => None,
    }
}

/// How the identity of an account is looked up at start.
#[derive(Debug)]
pub enum IdentityLookup {
    /// The label is not generic, or there is nothing to look it up with.
    Skip,
    /// Read it from the claims of the account's access token (a Codex account).
    FromAccessToken,
    /// Ask GitHub with this token (a Copilot account).
    FromGithub(String),
}

/// How the identity of `account` is looked up at start: only an account with a generic
/// label is looked up; a Codex account through its access token, a Copilot account through
/// its stored GitHub token (skipped without one).
pub fn identity_lookup(account: &Account) -> (r: IdentityLookup)
    ensures
        !generic_label(account.label@) ==> r is Skip,
        generic_label(account.label@) ==> match account.backend {
            BackendId::Codex => r is FromAccessToken,
            BackendId::Copilot => match account.refresh_token {
                Some(t) => r matches IdentityLookup::FromGithub(s) && s@ == t@,
                None => r is Skip,
            },
        },
{
    if !is_generic_label(account.label.as_str()) {
        return IdentityLookup::Skip;
    }
    match account.backend {
        BackendId::Codex => IdentityLookup::FromAccessToken,
        BackendId::Copilot => match &account.refresh_token {
            Some(t) => IdentityLookup::FromGithub(t.clone()),
            None => IdentityLookup::Skip,
        },
    }
}

fn copy_opt(o: &Option<String>) -> (r: Option<String>)
    ensures
        opt_string(r) == opt_string(*o),
{
    match o {
        Some(s) => Some(s.clone()),
        None => None,
    }
}

/// `account` with the identity that was found as its label, updated at `now_ms`; every
/// other field stays.
pub fn relabeled(account: &Account, identity: String, now_ms: i64) -> (r: Account)
    ensures
        r.label@ == identity@,
        r.updated_at == now_ms,
        r.id@ == account.id@,
        r.backend == account.backend,
        opt_string(r.refresh_token) == opt_string(account.refresh_token),
        opt_string(r.access_token) == opt_string(account.access_token),
        r.expires_at == account.expires_at,
        opt_string(r.account_id) == opt_string(account.account_id),
        opt_string(r.residency) == opt_string(account.residency),
        opt_string(r.enterprise_url) == opt_string(account.enterprise_url),
        r.status == account.status,
        r.reset_at == account.reset_at,
        r.created_at == account.created_at,
{
    Account {
        id: account.id.clone(),
        backend: account.backend,
        label: identity,
        refresh_token: copy_opt(&account.refresh_token),
        access_token: copy_opt(&account.access_token),
        expires_at: account.expires_at,
        account_id: copy_opt(&account.account_id),
        residency: copy_opt(&account.residency),
        enterprise_url: copy_opt(&account.enterprise_url),
        status: account.status,
        reset_at: account.reset_at,
        created_at: account.created_at,
        updated_at: now_ms,
    }
}

} // verus!
