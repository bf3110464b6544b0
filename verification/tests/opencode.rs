use underclass::json::{member_of, Json, Number};
use underclass::jsonc::{clean_jsonc, remove_trailing_commas};
use underclass::models::ModelInfo;
use underclass::opencode::{
    api_base_url, auth_path, combine_catalogs, config_path_for, connect_documents,
    find_opencode_config, listed_model_count, merge_auth, merge_provider, opencode_data_dir,
    opencode_global_config_dir, provider_block, remove_auth, remove_provider, resolve_api_key,
    ConnectArgs, DEFAULT_MODEL, PROVIDER_ID,
};

fn s(text: &str) -> Json {
    Json::Str(text.to_string())
}

fn obj(members: Vec<(&str, Json)>) -> Json {
    Json::Object(members.into_iter().map(|(k, v)| (k.to_string(), v)).collect())
}

fn at<'a>(doc: &'a Json, path: &[&str]) -> Option<&'a Json> {
    let mut cur = doc;
    for key in path {
        cur = member_of(cur, key)?;
    }
    Some(cur)
}

fn from_serde(v: &serde_json::Value) -> Json {
    match v {
        serde_json::Value::Null => Json::Null,
        serde_json::Value::Bool(b) => Json::Bool(*b),
        serde_json::Value::Number(n) => Json::Number(if let Some(u) = n.as_u64() {
            Number::PosInt(u)
        } else if let Some(i) = n.as_i64() {
            Number::NegInt(i)
        } else {
            Number::Float(n.as_f64().unwrap_or(0.0).to_bits())
        }),
        serde_json::Value::String(t) => Json::Str(t.clone()),
        serde_json::Value::Array(items) => Json::Array(items.iter().map(from_serde).collect()),
        serde_json::Value::Object(map) => Json::Object(
            map.iter().map(|(k, v)| (k.clone(), from_serde(v))).collect(),
        ),
    }
}

fn parse_jsonc(text: &str) -> Result<serde_json::Value, String> {
    let cleaned = clean_jsonc(text)?;
    serde_json::from_str(&cleaned).map_err(|e| e.to_string())
}

fn args(api_key: Option<&str>) -> ConnectArgs {
    ConnectArgs {
        base_url: "http://127.0.0.1:8080".to_string(),
        api_key: api_key.map(str::to_string),
        model: DEFAULT_MODEL.to_string(),
        no_default_model: false,
        project: false,
        dry_run: false,
        remove: false,
    }
}

fn model(id: &str, name: &str) -> ModelInfo {
    ModelInfo { id: id.to_string(), name: name.to_string() }
}

#[test]
fn merge_creates_provider_and_default_model() {
    let mut doc = obj(vec![("theme", s("dark"))]);
    let block = obj(vec![("npm", s("@ai-sdk/openai-compatible"))]);
    merge_provider(&mut doc, &block, Some("gpt-5.5"));
    assert_eq!(at(&doc, &["theme"]), Some(&s("dark")));
    assert_eq!(
        at(&doc, &["provider", "underclass", "npm"]),
        Some(&s("@ai-sdk/openai-compatible"))
    );
    assert_eq!(at(&doc, &["model"]), Some(&s("underclass/gpt-5.5")));
}

#[test]
fn merge_is_idempotent() {
    let block = obj(vec![("npm", s("@ai-sdk/openai-compatible")), ("models", obj(vec![]))]);
    let mut doc = obj(vec![("other", obj(vec![("nested", Json::Bool(true))]))]);
    merge_provider(&mut doc, &block, Some("gpt-5.5"));
    let once = doc.duplicate();
    merge_provider(&mut doc, &block, Some("gpt-5.5"));
    assert_eq!(once, doc);
}

#[test]
fn merge_preserves_unrelated_providers() {
    let block = obj(vec![("npm", s("@ai-sdk/openai-compatible"))]);
    let mut doc = obj(vec![("provider", obj(vec![("openai", obj(vec![("npm", s("@ai-sdk/openai"))]))]))]);
    merge_provider(&mut doc, &block, None);
    assert_eq!(at(&doc, &["provider", "openai", "npm"]), Some(&s("@ai-sdk/openai")));
}

#[test]
fn merge_without_default_removes_stale_default() {
    let block = obj(vec![]);
    let mut doc = obj(vec![("model", s("underclass/gpt-5.4"))]);
    merge_provider(&mut doc, &block, None);
    assert!(at(&doc, &["model"]).is_none());
    let mut doc = obj(vec![("model", s("openai/gpt-5.4"))]);
    merge_provider(&mut doc, &block, None);
    assert_eq!(at(&doc, &["model"]), Some(&s("openai/gpt-5.4")));
}

#[test]
fn remove_undoes_merge() {
    let block = obj(vec![("npm", s("@ai-sdk/openai-compatible"))]);
    let mut doc = obj(vec![
        ("model", s("openai/gpt-5.4")),
        ("provider", obj(vec![("openai", obj(vec![("npm", s("@ai-sdk/openai"))]))])),
    ]);
    merge_provider(&mut doc, &block, Some("gpt-5.5"));
    remove_provider(&mut doc);
    assert_eq!(at(&doc, &["provider", "openai", "npm"]), Some(&s("@ai-sdk/openai")));
    assert!(at(&doc, &["provider", "underclass"]).is_none());
    assert!(at(&doc, &["model"]).is_none());
}

#[test]
fn parses_jsonc_with_comments_and_trailing_commas() {
    let doc = parse_jsonc(
        "{\n  // comment\n  \"a\": 1, /* block */\n  \"list\": [1, 2,],\n  \"nested\": {\"x\": 2,},\n}",
    )
    .unwrap();
    assert_eq!(doc["a"], 1);
    assert_eq!(doc["list"].as_array().unwrap().len(), 2);
    assert_eq!(doc["nested"]["x"], 2);
}

#[test]
fn trailing_comma_inside_strings_is_preserved() {
    let doc = parse_jsonc(r#"{"a": "has , comma"}"#).unwrap();
    assert_eq!(doc["a"], "has , comma");
}

#[test]
fn auth_roundtrip() {
    let mut doc = obj(vec![("openai", obj(vec![("type", s("api")), ("key", s("sk"))]))]);
    merge_auth(&mut doc, "key-1");
    assert_eq!(at(&doc, &["underclass", "key"]), Some(&s("key-1")));
    assert_eq!(at(&doc, &["underclass", "type"]), Some(&s("api")));
    remove_auth(&mut doc);
    assert!(at(&doc, &["underclass"]).is_none());
    assert!(at(&doc, &["openai"]).is_some());
}

#[test]
fn provider_block_uses_responses_adapter_and_carries_set_cache_key() {
    let block = provider_block("http://127.0.0.1:8080/v1", "key", &[]);
    assert_eq!(at(&block, &["npm"]), Some(&s("@ai-sdk/openai")));
    assert_eq!(at(&block, &["options", "setCacheKey"]), Some(&Json::Bool(true)));
    assert_eq!(at(&block, &["options", "baseURL"]), Some(&s("http://127.0.0.1:8080/v1")));
}

#[test]
fn provider_block_lists_each_model_with_its_name() {
    let models = vec![model("gpt-5.5", "GPT 5.5"), model("o4-mini", "O4 Mini")];
    let block = provider_block("http://h/v1", "k", &models);
    assert_eq!(at(&block, &["options", "apiKey"]), Some(&s("k")));
    assert_eq!(at(&block, &["models", "gpt-5.5", "name"]), Some(&s("GPT 5.5")));
    assert_eq!(at(&block, &["models", "o4-mini", "name"]), Some(&s("O4 Mini")));
    assert_eq!(at(&block, &["name"]), Some(&s("Underclass (pooled Codex + Copilot)")));
}

#[test]
fn merge_replaces_a_document_that_is_not_an_object() {
    let mut doc = Json::Array(vec![Json::Null]);
    merge_provider(&mut doc, &obj(vec![]), None);
    assert_eq!(doc, obj(vec![("provider", obj(vec![("underclass", obj(vec![]))]))]));
    let mut doc = obj(vec![("provider", s("broken"))]);
    merge_provider(&mut doc, &obj(vec![]), None);
    assert_eq!(at(&doc, &["provider", "underclass"]), Some(&obj(vec![])));
}

#[test]
fn merge_then_remove_restores_unrelated_document() {
    let before = obj(vec![
        ("theme", s("dark")),
        ("provider", obj(vec![("openai", obj(vec![("npm", s("@ai-sdk/openai"))]))])),
    ]);
    let mut doc = before.duplicate();
    merge_provider(&mut doc, &obj(vec![("npm", s("x"))]), None);
    remove_provider(&mut doc);
    assert_eq!(doc, before);
}

#[test]
fn remove_keeps_a_foreign_default_model_and_other_documents() {
    let mut doc = obj(vec![("model", s("openai/gpt-5.4"))]);
    remove_provider(&mut doc);
    assert_eq!(at(&doc, &["model"]), Some(&s("openai/gpt-5.4")));
    let mut other = Json::Str("text".to_string());
    remove_provider(&mut other);
    assert_eq!(other, s("text"));
    let mut other = Json::Null;
    remove_auth(&mut other);
    assert_eq!(other, Json::Null);
}

#[test]
fn jsonc_errors_and_comment_styles() {
    assert!(clean_jsonc("{\"a\": 1 /* open").is_err());
    let cleaned = clean_jsonc("{\"a\": 1} # note").unwrap();
    assert!(!cleaned.contains("note"));
    assert_eq!(remove_trailing_commas("[1, 2 ,\n ]"), "[1, 2 \n ]");
    assert_eq!(remove_trailing_commas(r#"{"a": "x\",}"}"#), r#"{"a": "x\",}"}"#);
    assert_eq!(remove_trailing_commas("[1,2]"), "[1,2]");
    let parsed: serde_json::Value = serde_json::from_str(&clean_jsonc("{\"k\": [true,],}").unwrap()).unwrap();
    assert_eq!(from_serde(&parsed), obj(vec![("k", Json::Array(vec![Json::Bool(true)]))]));
}

#[test]
fn config_locations_follow_opencode() {
    assert_eq!(opencode_global_config_dir(Some("/x"), Some("/home/u")), "/x/opencode");
    assert_eq!(opencode_global_config_dir(None, Some("/home/u")), "/home/u/.config/opencode");
    assert_eq!(opencode_global_config_dir(None, None), "/.config/opencode");
    assert_eq!(opencode_data_dir(None, Some("/home/u/")), "/home/u/.local/share/opencode");
    assert_eq!(opencode_data_dir(Some("/d"), None), "/d/opencode");
    assert_eq!(find_opencode_config(true, Some("/p"), "/g", true, true), "/p/.opencode/opencode.json");
    assert_eq!(find_opencode_config(true, None, "/g", false, false), "./.opencode/opencode.json");
    assert_eq!(find_opencode_config(false, None, "/g", true, true), "/g/opencode.jsonc");
    assert_eq!(find_opencode_config(false, None, "/g", false, true), "/g/opencode.json");
    assert_eq!(find_opencode_config(false, None, "/g", false, false), "/g/opencode.json");
    let mut a = args(None);
    a.project = true;
    assert_eq!(config_path_for(&a, Some("/w"), "/g", true, false), "/w/.opencode/opencode.json");
    assert_eq!(auth_path("/d/opencode"), "/d/opencode/auth.json");
}

#[test]
fn api_root_trims_slashes() {
    assert_eq!(api_base_url("http://127.0.0.1:8080"), "http://127.0.0.1:8080/v1");
    assert_eq!(api_base_url("http://h//"), "http://h/v1");
    assert_eq!(api_base_url(""), "/v1");
}

#[test]
fn api_key_resolution_order_and_error() {
    assert_eq!(resolve_api_key(&args(Some("cli")), Some("env"), Some("db")), Ok("cli".to_string()));
    assert_eq!(resolve_api_key(&args(None), Some("env"), Some("db")), Ok("env".to_string()));
    assert_eq!(resolve_api_key(&args(None), Some(""), Some("db")), Ok("db".to_string()));
    assert_eq!(
        resolve_api_key(&args(None), None, None),
        Err("no proxy api key found. pass --api-key, set UNDERCLASS_PROXY_KEY, or run 'underclass serve' once to mint one".to_string())
    );
}

#[test]
fn catalogs_combine_without_duplicates() {
    let r = combine_catalogs(
        vec![model("a", "A")],
        vec![model("a", "other"), model("b", "B")],
        vec![model("f", "F")],
    );
    let ids: Vec<&str> = r.iter().map(|m| m.id.as_str()).collect();
    assert_eq!(ids, vec!["a", "b"]);
    assert_eq!(r[0].name, "A");
    let r = combine_catalogs(vec![], vec![], vec![model("f", "F")]);
    assert_eq!(r.len(), 1);
    assert_eq!(r[0].id, "f");
}

#[test]
fn connect_documents_merge_block_and_credential() {
    let a = args(Some("k1"));
    let (config, auth) = connect_documents(
        &a,
        "k1",
        &[model("gpt-5.5", "GPT")],
        obj(vec![("theme", s("dark"))]),
        Json::Null,
    );
    assert_eq!(at(&config, &["theme"]), Some(&s("dark")));
    assert_eq!(at(&config, &["model"]), Some(&s("underclass/gpt-5.5")));
    assert_eq!(
        at(&config, &["provider", PROVIDER_ID, "options", "baseURL"]),
        Some(&s("http://127.0.0.1:8080/v1"))
    );
    assert_eq!(at(&auth, &["underclass", "key"]), Some(&s("k1")));
    let mut b = args(Some("k1"));
    b.no_default_model = true;
    let (config, _) = connect_documents(&b, "k1", &[], obj(vec![("model", s("underclass/old"))]), Json::Null);
    assert!(at(&config, &["model"]).is_none());
}

#[test]
fn model_count_of_a_models_reply() {
    let body = obj(vec![("data", Json::Array(vec![Json::Null, Json::Null]))]);
    assert_eq!(listed_model_count(&body), 2);
    assert_eq!(listed_model_count(&obj(vec![("data", s("x"))])), 0);
    assert_eq!(listed_model_count(&Json::Null), 0);
}

#[test]
fn setting_the_credential_twice_is_setting_it_once() {
    let mut doc = obj(vec![("openai", obj(vec![("key", s("sk"))]))]);
    merge_auth(&mut doc, "k");
    let once = doc.duplicate();
    merge_auth(&mut doc, "k");
    assert_eq!(doc, once);
    let mut fresh = Json::Null;
    merge_auth(&mut fresh, "k");
    assert_eq!(fresh, obj(vec![("underclass", obj(vec![("type", s("api")), ("key", s("k"))]))]));
}
