//! The opencode configuration that `connect` writes: where the files live, the provider
//! block, and how it is merged into (and removed from) an existing configuration and
//! credential store.
use vstd::prelude::*;
use crate::json::{
    Json, JsonV, items_view, lemma_items_view, entries_view, lookup, insert_entry, remove_key, key_index, get_member,
    set_member, remove_member, lemma_entries_view, lemma_lookup_insert_same,
    lemma_lookup_insert_other, lemma_insert_insert, lemma_insert_present, lemma_remove_absent,
    lemma_lookup_remove_other, lemma_remove_insert, lemma_remove_insert_other,
    lemma_remove_remove, lemma_key_index, lemma_remove_missing,
};
use crate::text::{owned, join_text, starts_with, has_prefix, chars_of, string_of_chars, push_char, opt_string};
use crate::models::ModelInfo;

verus! {

broadcast use vstd::string::group_string_axioms;

/// The provider name under which the pool is registered in opencode.
pub const PROVIDER_ID: &'static str = "underclass";

/// The model that `connect` makes the default unless told otherwise.
pub const DEFAULT_MODEL: &'static str = "gpt-5.5";

/// The members of `doc` if it is an object, and none otherwise.
pub open spec fn object_entries(doc: JsonV) -> Seq<(Seq<char>, JsonV)> {
    match doc {
        JsonV::Object(e) => e,
        _ => Seq::empty(),
    }
}

/// The members of the `provider` object of a configuration (none when it is missing or is
/// not an object).
pub open spec fn provider_members(base: Seq<(Seq<char>, JsonV)>) -> Seq<(Seq<char>, JsonV)> {
    match lookup(base, "provider"@) {
        Some(JsonV::Object(p)) => p,
        _ => Seq::empty(),
    }
}

/// `underclass/`: the prefix of every model that the pool serves.
pub open spec fn pool_model_prefix() -> Seq<char> {
    PROVIDER_ID@ + "/"@
}

/// Whether a `model` member names one of the pool's models.
pub open spec fn is_pool_model(v: Option<JsonV>) -> bool {
    match v {
        Some(JsonV::Str(s)) => has_prefix(s, pool_model_prefix()),
        _ => false,
    }
}

pub open spec fn opt_text(o: Option<&str>) -> Option<Seq<char>> {
    match o {
        Some(s) => Some(s@),
        None => None,
    }
}

/// The configuration after the pool's provider block is merged in.
pub open spec fn merged_config(doc: JsonV, block: JsonV, default_model: Option<Seq<char>>) -> JsonV {
    let base = object_entries(doc);
    let with_provider = insert_entry(
        base,
        "provider"@,
        JsonV::Object(insert_entry(provider_members(base), PROVIDER_ID@, block)),
    );
    JsonV::Object(
        match default_model {
            Some(m) => insert_entry(
                with_provider,
                "model"@,
                JsonV::Str(pool_model_prefix() + m),
            ),
            None => if is_pool_model(lookup(with_provider, "model"@)) {
                remove_key(with_provider, "model"@)
            } else {
                with_provider
            },
        },
    )
}

/// The configuration after the pool's provider and default model are taken out.
pub open spec fn removed_config(doc: JsonV) -> JsonV {
    match doc {
        JsonV::Object(base) => {
            let b1 = match lookup(base, "provider"@) {
                Some(JsonV::Object(p)) => insert_entry(
                    base,
                    "provider"@,
                    JsonV::Object(remove_key(p, PROVIDER_ID@)),
                ),
                _ => base,
            };
            JsonV::Object(
                if is_pool_model(lookup(b1, "model"@)) {
                    remove_key(b1, "model"@)
                } else {
                    b1
                },
            )
        },
        _ => doc,
    }
}

/// The credential that opencode stores for the pool.
pub open spec fn auth_entry(key: Seq<char>) -> JsonV {
    JsonV::Object(seq![("type"@, JsonV::Str("api"@)), ("key"@, JsonV::Str(key))])
}

/// The credential store after the pool's credential is set.
pub open spec fn merged_auth(doc: JsonV, key: Seq<char>) -> JsonV {
    JsonV::Object(insert_entry(object_entries(doc), PROVIDER_ID@, auth_entry(key)))
}

/// The credential store after the pool's credential is taken out.
pub open spec fn removed_auth(doc: JsonV) -> JsonV {
    match doc {
        JsonV::Object(e) => JsonV::Object(remove_key(e, PROVIDER_ID@)),
        _ => doc,
    }
}

/// The members of an object document (none for any other document), taken out of it.
fn into_members(doc: Json) -> (r: Vec<(String, Json)>)
    ensures
        entries_view(r) == object_entries(doc@),
{
    match doc {
        Json::Object(e) => {
            proof {
                lemma_entries_view(e);
            }
            e
        },
        _ => {
            let e: Vec<(String, Json)> = Vec::new();
            proof {
                lemma_entries_view(e);
                assert(entries_view(e) =~= Seq::empty());
            }
            e
        },
    }
}

/// A copy of the members of the object `v`, or none when `v` is missing or not an object.
fn members_of(v: Option<&Json>) -> (r: Vec<(String, Json)>)
    ensures
        entries_view(r) == match v {
            Some(j) => object_entries(j@),
            None => Seq::empty(),
        },
{
    match v {
        Some(j) => into_members(j.duplicate()),
        None => into_members(Json::Null),
    }
}

/// The object with the given members.
fn object(e: Vec<(String, Json)>) -> (r: Json)
    ensures
        r@ == JsonV::Object(entries_view(e)),
{
    proof {
        lemma_entries_view(e);
    }
    Json::Object(e)
}

/// Whether the member `model` of an object names one of the pool's models.
fn has_pool_model(entries: &Vec<(String, Json)>) -> (r: bool)
    ensures
        r == is_pool_model(lookup(entries_view(*entries), "model"@)),
{
    let prefix = join_text(PROVIDER_ID, "/");
    match get_member(entries, "model") {
        Some(Json::Str(s)) => starts_with(s.as_str(), prefix.as_str()),
        _ => false,
    }
}

/// Merges the pool's provider `block` into an opencode configuration: the configuration
/// becomes an object if it was not one, `provider.underclass` becomes `block`, and the
/// default model becomes `underclass/<default_model>`, or, when no default is asked for,
/// a default model of the pool is dropped.
pub fn merge_provider(doc: &mut Json, block: &Json, default_model: Option<&str>)
    ensures
        final(doc)@ == merged_config(old(doc)@, block@, opt_text(default_model)),
{
    let mut cur = Json::Null;
    std::mem::swap(&mut cur, doc);
    let mut entries = into_members(cur);
    let mut providers = members_of(get_member(&entries, "provider"));
    set_member(&mut providers, PROVIDER_ID, block.duplicate());
    set_member(&mut entries, "provider", object(providers));
    match default_model {
        Some(model) => {
            let prefix = join_text(PROVIDER_ID, "/");
            let name = join_text(prefix.as_str(), model);
            set_member(&mut entries, "model", Json::Str(name));
        },
        None => {
            if has_pool_model(&entries) {
                remove_member(&mut entries, "model");
            }
        },
    }
    *doc = object(entries);
}

/// Takes the pool's provider out of an opencode configuration, and the default model when
/// it is one of the pool's.
pub fn remove_provider(doc: &mut Json)
    ensures
        final(doc)@ == removed_config(old(doc)@),
{
    let mut cur = Json::Null;
    std::mem::swap(&mut cur, doc);
    match cur {
        Json::Object(mut entries) => {
            proof {
                lemma_entries_view(entries);
            }
            let is_object = match get_member(&entries, "provider") {
                Some(Json::Object(_)) => true,
                _ => false,
            };
            if is_object {
                let mut providers = members_of(get_member(&entries, "provider"));
                remove_member(&mut providers, PROVIDER_ID);
                set_member(&mut entries, "provider", object(providers));
            }
            if has_pool_model(&entries) {
                remove_member(&mut entries, "model");
            }
            *doc = object(entries);
        },
        other => {
            *doc = other;
        },
    }
}

/// Sets the pool's credential (an API key) in opencode's credential store, which becomes an
/// object if it was not one.
pub fn merge_auth(doc: &mut Json, key: &str)
    ensures
        final(doc)@ == merged_auth(old(doc)@, key@),
{
    let mut cur = Json::Null;
    std::mem::swap(&mut cur, doc);
    let mut entries = into_members(cur);
    let mut cred: Vec<(String, Json)> = Vec::new();
    cred.push((owned("type"), Json::Str(owned("api"))));
    cred.push((owned("key"), Json::Str(owned(key))));
    proof {
        lemma_entries_view(cred);
        assert(entries_view(cred) =~= auth_entry(key@)->Object_0);
    }
    set_member(&mut entries, PROVIDER_ID, object(cred));
    *doc = object(entries);
}

/// Takes the pool's credential out of opencode's credential store.
pub fn remove_auth(doc: &mut Json)
    ensures
        final(doc)@ == removed_auth(old(doc)@),
{
    if let Json::Object(entries) = doc {
        remove_member(entries, PROVIDER_ID);
    }
}


/// The member names that the merge touches are distinct.
proof fn lemma_names_distinct()
    ensures
        "provider"@ != "model"@,
        "model"@ != PROVIDER_ID@,
        "provider"@ != PROVIDER_ID@,
{
    reveal_strlit("provider");
    reveal_strlit("model");
    reveal_strlit("underclass");
    assert("provider"@.len() != "model"@.len());
    assert("model"@.len() != PROVIDER_ID@.len());
    assert("provider"@[0] != PROVIDER_ID@[0]);
}

proof fn lemma_pool_model_named(m: Seq<char>)
    ensures
        is_pool_model(Some(JsonV::Str(pool_model_prefix() + m))),
{
    assert((pool_model_prefix() + m).take(pool_model_prefix().len() as int) =~= pool_model_prefix());
}

/// Facts about a merged configuration: it is an object whose `provider` member is the
/// provider object with `underclass` set, and whose `model` member is what was asked for.
proof fn lemma_merged_shape(doc: JsonV, block: JsonV, default_model: Option<Seq<char>>)
    ensures
        merged_config(doc, block, default_model) is Object,
        lookup(object_entries(merged_config(doc, block, default_model)), "provider"@) == Some(
            JsonV::Object(insert_entry(provider_members(object_entries(doc)), PROVIDER_ID@, block)),
        ),
        forall|k: Seq<char>|
            k != "provider"@ && k != "model"@ ==> #[trigger] lookup(
                object_entries(merged_config(doc, block, default_model)),
                k,
            ) == lookup(object_entries(doc), k),
{
    lemma_names_distinct();
    let base = object_entries(doc);
    let p1 = JsonV::Object(insert_entry(provider_members(base), PROVIDER_ID@, block));
    let w = insert_entry(base, "provider"@, p1);
    lemma_lookup_insert_same(base, "provider"@, p1);
    assert forall|k: Seq<char>| k != "provider"@ implies #[trigger] lookup(w, k) == lookup(base, k) by {
        lemma_lookup_insert_other(base, "provider"@, p1, k);
    }
    match default_model {
        Some(m) => {
            let v = JsonV::Str(pool_model_prefix() + m);
            lemma_lookup_insert_other(w, "model"@, v, "provider"@);
            assert forall|k: Seq<char>| k != "model"@ implies #[trigger] lookup(insert_entry(w, "model"@, v), k) == lookup(w, k) by {
                lemma_lookup_insert_other(w, "model"@, v, k);
            }
        },
        None => {
            lemma_lookup_remove_other(w, "model"@, "provider"@);
            assert forall|k: Seq<char>| k != "model"@ implies #[trigger] lookup(remove_key(w, "model"@), k) == lookup(w, k) by {
                lemma_lookup_remove_other(w, "model"@, k);
            }
        },
    }
}

/// Merging the provider block twice gives the same configuration as merging it once.
pub proof fn law_merge_idempotent(doc: JsonV, block: JsonV, default_model: Option<Seq<char>>)
    ensures
        merged_config(merged_config(doc, block, default_model), block, default_model)
            == merged_config(doc, block, default_model),
{
    lemma_names_distinct();
    let d1 = merged_config(doc, block, default_model);
    let base = object_entries(doc);
    let p1 = insert_entry(provider_members(base), PROVIDER_ID@, block);
    let w = insert_entry(base, "provider"@, JsonV::Object(p1));
    let base1 = object_entries(d1);
    lemma_merged_shape(doc, block, default_model);
    assert(provider_members(base1) == p1);
    lemma_lookup_insert_same(provider_members(base), PROVIDER_ID@, block);
    lemma_insert_present(p1, PROVIDER_ID@, block);
    lemma_insert_present(base1, "provider"@, JsonV::Object(p1));
    match default_model {
        Some(m) => {
            let v = JsonV::Str(pool_model_prefix() + m);
            lemma_insert_insert(w, "model"@, v, v);
        },
        None => {
            if is_pool_model(lookup(w, "model"@)) {
                lemma_remove_absent(w, "model"@);
            }
        },
    }
}

/// Merging keeps every member of the configuration other than `provider` and `model`, and
/// every provider other than the pool's.
pub proof fn law_merge_preserves_unrelated(
    doc: JsonV,
    block: JsonV,
    default_model: Option<Seq<char>>,
    key: Seq<char>,
    provider: Seq<char>,
)
    requires
        provider != PROVIDER_ID@,
    ensures
        key != "provider"@ && key != "model"@ ==> lookup(
            object_entries(merged_config(doc, block, default_model)),
            key,
        ) == lookup(object_entries(doc), key),
        lookup(provider_members(object_entries(merged_config(doc, block, default_model))), provider)
            == lookup(provider_members(object_entries(doc)), provider),
        lookup(provider_members(object_entries(merged_config(doc, block, default_model))), PROVIDER_ID@)
            == Some(block),
{
    lemma_merged_shape(doc, block, default_model);
    lemma_lookup_insert_other(provider_members(object_entries(doc)), PROVIDER_ID@, block, provider);
    lemma_lookup_insert_same(provider_members(object_entries(doc)), PROVIDER_ID@, block);
}

/// With a default model, the merge makes `underclass/<model>` the default; without one, it
/// leaves no default model of the pool behind and keeps any other default model.
pub proof fn law_merge_default_model(doc: JsonV, block: JsonV, default_model: Option<Seq<char>>)
    ensures
        default_model is Some ==> lookup(
            object_entries(merged_config(doc, block, default_model)),
            "model"@,
        ) == Some(JsonV::Str(pool_model_prefix() + default_model->0)),
        default_model is None ==> !is_pool_model(
            lookup(object_entries(merged_config(doc, block, default_model)), "model"@),
        ),
        default_model is None && !is_pool_model(lookup(object_entries(doc), "model"@)) ==> lookup(
            object_entries(merged_config(doc, block, default_model)),
            "model"@,
        ) == lookup(object_entries(doc), "model"@),
{
    lemma_names_distinct();
    let base = object_entries(doc);
    let p1 = JsonV::Object(insert_entry(provider_members(base), PROVIDER_ID@, block));
    let w = insert_entry(base, "provider"@, p1);
    lemma_lookup_insert_other(base, "provider"@, p1, "model"@);
    match default_model {
        Some(m) => {
            lemma_lookup_insert_same(w, "model"@, JsonV::Str(pool_model_prefix() + m));
        },
        None => {
            lemma_remove_absent(w, "model"@);
        },
    }
}

/// Removing the provider undoes merging it: for a configuration whose `provider` member is
/// an object, removing after merging gives the configuration with the pool's provider
/// removed, and, when the merge set a default model, without any default model.
pub proof fn law_remove_undoes_merge(doc: JsonV, block: JsonV, default_model: Option<Seq<char>>)
    requires
        doc is Object,
        lookup(object_entries(doc), "provider"@) matches Some(JsonV::Object(_)),
    ensures
        removed_config(merged_config(doc, block, default_model)) == match default_model {
            Some(_) => JsonV::Object(remove_key(object_entries(removed_config(doc)), "model"@)),
            None => removed_config(doc),
        },
{
    lemma_names_distinct();
    let base = object_entries(doc);
    let p0 = provider_members(base);
    let y = JsonV::Object(insert_entry(p0, PROVIDER_ID@, block));
    let x = JsonV::Object(remove_key(p0, PROVIDER_ID@));
    let w = insert_entry(base, "provider"@, y);
    lemma_remove_insert(p0, PROVIDER_ID@, block);
    lemma_lookup_insert_same(base, "provider"@, y);
    lemma_lookup_insert_other(base, "provider"@, y, "model"@);
    let c1 = insert_entry(base, "provider"@, x);
    lemma_lookup_insert_other(base, "provider"@, x, "model"@);
    lemma_remove_insert_other(base, "provider"@, x, "model"@);
    lemma_remove_insert_other(base, "provider"@, y, "model"@);
    lemma_insert_insert(remove_key(base, "model"@), "provider"@, y, x);
    lemma_insert_insert(base, "provider"@, y, x);
    match default_model {
        Some(m) => {
            let v = JsonV::Str(pool_model_prefix() + m);
            let mm = insert_entry(w, "model"@, v);
            lemma_lookup_insert_other(w, "model"@, v, "provider"@);
            lemma_lookup_insert_same(w, "model"@, v);
            lemma_pool_model_named(m);
            let b1 = insert_entry(mm, "provider"@, x);
            lemma_lookup_insert_other(mm, "provider"@, x, "model"@);
            lemma_remove_insert_other(mm, "provider"@, x, "model"@);
            lemma_remove_insert(w, "model"@, v);
            if is_pool_model(lookup(c1, "model"@)) {
                lemma_remove_remove(c1, "model"@);
            }
        },
        None => {
            if is_pool_model(lookup(w, "model"@)) {
                let mm = remove_key(w, "model"@);
                lemma_lookup_remove_other(w, "model"@, "provider"@);
                lemma_remove_absent(w, "model"@);
                lemma_lookup_insert_other(mm, "provider"@, x, "model"@);
            } else {
                lemma_lookup_insert_other(w, "provider"@, x, "model"@);
            }
        },
    }
}

/// After merging and then removing, the pool's provider is gone, every other provider and
/// every member other than `provider` and `model` is as it was, and no default model of the
/// pool is left.
pub proof fn law_remove_after_merge(
    doc: JsonV,
    block: JsonV,
    default_model: Option<Seq<char>>,
    key: Seq<char>,
    provider: Seq<char>,
)
    requires
        provider != PROVIDER_ID@,
        key != "provider"@,
        key != "model"@,
    ensures
        ({
            let r = object_entries(removed_config(merged_config(doc, block, default_model)));
            &&& lookup(provider_members(r), PROVIDER_ID@) is None
            &&& lookup(provider_members(r), provider) == lookup(
                provider_members(object_entries(doc)),
                provider,
            )
            &&& lookup(r, key) == lookup(object_entries(doc), key)
            &&& !is_pool_model(lookup(r, "model"@))
        }),
{
    lemma_names_distinct();
    let m1 = object_entries(merged_config(doc, block, default_model));
    lemma_merged_shape(doc, block, default_model);
    let p1 = insert_entry(provider_members(object_entries(doc)), PROVIDER_ID@, block);
    let x = JsonV::Object(remove_key(p1, PROVIDER_ID@));
    let b1 = insert_entry(m1, "provider"@, x);
    lemma_lookup_insert_same(m1, "provider"@, x);
    lemma_lookup_insert_other(m1, "provider"@, x, key);
    lemma_lookup_insert_other(m1, "provider"@, x, "model"@);
    lemma_remove_absent(p1, PROVIDER_ID@);
    lemma_lookup_remove_other(p1, PROVIDER_ID@, provider);
    lemma_lookup_insert_other(provider_members(object_entries(doc)), PROVIDER_ID@, block, provider);
    lemma_lookup_remove_other(b1, "model"@, "provider"@);
    lemma_lookup_remove_other(b1, "model"@, key);
    lemma_remove_absent(b1, "model"@);
}

/// Setting the credential twice gives the same credential store as setting it once.
pub proof fn law_auth_merge_idempotent(doc: JsonV, key: Seq<char>)
    ensures
        merged_auth(merged_auth(doc, key), key) == merged_auth(doc, key),
{
    lemma_insert_insert(object_entries(doc), PROVIDER_ID@, auth_entry(key), auth_entry(key));
}

/// Removing the credential undoes setting it, the credential set is the pool's API key,
/// and every other credential is kept.
pub proof fn law_auth_roundtrip(doc: JsonV, key: Seq<char>, other: Seq<char>)
    requires
        doc is Object,
        other != PROVIDER_ID@,
    ensures
        removed_auth(merged_auth(doc, key)) == removed_auth(doc),
        lookup(object_entries(merged_auth(doc, key)), PROVIDER_ID@) == Some(auth_entry(key)),
        lookup(object_entries(merged_auth(doc, key)), other) == lookup(object_entries(doc), other),
        lookup(object_entries(removed_auth(merged_auth(doc, key))), PROVIDER_ID@) is None,
{
    lemma_remove_insert(object_entries(doc), PROVIDER_ID@, auth_entry(key));
    lemma_lookup_insert_same(object_entries(doc), PROVIDER_ID@, auth_entry(key));
    lemma_lookup_insert_other(object_entries(doc), PROVIDER_ID@, auth_entry(key), other);
    lemma_remove_absent(object_entries(doc), PROVIDER_ID@);
}


/// The options of the `connect` command.
#[derive(Debug)]
pub struct ConnectArgs {
    pub base_url: String,
    pub api_key: Option<String>,
    pub model: String,
    pub no_default_model: bool,
    pub project: bool,
    pub dry_run: bool,
    pub remove: bool,
}

/// `rel` appended to the path `base`, with one `/` between them unless `base` is empty or
/// already ends with `/` (`rel` is a relative path).
pub open spec fn joined(base: Seq<char>, rel: Seq<char>) -> Seq<char> {
    if base.len() == 0 {
        rel
    } else if base.last() == '/' {
        base + rel
    } else {
        base + seq!['/'] + rel
    }
}

/// Joins the relative path `rel` onto `base`.
pub fn join_path(base: &str, rel: &str) -> (r: String)
    ensures
        r@ == joined(base@, rel@),
{
    let b = chars_of(base);
    let mut out = owned(base);
    if b.len() > 0 && b[b.len() - 1] != '/' {
        push_char(&mut out, '/');
    }
    out.append(rel);
    out
}

/// The home directory: `$HOME`, or `/` when it is unset.
pub open spec fn home_of(home_var: Option<Seq<char>>) -> Seq<char> {
    match home_var {
        Some(h) => h,
        None => seq!['/'],
    }
}

pub fn home(home_var: Option<&str>) -> (r: String)
    ensures
        r@ == home_of(opt_text(home_var)),
{
    match home_var {
        Some(h) => owned(h),
        None => {
            let mut s = String::new();
            push_char(&mut s, '/');
            s
        },
    }
}

/// opencode's global configuration directory, from `$XDG_CONFIG_HOME` and `$HOME`.
pub fn opencode_global_config_dir(xdg_config_home: Option<&str>, home_var: Option<&str>) -> (r:
    String)
    ensures
        r@ == match xdg_config_home {
            Some(dir) => joined(dir@, "opencode"@),
            None => joined(home_of(opt_text(home_var)), ".config/opencode"@),
        },
{
    match xdg_config_home {
        Some(dir) => join_path(dir, "opencode"),
        None => {
            let h = home(home_var);
            join_path(h.as_str(), ".config/opencode")
        },
    }
}

/// opencode's data directory, from `$XDG_DATA_HOME` and `$HOME`.
pub fn opencode_data_dir(xdg_data_home: Option<&str>, home_var: Option<&str>) -> (r: String)
    ensures
        r@ == match xdg_data_home {
            Some(dir) => joined(dir@, "opencode"@),
            None => joined(home_of(opt_text(home_var)), ".local/share/opencode"@),
        },
{
    match xdg_data_home {
        Some(dir) => join_path(dir, "opencode"),
        None => {
            let h = home(home_var);
            join_path(h.as_str(), ".local/share/opencode")
        },
    }
}

/// The opencode configuration file to edit. For a project it is
/// `<cwd>/.opencode/opencode.json` (`.` standing for an unknown working directory);
/// otherwise `opencode.jsonc` in the global directory when that file exists, else
/// `opencode.json` there. `jsonc_exists` and `json_exists` tell whether those two files of
/// `global_dir` exist.
pub fn find_opencode_config(
    project: bool,
    cwd: Option<&str>,
    global_dir: &str,
    jsonc_exists: bool,
    json_exists: bool,
) -> (r: String)
    ensures
        r@ == if project {
            joined(
                match cwd {
                    Some(d) => d@,
                    None => seq!['.'],
                },
                ".opencode/opencode.json"@,
            )
        } else if jsonc_exists {
            joined(global_dir@, "opencode.jsonc"@)
        } else {
            joined(global_dir@, "opencode.json"@)
        },
{
    if project {
        let dir = match cwd {
            Some(d) => owned(d),
            None => {
                let mut s = String::new();
                push_char(&mut s, '.');
                s
            },
        };
        return join_path(dir.as_str(), ".opencode/opencode.json");
    }
    if jsonc_exists {
        return join_path(global_dir, "opencode.jsonc");
    }
    if json_exists {
        return join_path(global_dir, "opencode.json");
    }
    join_path(global_dir, "opencode.json")
}

/// The configuration file that `connect` edits for `args`.
pub fn config_path_for(
    args: &ConnectArgs,
    cwd: Option<&str>,
    global_dir: &str,
    jsonc_exists: bool,
    json_exists: bool,
) -> (r: String)
    ensures
        r@ == if args.project {
            joined(
                match cwd {
                    Some(d) => d@,
                    None => seq!['.'],
                },
                ".opencode/opencode.json"@,
            )
        } else if jsonc_exists {
            joined(global_dir@, "opencode.jsonc"@)
        } else {
            joined(global_dir@, "opencode.json"@)
        },
{
    find_opencode_config(args.project, cwd, global_dir, jsonc_exists, json_exists)
}

/// opencode's credential store, `auth.json` in its data directory.
pub fn auth_path(data_dir: &str) -> (r: String)
    ensures
        r@ == joined(data_dir@, "auth.json"@),
{
    join_path(data_dir, "auth.json")
}

/// `s` without its trailing `/` characters.
pub open spec fn trim_trailing_slashes(s: Seq<char>) -> Seq<char>
    decreases s.len(),
{
    if s.len() > 0 && s.last() == '/' {
        trim_trailing_slashes(s.drop_last())
    } else {
        s
    }
}

/// The API root of the pool at `base_url`: the URL without trailing slashes, then `/v1`.
pub fn api_base_url(base_url: &str) -> (r: String)
    ensures
        r@ == trim_trailing_slashes(base_url@) + "/v1"@,
{
    let mut cs = chars_of(base_url);
    let mut end: usize = cs.len();
    assert(cs@.take(end as int) =~= cs@);
    while end > 0 && cs[end - 1] == '/'
        invariant
            cs@ == base_url@,
            end <= cs@.len(),
            trim_trailing_slashes(cs@.take(end as int)) == trim_trailing_slashes(base_url@),
        decreases end,
    {
        assert(cs@.take(end as int).drop_last() =~= cs@.take(end - 1));
        end -= 1;
    }
    let ghost whole = cs@;
    cs.truncate(end);
    let mut trimmed = string_of_chars(cs.as_slice());
    assert(trimmed@ =~= whole.take(end as int));
    trimmed.append("/v1");
    trimmed
}

/// The members of the `models` object of the provider block: each model's id names an
/// object that carries its display name, a later model replacing an earlier one with the
/// same id.
pub open spec fn model_members(models: Seq<ModelInfo>) -> Seq<(Seq<char>, JsonV)>
    decreases models.len(),
{
    if models.len() == 0 {
        Seq::empty()
    } else {
        insert_entry(
            model_members(models.drop_last()),
            models.last().id@,
            JsonV::Object(seq![("name"@, JsonV::Str(models.last().name@))]),
        )
    }
}

/// The provider block that registers the pool in opencode.
pub open spec fn provider_block_view(base_url: Seq<char>, api_key: Seq<char>, models: Seq<ModelInfo>) -> JsonV {
    JsonV::Object(
        seq![
            ("npm"@, JsonV::Str("@ai-sdk/openai"@)),
            ("name"@, JsonV::Str("Underclass (pooled Codex + Copilot)"@)),
            (
                "options"@,
                JsonV::Object(
                    seq![
                        ("baseURL"@, JsonV::Str(base_url)),
                        ("apiKey"@, JsonV::Str(api_key)),
                        ("setCacheKey"@, JsonV::Bool(true)),
                    ],
                ),
            ),
            ("models"@, JsonV::Object(model_members(models))),
        ],
    )
}

/// The opencode provider block for the pool at `base_url`: the Responses adapter
/// (`@ai-sdk/openai`), the API root and key, prompt-cache keys switched on, and one entry
/// per model.
pub fn provider_block(base_url: &str, api_key: &str, models: &[ModelInfo]) -> (r: Json)
    ensures
        r@ == provider_block_view(base_url@, api_key@, models@),
{
    let mut model_entries: Vec<(String, Json)> = Vec::new();
    proof {
        lemma_entries_view(model_entries);
        assert(entries_view(model_entries) =~= model_members(models@.take(0)));
    }
    let mut i: usize = 0;
    while i < models.len()
        invariant
            i <= models@.len(),
            entries_view(model_entries) == model_members(models@.take(i as int)),
        decreases models@.len() - i,
    {
        let mut info: Vec<(String, Json)> = Vec::new();
        info.push((owned("name"), Json::Str(models[i].name.clone())));
        proof {
            lemma_entries_view(info);
            assert(entries_view(info) =~= seq![("name"@, JsonV::Str(models@[i as int].name@))]);
        }
        set_member(&mut model_entries, models[i].id.as_str(), object(info));
        proof {
            assert(models@.take(i + 1).drop_last() =~= models@.take(i as int));
        }
        i += 1;
    }
    assert(models@.take(i as int) =~= models@);
    let mut options: Vec<(String, Json)> = Vec::new();
    options.push((owned("baseURL"), Json::Str(owned(base_url))));
    options.push((owned("apiKey"), Json::Str(owned(api_key))));
    options.push((owned("setCacheKey"), Json::Bool(true)));
    let mut block: Vec<(String, Json)> = Vec::new();
    block.push((owned("npm"), Json::Str(owned("@ai-sdk/openai"))));
    block.push((owned("name"), Json::Str(owned("Underclass (pooled Codex + Copilot)"))));
    let options_json = object(options);
    proof {
        lemma_entries_view(options);
        assert(entries_view(options) =~= seq![
            ("baseURL"@, JsonV::Str(base_url@)),
            ("apiKey"@, JsonV::Str(api_key@)),
            ("setCacheKey"@, JsonV::Bool(true)),
        ]);
    }
    block.push((owned("options"), options_json));
    block.push((owned("models"), object(model_entries)));
    proof {
        lemma_entries_view(block);
        assert(entries_view(block) =~= provider_block_view(base_url@, api_key@, models@)->Object_0);
    }
    object(block)
}

/// The message of a `connect` that finds no API key for the pool.
pub open spec fn missing_key_message() -> Seq<char> {
    "no proxy api key found. pass --api-key, set UNDERCLASS_PROXY_KEY, or run 'underclass serve' once to mint one"@
}

/// The API key that `connect` configures: the one given on the command line, else a
/// non-empty `$UNDERCLASS_PROXY_KEY`, else the key stored by the server.
pub open spec fn chosen_api_key(
    explicit: Option<Seq<char>>,
    env_key: Option<Seq<char>>,
    stored_key: Option<Seq<char>>,
) -> Option<Seq<char>> {
    if explicit is Some {
        explicit
    } else if env_key is Some && env_key->0.len() > 0 {
        env_key
    } else {
        stored_key
    }
}

/// Finds the API key for `connect` (see [`chosen_api_key`]); `env_key` is
/// `$UNDERCLASS_PROXY_KEY` and `stored_key` the key the server stored.
pub fn resolve_api_key(args: &ConnectArgs, env_key: Option<&str>, stored_key: Option<&str>) -> (r:
    Result<String, String>)
    ensures
        match chosen_api_key(opt_string(args.api_key), opt_text(env_key), opt_text(stored_key)) {
            Some(k) => r matches Ok(s) && s@ == k,
            None => r matches Err(e) && e@ == missing_key_message(),
        },
{
    if let Some(key) = &args.api_key {
        return Ok(key.clone());
    }
    if let Some(key) = env_key {
        if !key.is_empty() {
            return Ok(owned(key));
        }
    }
    if let Some(key) = stored_key {
        return Ok(owned(key));
    }
    Err(owned(
        "no proxy api key found. pass --api-key, set UNDERCLASS_PROXY_KEY, or run 'underclass serve' once to mint one",
    ))
}

/// Whether a model with the id `id` is among `models`.
pub open spec fn lists_model(models: Seq<ModelInfo>, id: Seq<char>) -> bool {
    exists|i: int| 0 <= i < models.len() && #[trigger] models[i].id@ == id
}

/// The models of `extra` whose id is not among `known`, in order.
pub open spec fn unseen_models(extra: Seq<ModelInfo>, known: Seq<ModelInfo>) -> Seq<ModelInfo>
    decreases extra.len(),
{
    if extra.len() == 0 {
        Seq::empty()
    } else if lists_model(known, extra.last().id@) {
        unseen_models(extra.drop_last(), known)
    } else {
        unseen_models(extra.drop_last(), known).push(extra.last())
    }
}

fn model_listed(models: &Vec<ModelInfo>, id: &str) -> (r: bool)
    ensures
        r == lists_model(models@, id@),
{
    let mut i: usize = 0;
    while i < models.len()
        invariant
            i <= models@.len(),
            forall|j: int| 0 <= j < i ==> #[trigger] models@[j].id@ != id@,
        decreases models@.len() - i,
    {
        if crate::text::same_text(models[i].id.as_str(), id) {
            return true;
        }
        i += 1;
    }
    false
}

/// The catalog that `connect` offers: the Codex models, then the Copilot models whose id the
/// Codex catalog lacks; when both are empty, `fallback`.
pub fn combine_catalogs(codex: Vec<ModelInfo>, copilot: Vec<ModelInfo>, fallback: Vec<ModelInfo>) -> (r:
    Vec<ModelInfo>)
    ensures
        r@ == if codex@.len() + unseen_models(copilot@, codex@).len() == 0 {
            fallback@
        } else {
            codex@ + unseen_models(copilot@, codex@)
        },
{
    let ghost known = codex@;
    let ghost copilot_all = copilot@;
    proof {
        vstd::std_specs::vec::axiom_spec_len(&copilot);
    }
    let mut all = codex;
    let mut rest = copilot;
    let mut extra: Vec<ModelInfo> = Vec::new();
    let mut i: usize = 0;
    assert(copilot_all.skip(0) =~= copilot_all);
    while rest.len() > 0
        invariant
            all@ == known,
            i <= copilot_all.len(),
            copilot_all.len() <= usize::MAX,
            rest@ == copilot_all.skip(i as int),
            extra@ == unseen_models(copilot_all.take(i as int), known),
        decreases rest@.len(),
    {
        let m = rest.remove(0);
        assert(m == copilot_all[i as int]);
        assert(copilot_all.take(i + 1).drop_last() =~= copilot_all.take(i as int));
        assert(copilot_all.take(i + 1).last() == m);
        if !model_listed(&all, m.id.as_str()) {
            extra.push(m);
        }
        assert(rest@ =~= copilot_all.skip(i + 1));
        i += 1;
    }
    assert(copilot_all.take(i as int) =~= copilot_all);
    if all.len() == 0 && extra.len() == 0 {
        return fallback;
    }
    all.append(&mut extra);
    all
}


/// The default model that `connect` asks for: none with `--no-default-model`, else the
/// chosen model.
pub open spec fn requested_default_model(args: &ConnectArgs) -> Option<Seq<char>> {
    if args.no_default_model {
        None
    } else {
        Some(args.model@)
    }
}

/// What `connect` writes: the configuration with the pool's provider merged in (API root
/// derived from `--base-url`, key `api_key`, catalog `models`) and the credential store
/// with the pool's key set.
pub fn connect_documents(
    args: &ConnectArgs,
    api_key: &str,
    models: &[ModelInfo],
    config: Json,
    auth: Json,
) -> (r: (Json, Json))
    ensures
        r.0@ == merged_config(
            config@,
            provider_block_view(trim_trailing_slashes(args.base_url@) + "/v1"@, api_key@, models@),
            requested_default_model(args),
        ),
        r.1@ == merged_auth(auth@, api_key@),
{
    let base_url = api_base_url(args.base_url.as_str());
    let block = provider_block(base_url.as_str(), api_key, models);
    let mut updated = config;
    if args.no_default_model {
        merge_provider(&mut updated, &block, None);
    } else {
        merge_provider(&mut updated, &block, Some(args.model.as_str()));
    }
    let mut auth_doc = auth;
    merge_auth(&mut auth_doc, api_key);
    (updated, auth_doc)
}

/// The number of models that a `/models` reply lists: the length of its `data` array, or 0.
pub fn listed_model_count(body: &Json) -> (r: usize)
    ensures
        r == match lookup(object_entries(body@), "data"@) {
            Some(JsonV::Array(items)) => items.len(),
            _ => 0,
        },
{
    if let Json::Object(entries) = body {
        proof {
            lemma_entries_view(*entries);
        }
        if let Some(Json::Array(items)) = get_member(entries, "data") {
            proof {
                lemma_items_view(*items);
            }
            return items.len();
        }
    }
    0
}

/// Gives `connect` the configured proxy key when no key was passed on the command line; an
/// empty configured key counts as none, and a key given on the command line stays.
pub fn prefer_configured_proxy_key(args: &mut ConnectArgs, configured_key: Option<String>)
    ensures
        final(args).base_url == old(args).base_url,
        final(args).model == old(args).model,
        final(args).no_default_model == old(args).no_default_model,
        final(args).project == old(args).project,
        final(args).dry_run == old(args).dry_run,
        final(args).remove == old(args).remove,
        old(args).api_key is Some ==> final(args).api_key == old(args).api_key,
        old(args).api_key is None ==> match configured_key {
            Some(k) => if k@.len() > 0 {
                final(args).api_key == Some(k)
            } else {
                final(args).api_key is None
            },
            None => final(args).api_key is None,
        },
{
    if args.api_key.is_none() {
        args.api_key = match configured_key {
            Some(key) => if key.as_str().is_empty() {
                None
            } else {
                Some(key)
            },
            None => None,
        };
    }
}

} // verus!
