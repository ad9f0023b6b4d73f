//! OpenAI account exports: finding the OAuth credentials and turning them
//! into a cc-switch provider draft.

use vstd::prelude::*;
use crate::json::{
    get, get_str, json_parse, json_write, lemma_members_data, members_data, parse_json, sorted_doc,
    to_json_string, within_depth, writable_doc, JsonData, JsonValue,
};
use crate::pick::{
    key_path, key_path2, paths_view, pick_first, pick_first_string, pick_string, pick_string_exec,
};
use crate::provider::{ascii_lower, derive_oauth_provider_id, oauth_provider_id, sanitize, sanitize_provider_id, secret_hash, secret_hash_of};
use crate::text::{chars_of, normalize, normalize_non_empty};
use crate::error::{ErrorData, RepairError};
use crate::paths::{chosen_dir, dir_or_default};
use vstd::string::StringExecFns;

verus! {

/// What `str::eq_ignore_ascii_case` gives when `b` is ASCII: same length,
/// equal characters once ASCII letters are lower-cased.
pub open spec fn ascii_eq_ignore_case(a: Seq<char>, b: Seq<char>) -> bool {
    a.len() == b.len() && forall|i: int| 0 <= i < a.len() ==> ascii_lower(#[trigger] a[i]) == ascii_lower(b[i])
}

fn eq_ignore_ascii_case(a: &str, b: &str) -> (r: bool)
    ensures
        r == ascii_eq_ignore_case(a@, b@),
{
    let x = chars_of(a);
    let y = chars_of(b);
    if x.len() != y.len() {
        return false;
    }
    let mut i: usize = 0;
    while i < x.len()
        invariant
            i <= x.len() == y.len(),
            x@ == a@,
            y@ == b@,
            forall|j: int| 0 <= j < i ==> ascii_lower(#[trigger] x@[j]) == ascii_lower(y@[j]),
        decreases x.len() - i,
    {
        if crate::provider::to_ascii_lower(x[i]) != crate::provider::to_ascii_lower(y[i]) {
            return false;
        }
        i = i + 1;
    }
    true
}

/// An account of an export that is an OpenAI OAuth account, or does not say.
pub open spec fn is_openai_oauth_account(acc: JsonData) -> bool {
    &&& match get_str(acc, "platform"@) {
        Some(p) => ascii_eq_ignore_case(p, "openai"@),
        None => true,
    }
    &&& match get_str(acc, "type"@) {
        Some(k) => ascii_eq_ignore_case(k, "oauth"@),
        None => true,
    }
}

/// The first OpenAI OAuth account.
pub open spec fn first_oauth_account(accs: Seq<JsonData>) -> Option<JsonData>
    decreases accs.len(),
{
    if accs.len() == 0 {
        None
    } else if is_openai_oauth_account(accs[0]) {
        Some(accs[0])
    } else {
        first_oauth_account(accs.drop_first())
    }
}

/// The account whose credentials are imported: the first OpenAI OAuth
/// account of an `accounts` array, else its first account, else the
/// document itself.
pub open spec fn oauth_candidate(value: JsonData) -> JsonData {
    match get(value, "accounts"@) {
        Some(JsonData::Array(accs)) => match first_oauth_account(accs) {
            Some(a) => a,
            None => if accs.len() > 0 {
                accs[0]
            } else {
                value
            },
        },
        _ => value,
    }
}

fn oauth_candidate_exec(value: &JsonValue) -> (r: &JsonValue)
    ensures
        r@ == oauth_candidate(value@),
{
    match value.get("accounts") {
        Some(JsonValue::Array(accs)) => {
            let ghost d = crate::json::items_data(accs@);
            proof {
                crate::json::lemma_items_data(accs@);
                assert(d.skip(0) =~= d);
            }
            let mut i: usize = 0;
            while i < accs.len()
                invariant
                    i <= accs.len(),
                    d == crate::json::items_data(accs@),
                    d.len() == accs.len(),
                    forall|j: int| 0 <= j < accs.len() ==> #[trigger] d[j] == accs@[j]@,
                    first_oauth_account(d) == first_oauth_account(d.skip(i as int)),
                    get(value@, "accounts"@) == Some(JsonData::Array(d)),
                decreases accs.len() - i,
            {
                assert(d.skip(i as int)[0] == d[i as int]);
                assert(d.skip(i as int).drop_first() =~= d.skip(i + 1));
                let acc = &accs[i];
                let platform_ok = match acc.get_str("platform") {
                    Some(p) => eq_ignore_ascii_case(p.as_str(), "openai"),
                    None => true,
                };
                let kind_ok = match acc.get_str("type") {
                    Some(k) => eq_ignore_ascii_case(k.as_str(), "oauth"),
                    None => true,
                };
                if platform_ok && kind_ok {
                    return acc;
                }
                i = i + 1;
            }
            assert(d.skip(accs.len() as int) =~= Seq::<JsonData>::empty());
            if accs.len() > 0 {
                &accs[0]
            } else {
                value
            }
        },
        _ => value,
    }
}

pub open spec fn path1(a: Seq<char>) -> Seq<Seq<char>> {
    seq![a]
}

pub open spec fn path2(a: Seq<char>, b: Seq<char>) -> Seq<Seq<char>> {
    seq![a, b]
}

/// The fields read from an export.
pub struct OauthFields {
    pub access_token: Option<Seq<char>>,
    pub id_token: Option<Seq<char>>,
    pub session_token: Option<Seq<char>>,
    pub refresh_token: Option<Seq<char>>,
    pub account_id: Option<Seq<char>>,
    pub email: Option<Seq<char>>,
    pub name: Option<Seq<char>>,
    pub plan_type: Option<Seq<char>>,
    pub expired: Option<Seq<char>>,
    pub last_refresh: Option<Seq<char>>,
}

/// Reads the credential fields: tokens from the account's `credentials`,
/// the account, then the document; the other fields also from the
/// account's `extra` (else the document) before the account.
pub open spec fn oauth_fields(value: JsonData) -> OauthFields {
    let candidate = oauth_candidate(value);
    let credentials = match get(candidate, "credentials"@) {
        Some(c) => c,
        None => candidate,
    };
    let extra = match get(candidate, "extra"@) {
        Some(e) => e,
        None => value,
    };
    let token_sources = seq![credentials, candidate, value];
    let info_sources = seq![credentials, extra, candidate, value];
    OauthFields {
        access_token: pick_first(token_sources, seq![path1("access_token"@), path1("token"@)]),
        id_token: pick_first(token_sources, seq![path1("id_token"@), path1("idToken"@)]),
        session_token: pick_first(token_sources, seq![path1("session_token"@), path1("sessionToken"@)]),
        refresh_token: pick_first(token_sources, seq![path1("refresh_token"@), path1("refreshToken"@)]),
        account_id: pick_first(
            info_sources,
            seq![
                path1("chatgpt_account_id"@),
                path1("account_id"@),
                path1("workspace_id"@),
                path1("chatgpt_user_id"@),
            ],
        ),
        email: pick_first(info_sources, seq![path1("email"@), path1("name"@)]),
        name: pick_first(info_sources, seq![path1("name"@), path1("email"@)]),
        plan_type: pick_first(info_sources, seq![path1("chatgpt_plan_type"@), path1("plan_type"@)]),
        expired: pick_first(
            info_sources,
            seq![path1("expired"@), path1("expires_at"@), path1("expiresAt"@)],
        ),
        last_refresh: pick_first(info_sources, seq![path1("last_refresh"@), path1("lastRefresh"@)]),
    }
}

/// A member holding the text, where there is one.
pub open spec fn opt_member(key: Seq<char>, v: Option<Seq<char>>) -> Seq<(Seq<char>, JsonData)> {
    match v {
        Some(s) => seq![(key, JsonData::Str(s))],
        None => Seq::empty(),
    }
}

/// The `tokens` object, members in key order.
pub open spec fn tokens_members(f: OauthFields) -> Seq<(Seq<char>, JsonData)> {
    opt_member("access_token"@, f.access_token) + opt_member("account_id"@, f.account_id)
        + opt_member("chatgpt_account_id"@, f.account_id) + opt_member("email"@, f.email)
        + opt_member("expired"@, f.expired) + opt_member("id_token"@, f.id_token) + opt_member(
        "last_refresh"@,
        f.last_refresh,
    ) + opt_member("name"@, f.name) + opt_member("plan_type"@, f.plan_type) + opt_member(
        "refresh_token"@,
        f.refresh_token,
    ) + opt_member("session_token"@, f.session_token)
}

/// The Codex `auth` object: no API key, the expiry fields, and the tokens;
/// members in key order.
pub open spec fn auth_json(f: OauthFields) -> JsonData {
    JsonData::Object(
        seq![("OPENAI_API_KEY"@, JsonData::Null)] + opt_member("expired"@, f.expired) + opt_member(
            "last_refresh"@,
            f.last_refresh,
        ) + seq![("tokens"@, JsonData::Object(tokens_members(f)))],
    )
}

/// The member names stand in strictly increasing order.
pub open spec fn names_sorted(ms: Seq<(Seq<char>, JsonData)>) -> bool {
    forall|i: int, j: int| 0 <= i < j < ms.len() ==> crate::text::seq_lt(#[trigger] ms[i].0, #[trigger] ms[j].0)
}

/// Every member name comes before `k`.
pub open spec fn names_before(ms: Seq<(Seq<char>, JsonData)>, k: Seq<char>) -> bool {
    forall|i: int| 0 <= i < ms.len() ==> crate::text::seq_lt(#[trigger] ms[i].0, k)
}

proof fn lemma_append_member(ms: Seq<(Seq<char>, JsonData)>, extra: Seq<(Seq<char>, JsonData)>, k: Seq<char>, next: Seq<char>)
    requires
        names_sorted(ms),
        names_before(ms, k),
        extra.len() <= 1,
        extra.len() == 1 ==> extra[0].0 == k,
        crate::text::seq_lt(k, next),
    ensures
        names_sorted(ms + extra),
        names_before(ms + extra, next),
{
    let t = ms + extra;
    assert forall|i: int, j: int| 0 <= i < j < t.len() implies crate::text::seq_lt(#[trigger] t[i].0, #[trigger] t[j].0) by {
        if j >= ms.len() {
            assert(t[j].0 == k);
            assert(t[i] == ms[i]);
        } else {
            assert(t[i] == ms[i] && t[j] == ms[j]);
        }
    }
    assert forall|i: int| 0 <= i < t.len() implies crate::text::seq_lt(#[trigger] t[i].0, next) by {
        if i < ms.len() {
            assert(t[i] == ms[i]);
            crate::text::lemma_seq_lt_transitive(ms[i].0, k, next);
        }
    }
}

proof fn lemma_lit_order()
    ensures
        crate::text::seq_lt("access_token"@, "account_id"@),
        crate::text::seq_lt("account_id"@, "chatgpt_account_id"@),
        crate::text::seq_lt("chatgpt_account_id"@, "email"@),
        crate::text::seq_lt("email"@, "expired"@),
        crate::text::seq_lt("expired"@, "id_token"@),
        crate::text::seq_lt("id_token"@, "last_refresh"@),
        crate::text::seq_lt("last_refresh"@, "name"@),
        crate::text::seq_lt("name"@, "plan_type"@),
        crate::text::seq_lt("plan_type"@, "refresh_token"@),
        crate::text::seq_lt("refresh_token"@, "session_token"@),
        crate::text::seq_lt("session_token"@, "t"@),
        crate::text::seq_lt("OPENAI_API_KEY"@, "expired"@),
        crate::text::seq_lt("expired"@, "last_refresh"@),
        crate::text::seq_lt("last_refresh"@, "tokens"@),
        crate::text::seq_lt("tokens"@, "u"@),
        crate::text::seq_lt("auth"@, "config"@),
        crate::text::seq_lt("config"@, "d"@),
{
    reveal_strlit("access_token");
    reveal_strlit("account_id");
    reveal_strlit("chatgpt_account_id");
    reveal_strlit("email");
    reveal_strlit("expired");
    reveal_strlit("id_token");
    reveal_strlit("last_refresh");
    reveal_strlit("name");
    reveal_strlit("plan_type");
    reveal_strlit("refresh_token");
    reveal_strlit("session_token");
    reveal_strlit("t");
    reveal_strlit("OPENAI_API_KEY");
    reveal_strlit("tokens");
    reveal_strlit("u");
    reveal_strlit("auth");
    reveal_strlit("config");
    reveal_strlit("d");
    reveal_with_fuel(crate::text::seq_lt, 5);
}

proof fn lemma_tokens_sorted(f: OauthFields)
    ensures
        names_sorted(tokens_members(f)),
{
    lemma_lit_order();
    let e: Seq<(Seq<char>, JsonData)> = Seq::empty();
    let m1 = e + opt_member("access_token"@, f.access_token);
    lemma_append_member(e, opt_member("access_token"@, f.access_token), "access_token"@, "account_id"@);
    let m2 = m1 + opt_member("account_id"@, f.account_id);
    lemma_append_member(m1, opt_member("account_id"@, f.account_id), "account_id"@, "chatgpt_account_id"@);
    let m3 = m2 + opt_member("chatgpt_account_id"@, f.account_id);
    lemma_append_member(m2, opt_member("chatgpt_account_id"@, f.account_id), "chatgpt_account_id"@, "email"@);
    let m4 = m3 + opt_member("email"@, f.email);
    lemma_append_member(m3, opt_member("email"@, f.email), "email"@, "expired"@);
    let m5 = m4 + opt_member("expired"@, f.expired);
    lemma_append_member(m4, opt_member("expired"@, f.expired), "expired"@, "id_token"@);
    let m6 = m5 + opt_member("id_token"@, f.id_token);
    lemma_append_member(m5, opt_member("id_token"@, f.id_token), "id_token"@, "last_refresh"@);
    let m7 = m6 + opt_member("last_refresh"@, f.last_refresh);
    lemma_append_member(m6, opt_member("last_refresh"@, f.last_refresh), "last_refresh"@, "name"@);
    let m8 = m7 + opt_member("name"@, f.name);
    lemma_append_member(m7, opt_member("name"@, f.name), "name"@, "plan_type"@);
    let m9 = m8 + opt_member("plan_type"@, f.plan_type);
    lemma_append_member(m8, opt_member("plan_type"@, f.plan_type), "plan_type"@, "refresh_token"@);
    let m10 = m9 + opt_member("refresh_token"@, f.refresh_token);
    lemma_append_member(m9, opt_member("refresh_token"@, f.refresh_token), "refresh_token"@, "session_token"@);
    lemma_append_member(m10, opt_member("session_token"@, f.session_token), "session_token"@, "t"@);
    assert(e + opt_member("access_token"@, f.access_token) =~= opt_member("access_token"@, f.access_token));
}

/// The settings of an account import are a document that serde_json writes
/// and reads back.
pub proof fn lemma_account_settings_writable(f: OauthFields)
    ensures
        writable_doc(settings_config_json(auth_json(f))),
{
    lemma_lit_order();
    lemma_tokens_sorted(f);
    let tm = tokens_members(f);
    let e: Seq<(Seq<char>, JsonData)> = Seq::empty();
    let a0 = seq![("OPENAI_API_KEY"@, JsonData::Null)];
    lemma_append_member(e, a0, "OPENAI_API_KEY"@, "expired"@);
    assert(e + a0 =~= a0);
    let a1 = a0 + opt_member("expired"@, f.expired);
    lemma_append_member(a0, opt_member("expired"@, f.expired), "expired"@, "last_refresh"@);
    let a2 = a1 + opt_member("last_refresh"@, f.last_refresh);
    lemma_append_member(a1, opt_member("last_refresh"@, f.last_refresh), "last_refresh"@, "tokens"@);
    let a3 = a2 + seq![("tokens"@, JsonData::Object(tm))];
    lemma_append_member(a2, seq![("tokens"@, JsonData::Object(tm))], "tokens"@, "u"@);
    let tokens = JsonData::Object(tm);
    assert forall|i: int| #![trigger tm[i]] 0 <= i < tm.len() implies sorted_doc(tm[i].1) && within_depth(tm[i].1, 124) && tm[i].1 is Str by {
        assert(tm[i].1 is Str);
    }
    assert(sorted_doc(tokens));
    assert(within_depth(tokens, 125));
    let auth = auth_json(f);
    assert(auth == JsonData::Object(a3));
    assert forall|i: int| #![trigger a3[i]] 0 <= i < a3.len() implies sorted_doc(a3[i].1) && within_depth(a3[i].1, 125) by {
        if a3[i].1 != tokens {
            assert(a3[i].1 is Null || a3[i].1 is Str);
        }
    }
    assert(sorted_doc(auth));
    assert(within_depth(auth, 126));
    let top = seq![("auth"@, auth), ("config"@, JsonData::Str(Seq::empty()))];
    let t0 = seq![("auth"@, auth)];
    lemma_append_member(e, t0, "auth"@, "config"@);
    assert(e + t0 =~= t0);
    lemma_append_member(t0, seq![("config"@, JsonData::Str(Seq::empty()))], "config"@, "d"@);
    assert(t0 + seq![("config"@, JsonData::Str(Seq::empty()))] =~= top);
    assert(names_sorted(top));
    assert forall|i: int| #![trigger top[i]] 0 <= i < top.len() implies sorted_doc(top[i].1) && within_depth(top[i].1, 126) by {
        if i == 0 {
            assert(top[i].1 == auth);
        } else {
            assert(top[i].1 is Str);
        }
    }
    assert(settings_config_json(auth) == JsonData::Object(top));
    assert(sorted_doc(settings_config_json(auth)));
    assert(within_depth(settings_config_json(auth), 127));
}

/// The Codex OAuth `auth` object of an export, where it holds at least one
/// of the access, id, session or refresh tokens.
pub open spec fn codex_oauth_auth(value: JsonData) -> Option<JsonData> {
    let f = oauth_fields(value);
    if f.access_token is None && f.id_token is None && f.session_token is None
        && f.refresh_token is None {
        None
    } else {
        Some(auth_json(f))
    }
}


fn single_key_paths(keys: &Vec<&str>) -> (r: Vec<Vec<String>>)
    ensures
        paths_view(r@) == keys@.map_values(|k: &str| path1(k@)),
{
    let mut r: Vec<Vec<String>> = Vec::new();
    let mut i: usize = 0;
    while i < keys.len()
        invariant
            i <= keys.len(),
            paths_view(r@) == keys@.take(i as int).map_values(|k: &str| path1(k@)),
        decreases keys.len() - i,
    {
        let p = key_path(keys[i]);
        let ghost before = paths_view(r@);
        r.push(p);
        assert(paths_view(r@) =~= before.push(seq![keys@[i as int]@]));
        assert(keys@.take(i + 1).map_values(|k: &str| path1(k@)) =~= keys@.take(i as int).map_values(
            |k: &str| path1(k@),
        ).push(path1(keys@[i as int]@)));
        i = i + 1;
    }
    assert(keys@.take(keys.len() as int) =~= keys@);
    r
}

pub proof fn lemma_members_push(s: Seq<(String, JsonValue)>, x: (String, JsonValue))
    ensures
        members_data(s.push(x)) == members_data(s).push((x.0@, x.1@)),
{
    assert(s.push(x).subrange(0, s.len() as int) =~= s);
}

fn push_opt(ms: &mut Vec<(String, JsonValue)>, key: &str, v: &Option<String>)
    ensures
        members_data(final(ms)@) == members_data(old(ms)@) + opt_member(key@, opt_view(*v)),
{
    match v {
        Some(s) => {
            let x = (String::from_str(key), JsonValue::Str(s.clone()));
            proof {
                lemma_members_push(ms@, x);
            }
            ms.push(x);
            assert(members_data(ms@) =~= members_data(old(ms)@) + opt_member(key@, opt_view(*v)));
        },
        None => {
            assert(members_data(ms@) =~= members_data(old(ms)@) + opt_member(key@, opt_view(*v)));
        },
    }
}

pub open spec fn opt_view(o: Option<String>) -> Option<Seq<char>> {
    match o {
        Some(s) => Some(s@),
        None => None,
    }
}

/// The Codex OAuth `auth` object of an export (see [`codex_oauth_auth`]).
pub fn extract_codex_oauth_auth(value: &JsonValue) -> (r: Option<JsonValue>)
    ensures
        r matches Some(a) ==> codex_oauth_auth(value@) == Some(a@),
        r is None <==> codex_oauth_auth(value@) is None,
{
    let ghost f = oauth_fields(value@);
    let candidate = oauth_candidate_exec(value);
    let credentials = match candidate.get("credentials") {
        Some(c) => c,
        None => candidate,
    };
    let extra = match candidate.get("extra") {
        Some(e) => e,
        None => value,
    };
    let token_sources: Vec<&JsonValue> = vec![credentials, candidate, value];
    let info_sources: Vec<&JsonValue> = vec![credentials, extra, candidate, value];
    assert(token_sources@.map_values(|v: &JsonValue| v@) =~= seq![credentials@, candidate@, value@]);
    assert(info_sources@.map_values(|v: &JsonValue| v@) =~= seq![
        credentials@,
        extra@,
        candidate@,
        value@,
    ]);
    let p = single_key_paths(&vec!["access_token", "token"]);
    assert(paths_view(p@) =~= seq![path1("access_token"@), path1("token"@)]);
    let access_token = pick_first_string(&token_sources, &p);
    let p = single_key_paths(&vec!["id_token", "idToken"]);
    assert(paths_view(p@) =~= seq![path1("id_token"@), path1("idToken"@)]);
    let id_token = pick_first_string(&token_sources, &p);
    let p = single_key_paths(&vec!["session_token", "sessionToken"]);
    assert(paths_view(p@) =~= seq![path1("session_token"@), path1("sessionToken"@)]);
    let session_token = pick_first_string(&token_sources, &p);
    let p = single_key_paths(&vec!["refresh_token", "refreshToken"]);
    assert(paths_view(p@) =~= seq![path1("refresh_token"@), path1("refreshToken"@)]);
    let refresh_token = pick_first_string(&token_sources, &p);
    if access_token.is_none() && id_token.is_none() && session_token.is_none()
        && refresh_token.is_none() {
        return None;
    }
    let p = single_key_paths(
        &vec!["chatgpt_account_id", "account_id", "workspace_id", "chatgpt_user_id"],
    );
    assert(paths_view(p@) =~= seq![path1("chatgpt_account_id"@), path1("account_id"@), path1("workspace_id"@), path1("chatgpt_user_id"@)]);
    let account_id = pick_first_string(&info_sources, &p);
    let p = single_key_paths(&vec!["email", "name"]);
    assert(paths_view(p@) =~= seq![path1("email"@), path1("name"@)]);
    let email = pick_first_string(&info_sources, &p);
    let p = single_key_paths(&vec!["name", "email"]);
    assert(paths_view(p@) =~= seq![path1("name"@), path1("email"@)]);
    let name = pick_first_string(&info_sources, &p);
    let p = single_key_paths(&vec!["chatgpt_plan_type", "plan_type"]);
    assert(paths_view(p@) =~= seq![path1("chatgpt_plan_type"@), path1("plan_type"@)]);
    let plan_type = pick_first_string(&info_sources, &p);
    let p = single_key_paths(&vec!["expired", "expires_at", "expiresAt"]);
    assert(paths_view(p@) =~= seq![path1("expired"@), path1("expires_at"@), path1("expiresAt"@)]);
    let expired = pick_first_string(&info_sources, &p);
    let p = single_key_paths(&vec!["last_refresh", "lastRefresh"]);
    assert(paths_view(p@) =~= seq![path1("last_refresh"@), path1("lastRefresh"@)]);
    let last_refresh = pick_first_string(&info_sources, &p);
    assert(opt_view(access_token) == f.access_token);
    assert(opt_view(id_token) == f.id_token);
    assert(opt_view(session_token) == f.session_token);
    assert(opt_view(refresh_token) == f.refresh_token);
    assert(opt_view(account_id) == f.account_id);
    assert(opt_view(email) == f.email);
    assert(opt_view(name) == f.name);
    assert(opt_view(plan_type) == f.plan_type);
    assert(opt_view(expired) == f.expired);
    assert(opt_view(last_refresh) == f.last_refresh);

    let mut tokens: Vec<(String, JsonValue)> = Vec::new();
    assert(members_data(tokens@) =~= Seq::<(Seq<char>, JsonData)>::empty());
    push_opt(&mut tokens, "access_token", &access_token);
    push_opt(&mut tokens, "account_id", &account_id);
    push_opt(&mut tokens, "chatgpt_account_id", &account_id);
    push_opt(&mut tokens, "email", &email);
    push_opt(&mut tokens, "expired", &expired);
    push_opt(&mut tokens, "id_token", &id_token);
    push_opt(&mut tokens, "last_refresh", &last_refresh);
    push_opt(&mut tokens, "name", &name);
    push_opt(&mut tokens, "plan_type", &plan_type);
    push_opt(&mut tokens, "refresh_token", &refresh_token);
    push_opt(&mut tokens, "session_token", &session_token);
    assert(members_data(tokens@) =~= tokens_members(f));

    let mut auth: Vec<(String, JsonValue)> = Vec::new();
    let x = (String::from_str("OPENAI_API_KEY"), JsonValue::Null);
    proof {
        lemma_members_push(auth@, x);
    }
    auth.push(x);
    push_opt(&mut auth, "expired", &expired);
    push_opt(&mut auth, "last_refresh", &last_refresh);
    let ghost tv = JsonValue::Object(tokens)@;
    let x = (String::from_str("tokens"), JsonValue::Object(tokens));
    proof {
        lemma_members_push(auth@, x);
    }
    auth.push(x);
    assert(members_data(auth@) =~= seq![("OPENAI_API_KEY"@, JsonData::Null)] + opt_member(
        "expired"@,
        f.expired,
    ) + opt_member("last_refresh"@, f.last_refresh) + seq![("tokens"@, JsonData::Object(tokens_members(f)))]);
    Some(JsonValue::Object(auth))
}


/// `tokens` of an `auth` object, else `null`.
pub open spec fn tokens_of(auth: JsonData) -> JsonData {
    match get(auth, "tokens"@) {
        Some(t) => t,
        None => JsonData::Null,
    }
}

/// The account id of an import: from `auth`, its `tokens`, then the source
/// document.
pub open spec fn oauth_account_id(source: JsonData, auth: JsonData) -> Option<Seq<char>> {
    pick_first(
        seq![auth, tokens_of(auth), source],
        seq![
            path1("chatgpt_account_id"@),
            path1("account_id"@),
            path2("tokens"@, "chatgpt_account_id"@),
            path2("tokens"@, "account_id"@),
            path2("credentials"@, "chatgpt_account_id"@),
            path2("credentials"@, "account_id"@),
        ],
    )
}

/// The account name of an import: `name` or `email` of `auth` or its tokens.
pub open spec fn oauth_account_name(auth: JsonData) -> Option<Seq<char>> {
    pick_first(
        seq![auth, tokens_of(auth)],
        seq![path1("name"@), path1("email"@), path2("tokens"@, "name"@), path2("tokens"@, "email"@)],
    )
}

/// A provider name given by the export itself.
pub open spec fn provider_name_in(value: JsonData) -> Option<Seq<char>> {
    pick_string(
        value,
        seq![
            path1("providerName"@),
            path1("provider_name"@),
            path1("name"@),
            path1("label"@),
            path2("provider"@, "name"@),
        ],
    )
}

/// A model given by the export itself.
pub open spec fn model_in(value: JsonData) -> Option<Seq<char>> {
    pick_string(value, seq![path1("model"@), path1("defaultModel"@), path1("default_model"@)])
}

/// The account id of an import (see [`oauth_account_id`]).
pub fn extract_oauth_account_id(source: &JsonValue, auth: &JsonValue) -> (r: Option<String>)
    ensures
        r matches Some(t) ==> oauth_account_id(source@, auth@) == Some(t@),
        r is None <==> oauth_account_id(source@, auth@) is None,
{
    let null = JsonValue::Null;
    let tokens = match auth.get("tokens") {
        Some(t) => t,
        None => &null,
    };
    let values: Vec<&JsonValue> = vec![auth, tokens, source];
    assert(values@.map_values(|v: &JsonValue| v@) =~= seq![auth@, tokens_of(auth@), source@]);
    let mut paths: Vec<Vec<String>> = Vec::new();
    paths.push(key_path("chatgpt_account_id"));
    paths.push(key_path("account_id"));
    paths.push(key_path2("tokens", "chatgpt_account_id"));
    paths.push(key_path2("tokens", "account_id"));
    paths.push(key_path2("credentials", "chatgpt_account_id"));
    paths.push(key_path2("credentials", "account_id"));
    assert(paths_view(paths@) =~= seq![
        path1("chatgpt_account_id"@),
        path1("account_id"@),
        path2("tokens"@, "chatgpt_account_id"@),
        path2("tokens"@, "account_id"@),
        path2("credentials"@, "chatgpt_account_id"@),
        path2("credentials"@, "account_id"@),
    ]);
    pick_first_string(&values, &paths)
}

/// The account name of an import (see [`oauth_account_name`]).
pub fn extract_oauth_account_name(auth: &JsonValue) -> (r: Option<String>)
    ensures
        r matches Some(t) ==> oauth_account_name(auth@) == Some(t@),
        r is None <==> oauth_account_name(auth@) is None,
{
    let null = JsonValue::Null;
    let tokens = match auth.get("tokens") {
        Some(t) => t,
        None => &null,
    };
    let values: Vec<&JsonValue> = vec![auth, tokens];
    assert(values@.map_values(|v: &JsonValue| v@) =~= seq![auth@, tokens_of(auth@)]);
    let mut paths: Vec<Vec<String>> = Vec::new();
    paths.push(key_path("name"));
    paths.push(key_path("email"));
    paths.push(key_path2("tokens", "name"));
    paths.push(key_path2("tokens", "email"));
    assert(paths_view(paths@) =~= seq![
        path1("name"@),
        path1("email"@),
        path2("tokens"@, "name"@),
        path2("tokens"@, "email"@),
    ]);
    pick_first_string(&values, &paths)
}

/// A provider name given by the export (see [`provider_name_in`]).
pub fn extract_provider_name(value: &JsonValue) -> (r: Option<String>)
    ensures
        r matches Some(t) ==> provider_name_in(value@) == Some(t@),
        r is None <==> provider_name_in(value@) is None,
{
    let mut paths: Vec<Vec<String>> = Vec::new();
    paths.push(key_path("providerName"));
    paths.push(key_path("provider_name"));
    paths.push(key_path("name"));
    paths.push(key_path("label"));
    paths.push(key_path2("provider", "name"));
    assert(paths_view(paths@) =~= seq![
        path1("providerName"@),
        path1("provider_name"@),
        path1("name"@),
        path1("label"@),
        path2("provider"@, "name"@),
    ]);
    pick_string_exec(value, &paths)
}

/// A model given by the export (see [`model_in`]).
pub fn extract_model(value: &JsonValue) -> (r: Option<String>)
    ensures
        r matches Some(t) ==> model_in(value@) == Some(t@),
        r is None <==> model_in(value@) is None,
{
    let mut paths: Vec<Vec<String>> = Vec::new();
    paths.push(key_path("model"));
    paths.push(key_path("defaultModel"));
    paths.push(key_path("default_model"));
    assert(paths_view(paths@) =~= seq![path1("model"@), path1("defaultModel"@), path1("default_model"@)]);
    pick_string_exec(value, &paths)
}

/// The provider's settings: the `auth` object and an empty `config`.
pub open spec fn settings_config_json(auth: JsonData) -> JsonData {
    JsonData::Object(seq![("auth"@, auth), ("config"@, JsonData::Str(Seq::empty()))])
}

/// The provider's meta data, members in key order.
pub open spec fn meta_json() -> JsonData {
    JsonData::Object(
        seq![
            ("apiFormat"@, JsonData::Str("openai_responses"@)),
            ("commonConfigEnabled"@, JsonData::Bool(true)),
            ("endpointAutoSelect"@, JsonData::Bool(true)),
            ("importedBy"@, JsonData::Str("codex-history-repair"@)),
        ],
    )
}

/// The cc-switch settings of an OpenAI account provider.
pub fn build_cc_switch_openai_account_settings_config(auth: JsonValue) -> (r: JsonValue)
    ensures
        r@ == settings_config_json(auth@),
{
    let mut ms: Vec<(String, JsonValue)> = Vec::new();
    let ghost a = auth@;
    ms.push((String::from_str("auth"), auth));
    ms.push((String::from_str("config"), JsonValue::Str(String::new())));
    proof {
        lemma_members_data(ms@);
        assert(members_data(ms@) =~= seq![("auth"@, a), ("config"@, JsonData::Str(Seq::empty()))]);
    }
    JsonValue::Object(ms)
}

fn meta_value() -> (r: JsonValue)
    ensures
        r@ == meta_json(),
{
    let mut ms: Vec<(String, JsonValue)> = Vec::new();
    ms.push((String::from_str("apiFormat"), JsonValue::Str(String::from_str("openai_responses"))));
    ms.push((String::from_str("commonConfigEnabled"), JsonValue::Bool(true)));
    ms.push((String::from_str("endpointAutoSelect"), JsonValue::Bool(true)));
    ms.push(
        (String::from_str("importedBy"), JsonValue::Str(String::from_str("codex-history-repair"))),
    );
    proof {
        lemma_members_data(ms@);
        assert(members_data(ms@) =~= seq![
            ("apiFormat"@, JsonData::Str("openai_responses"@)),
            ("commonConfigEnabled"@, JsonData::Bool(true)),
            ("endpointAutoSelect"@, JsonData::Bool(true)),
            ("importedBy"@, JsonData::Str("codex-history-repair"@)),
        ]);
    }
    JsonValue::Object(ms)
}

/// What to import into cc-switch, and from where.
pub struct ProviderImportOptions {
    pub cc_switch_dir: String,
    pub provider_id: Option<String>,
    pub provider_name: Option<String>,
    pub base_url: Option<String>,
    pub api_key: Option<String>,
    pub api_format: Option<String>,
    pub model: Option<String>,
    pub json_text: Option<String>,
}

/// The options of an import whose cc-switch directory may be missing or
/// blank: then it is `default_cc_switch_dir`.
pub fn provider_options(
    cc_switch_dir: Option<String>,
    provider_id: Option<String>,
    provider_name: Option<String>,
    base_url: Option<String>,
    api_key: Option<String>,
    api_format: Option<String>,
    model: Option<String>,
    json_text: Option<String>,
    default_cc_switch_dir: String,
) -> (r: ProviderImportOptions)
    ensures
        r.cc_switch_dir@ == chosen_dir(opt_view(cc_switch_dir), default_cc_switch_dir@),
        r.provider_id == provider_id,
        r.provider_name == provider_name,
        r.base_url == base_url,
        r.api_key == api_key,
        r.api_format == api_format,
        r.model == model,
        r.json_text == json_text,
{
    ProviderImportOptions {
        cc_switch_dir: dir_or_default(cc_switch_dir, default_cc_switch_dir),
        provider_id,
        provider_name,
        base_url,
        api_key,
        api_format,
        model,
        json_text,
    }
}

/// A provider ready to be written into cc-switch.
pub struct ProviderImportDraft {
    pub provider_id: String,
    pub provider_name: String,
    pub import_kind: String,
    pub base_url: Option<String>,
    pub api_key: Option<String>,
    pub oauth_account_id: Option<String>,
    pub api_format: String,
    pub model: String,
    pub settings_config: JsonValue,
    pub meta: JsonValue,
}

/// The model of a [`ProviderImportDraft`].
pub struct DraftData {
    pub provider_id: Seq<char>,
    pub provider_name: Seq<char>,
    pub import_kind: Seq<char>,
    pub base_url: Option<Seq<char>>,
    pub api_key: Option<Seq<char>>,
    pub oauth_account_id: Option<Seq<char>>,
    pub api_format: Seq<char>,
    pub model: Seq<char>,
    pub settings_config: JsonData,
    pub meta: JsonData,
}

impl View for ProviderImportDraft {
    type V = DraftData;

    open spec fn view(&self) -> DraftData {
        DraftData {
            provider_id: self.provider_id@,
            provider_name: self.provider_name@,
            import_kind: self.import_kind@,
            base_url: opt_view(self.base_url),
            api_key: opt_view(self.api_key),
            oauth_account_id: opt_view(self.oauth_account_id),
            api_format: self.api_format@,
            model: self.model@,
            settings_config: self.settings_config@,
            meta: self.meta@,
        }
    }
}

pub open spec fn opt_normalize(o: Option<Seq<char>>) -> Option<Seq<char>> {
    match o {
        Some(s) => normalize(s),
        None => None,
    }
}

pub open spec fn first_some(a: Option<Seq<char>>, b: Option<Seq<char>>) -> Option<Seq<char>> {
    if a is Some {
        a
    } else {
        b
    }
}

pub open spec fn unwrap_or(a: Option<Seq<char>>, d: Seq<char>) -> Seq<char> {
    match a {
        Some(s) => s,
        None => d,
    }
}

/// The account id: found in the export, else `openai_account_` and the
/// first 8 hex digits of the SHA-256 of the `auth` object's JSON text.
pub open spec fn draft_account_id(value: JsonData, auth: JsonData) -> Seq<char> {
    unwrap_or(
        oauth_account_id(value, auth),
        "openai_account_"@ + secret_hash_of(json_write(auth)).take(8),
    )
}

/// The draft of an OpenAI account import: name given, else the account's
/// name, else the export's, else "OpenAI Account"; id given (sanitized),
/// else derived from name and account id; model given, else the export's,
/// else "gpt-5-codex".
pub open spec fn account_draft(
    value: JsonData,
    auth: JsonData,
    provider_id: Option<Seq<char>>,
    provider_name: Option<Seq<char>>,
    model: Option<Seq<char>>,
) -> DraftData {
    let account_id = draft_account_id(value, auth);
    let name = unwrap_or(
        first_some(
            first_some(opt_normalize(provider_name), oauth_account_name(auth)),
            provider_name_in(value),
        ),
        "OpenAI Account"@,
    );
    let id = match provider_id {
        Some(p) => match sanitize(p) {
            Some(s) => s,
            None => oauth_provider_id(name, account_id),
        },
        None => oauth_provider_id(name, account_id),
    };
    DraftData {
        provider_id: id,
        provider_name: name,
        import_kind: "openai_account"@,
        base_url: None,
        api_key: None,
        oauth_account_id: Some(account_id),
        api_format: "openai_responses"@,
        model: unwrap_or(first_some(opt_normalize(model), model_in(value)), "gpt-5-codex"@),
        settings_config: settings_config_json(auth),
        meta: meta_json(),
    }
}

/// The refusal given to anything but an OpenAI account export.
pub open spec fn unsupported_import_message() -> Seq<char> {
    "only CPA/cockpit/sub2api OpenAI account JSON imports are supported; base_url + API key import is intentionally disabled"@
}

/// The draft of an import: the JSON text (trimmed, where not blank) must
/// parse, and hold OpenAI OAuth credentials; anything else is refused.
pub open spec fn import_draft_result(
    json_text: Option<Seq<char>>,
    provider_id: Option<Seq<char>>,
    provider_name: Option<Seq<char>>,
    model: Option<Seq<char>>,
) -> Result<DraftData, ErrorData> {
    match opt_normalize(json_text) {
        Some(t) => match json_parse(t) {
            Err(m) => Err(ErrorData::JsonParse { path: "<import-json>"@, message: m }),
            Ok(v) => match codex_oauth_auth(v) {
                Some(auth) => Ok(account_draft(v, auth, provider_id, provider_name, model)),
                None => Err(ErrorData::ProviderImport(unsupported_import_message())),
            },
        },
        None => Err(ErrorData::ProviderImport(unsupported_import_message())),
    }
}

fn opt_normalize_exec(o: &Option<String>) -> (r: Option<String>)
    ensures
        opt_view(r) == opt_normalize(opt_view(*o)),
{
    match o {
        Some(s) => normalize_non_empty(s.as_str()),
        None => None,
    }
}

/// Turns an OpenAI account export into a provider draft (see
/// [`import_draft_result`]). The base URL and API key options are not
/// used: manual base URL and key imports are refused.
pub fn parse_provider_import_draft(options: &ProviderImportOptions) -> (r: Result<
    ProviderImportDraft,
    RepairError,
>)
    ensures
        import_draft_result(
            opt_view(options.json_text),
            opt_view(options.provider_id),
            opt_view(options.provider_name),
            opt_view(options.model),
        ) == match r {
            Ok(d) => Ok::<DraftData, ErrorData>(d@),
            Err(e) => Err::<DraftData, ErrorData>(e@),
        },
        r matches Ok(d) ==> writable_doc(d@.settings_config),
{
    let text = match opt_normalize_exec(&options.json_text) {
        Some(t) => t,
        None => {
            return Err(RepairError::ProviderImport(String::from_str(
                "only CPA/cockpit/sub2api OpenAI account JSON imports are supported; base_url + API key import is intentionally disabled",
            )));
        },
    };
    let value = match parse_json(text.as_str()) {
        Ok(v) => v,
        Err(m) => {
            return Err(RepairError::JsonParse { path: String::from_str("<import-json>"), message: m });
        },
    };
    let auth = match extract_codex_oauth_auth(&value) {
        Some(a) => a,
        None => {
            return Err(RepairError::ProviderImport(String::from_str(
                "only CPA/cockpit/sub2api OpenAI account JSON imports are supported; base_url + API key import is intentionally disabled",
            )));
        },
    };
    let account_id = match extract_oauth_account_id(&value, &auth) {
        Some(a) => a,
        None => {
            let hash = secret_hash(to_json_string(&auth).as_str());
            let mut a = String::from_str("openai_account_");
            crate::provider::push_prefix(&mut a, hash.as_str(), 8);
            a
        },
    };
    let provider_name = match opt_normalize_exec(&options.provider_name) {
        Some(n) => n,
        None => match extract_oauth_account_name(&auth) {
            Some(n) => n,
            None => match extract_provider_name(&value) {
                Some(n) => n,
                None => String::from_str("OpenAI Account"),
            },
        },
    };
    let provider_id = match &options.provider_id {
        Some(p) => match sanitize_provider_id(p.as_str()) {
            Some(s) => s,
            None => derive_oauth_provider_id(provider_name.as_str(), account_id.as_str()),
        },
        None => derive_oauth_provider_id(provider_name.as_str(), account_id.as_str()),
    };
    let model = match opt_normalize_exec(&options.model) {
        Some(m) => m,
        None => match extract_model(&value) {
            Some(m) => m,
            None => String::from_str("gpt-5-codex"),
        },
    };
    let settings_config = build_cc_switch_openai_account_settings_config(auth);
    let draft = ProviderImportDraft {
        provider_id,
        provider_name,
        import_kind: String::from_str("openai_account"),
        base_url: None,
        api_key: None,
        oauth_account_id: Some(account_id),
        api_format: String::from_str("openai_responses"),
        model,
        settings_config,
        meta: meta_value(),
    };
    proof {
        lemma_account_settings_writable(oauth_fields(value@));
    }
    Ok(draft)
}

} // verus!
