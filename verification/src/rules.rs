//! What single operations promise of their results, stated over all
//! inputs: the legacy buckets that are moved, the tokens an import keeps,
//! the thread name of an index entry, a new provider's sort index, and the
//! current provider that cc-switch's settings name.

use vstd::prelude::*;
use crate::cc_switch::{current_provider_id, max_sort_index, next_sort_index_of, settings_value, RowData};
use crate::json::{find_member, get, get_str, json_parse, JsonData};
use crate::import::{
    auth_json, import_draft_result, oauth_candidate, oauth_fields, opt_member, settings_config_json, tokens_members,
    OauthFields,
};
use crate::pick::{direct_pick, follow, pick_first, pick_string};
use crate::provider::{is_sync_source, legacy_ids};
use crate::text::{starts_with, trim};
use crate::index::{entry_of_text, scan_segments, scan_value, ScanState};

verus! {

/// Each bucket of cc-switch's legacy allowlist is moved into any target
/// but itself.
pub proof fn lemma_legacy_allowlist(target: Seq<char>)
    ensures
        target != "ccswitch"@ ==> is_sync_source("ccswitch"@, target),
        target != "aicodemirror"@ ==> is_sync_source("aicodemirror"@, target),
        target != "aicoding"@ ==> is_sync_source("aicoding"@, target),
        target != "aigocode"@ ==> is_sync_source("aigocode"@, target),
        target != "aihubmix"@ ==> is_sync_source("aihubmix"@, target),
        target != "ark_agentplan"@ ==> is_sync_source("ark_agentplan"@, target),
        target != "bailian"@ ==> is_sync_source("bailian"@, target),
        target != "bailing"@ ==> is_sync_source("bailing"@, target),
        target != "byteplus"@ ==> is_sync_source("byteplus"@, target),
        target != "claudecn"@ ==> is_sync_source("claudecn"@, target),
        target != "compshare"@ ==> is_sync_source("compshare"@, target),
        target != "compshare_coding"@ ==> is_sync_source("compshare_coding"@, target),
        target != "crazyrouter"@ ==> is_sync_source("crazyrouter"@, target),
        target != "ctok"@ ==> is_sync_source("ctok"@, target),
        target != "cubence"@ ==> is_sync_source("cubence"@, target),
        target != "deepseek"@ ==> is_sync_source("deepseek"@, target),
        target != "dmxapi"@ ==> is_sync_source("dmxapi"@, target),
        target != "doubaoseed"@ ==> is_sync_source("doubaoseed"@, target),
        target != "eflowcode"@ ==> is_sync_source("eflowcode"@, target),
        target != "kimi"@ ==> is_sync_source("kimi"@, target),
        target != "lemondata"@ ==> is_sync_source("lemondata"@, target),
        target != "longcat"@ ==> is_sync_source("longcat"@, target),
        target != "micu"@ ==> is_sync_source("micu"@, target),
        target != "minimax"@ ==> is_sync_source("minimax"@, target),
        target != "minimax_en"@ ==> is_sync_source("minimax_en"@, target),
        target != "modelscope"@ ==> is_sync_source("modelscope"@, target),
        target != "novita"@ ==> is_sync_source("novita"@, target),
        target != "nvidia"@ ==> is_sync_source("nvidia"@, target),
        target != "openrouter"@ ==> is_sync_source("openrouter"@, target),
        target != "packycode"@ ==> is_sync_source("packycode"@, target),
        target != "patewayai"@ ==> is_sync_source("patewayai"@, target),
        target != "pipellm"@ ==> is_sync_source("pipellm"@, target),
        target != "qianfan_coding"@ ==> is_sync_source("qianfan_coding"@, target),
        target != "relaxycode"@ ==> is_sync_source("relaxycode"@, target),
        target != "rightcode"@ ==> is_sync_source("rightcode"@, target),
        target != "runapi"@ ==> is_sync_source("runapi"@, target),
        target != "shengsuanyun"@ ==> is_sync_source("shengsuanyun"@, target),
        target != "siliconflow"@ ==> is_sync_source("siliconflow"@, target),
        target != "siliconflow_en"@ ==> is_sync_source("siliconflow_en"@, target),
        target != "sssaicode"@ ==> is_sync_source("sssaicode"@, target),
        target != "stepfun"@ ==> is_sync_source("stepfun"@, target),
        target != "stepfun_en"@ ==> is_sync_source("stepfun_en"@, target),
        target != "therouter"@ ==> is_sync_source("therouter"@, target),
        target != "xiaomi_mimo"@ ==> is_sync_source("xiaomi_mimo"@, target),
        target != "xiaomi_mimo_token_plan"@ ==> is_sync_source("xiaomi_mimo_token_plan"@, target),
        target != "zhipu_glm"@ ==> is_sync_source("zhipu_glm"@, target),
        target != "zhipu_glm_en"@ ==> is_sync_source("zhipu_glm_en"@, target),
{
    assert(legacy_ids()[0] == "ccswitch"@);
    assert(legacy_ids()[1] == "aicodemirror"@);
    assert(legacy_ids()[2] == "aicoding"@);
    assert(legacy_ids()[3] == "aigocode"@);
    assert(legacy_ids()[4] == "aihubmix"@);
    assert(legacy_ids()[5] == "ark_agentplan"@);
    assert(legacy_ids()[6] == "bailian"@);
    assert(legacy_ids()[7] == "bailing"@);
    assert(legacy_ids()[8] == "byteplus"@);
    assert(legacy_ids()[9] == "claudecn"@);
    assert(legacy_ids()[10] == "compshare"@);
    assert(legacy_ids()[11] == "compshare_coding"@);
    assert(legacy_ids()[12] == "crazyrouter"@);
    assert(legacy_ids()[13] == "ctok"@);
    assert(legacy_ids()[14] == "cubence"@);
    assert(legacy_ids()[15] == "deepseek"@);
    assert(legacy_ids()[16] == "dmxapi"@);
    assert(legacy_ids()[17] == "doubaoseed"@);
    assert(legacy_ids()[18] == "eflowcode"@);
    assert(legacy_ids()[19] == "kimi"@);
    assert(legacy_ids()[20] == "lemondata"@);
    assert(legacy_ids()[21] == "longcat"@);
    assert(legacy_ids()[22] == "micu"@);
    assert(legacy_ids()[23] == "minimax"@);
    assert(legacy_ids()[24] == "minimax_en"@);
    assert(legacy_ids()[25] == "modelscope"@);
    assert(legacy_ids()[26] == "novita"@);
    assert(legacy_ids()[27] == "nvidia"@);
    assert(legacy_ids()[28] == "openrouter"@);
    assert(legacy_ids()[29] == "packycode"@);
    assert(legacy_ids()[30] == "patewayai"@);
    assert(legacy_ids()[31] == "pipellm"@);
    assert(legacy_ids()[32] == "qianfan_coding"@);
    assert(legacy_ids()[33] == "relaxycode"@);
    assert(legacy_ids()[34] == "rightcode"@);
    assert(legacy_ids()[35] == "runapi"@);
    assert(legacy_ids()[36] == "shengsuanyun"@);
    assert(legacy_ids()[37] == "siliconflow"@);
    assert(legacy_ids()[38] == "siliconflow_en"@);
    assert(legacy_ids()[39] == "sssaicode"@);
    assert(legacy_ids()[40] == "stepfun"@);
    assert(legacy_ids()[41] == "stepfun_en"@);
    assert(legacy_ids()[42] == "therouter"@);
    assert(legacy_ids()[43] == "xiaomi_mimo"@);
    assert(legacy_ids()[44] == "xiaomi_mimo_token_plan"@);
    assert(legacy_ids()[45] == "zhipu_glm"@);
    assert(legacy_ids()[46] == "zhipu_glm_en"@);
}

proof fn lemma_max_sort_index(rows: Seq<RowData>)
    ensures
        max_sort_index(rows) matches Some(m) ==> (forall|i: int|
            0 <= i < rows.len() ==> (#[trigger] rows[i].sort_index matches Some(s) ==> s <= m)) && exists|i: int|
            0 <= i < rows.len() && #[trigger] rows[i].sort_index == Some(m),
        max_sort_index(rows) is None ==> forall|i: int| 0 <= i < rows.len() ==> (#[trigger] rows[i].sort_index is None),
    decreases rows.len(),
{
    if rows.len() > 0 {
        let p = rows.drop_last();
        let n = rows.len() - 1;
        lemma_max_sort_index(p);
        assert(rows.last() == rows[n]);
        if let Some(m) = max_sort_index(rows) {
            assert forall|i: int| 0 <= i < rows.len() implies (#[trigger] rows[i].sort_index matches Some(s) ==> s <= m) by {
                if i < n {
                    assert(p[i] == rows[i]);
                }
            }
            if rows[n].sort_index == Some(m) {
            } else {
                let pm = max_sort_index(p)->0;
                let j = choose|j: int| 0 <= j < p.len() && #[trigger] p[j].sort_index == Some(pm);
                assert(rows[j] == p[j]);
            }
        } else {
            assert forall|i: int| 0 <= i < rows.len() implies (#[trigger] rows[i].sort_index is None) by {
                if i < n {
                    assert(p[i] == rows[i]);
                }
            }
        }
    }
}

/// A new provider is placed after every Codex provider: its sort index is
/// one past the largest sort index of the rows (0 where no row has one),
/// so greater than each of them, where that largest index is below
/// `i64::MAX`.
pub proof fn lemma_new_provider_sorts_last(rows: Seq<RowData>)
    requires
        forall|i: int| 0 <= i < rows.len() ==> (#[trigger] rows[i].sort_index matches Some(s) ==> s < i64::MAX),
    ensures
        forall|i: int|
            0 <= i < rows.len() ==> (#[trigger] rows[i].sort_index matches Some(s) ==> s < next_sort_index_of(rows)),
        (exists|i: int| 0 <= i < rows.len() && (#[trigger] rows[i].sort_index) is Some) ==> exists|i: int|
            0 <= i < rows.len() && #[trigger] rows[i].sort_index == Some((next_sort_index_of(rows) - 1) as i64),
        (forall|i: int| 0 <= i < rows.len() ==> (#[trigger] rows[i].sort_index) is None) ==> next_sort_index_of(rows)
            == 0,
{
    lemma_max_sort_index(rows);
    if let Some(m) = max_sort_index(rows) {
        let j = choose|j: int| 0 <= j < rows.len() && #[trigger] rows[j].sort_index == Some(m);
        assert(m < i64::MAX);
    } else {
        if exists|i: int| 0 <= i < rows.len() && (#[trigger] rows[i].sort_index) is Some {
            let i = choose|i: int| 0 <= i < rows.len() && (#[trigger] rows[i].sort_index) is Some;
            assert(rows[i].sort_index is None);
        }
    }
}

/// Where cc-switch's settings text names the current Codex provider under
/// `currentProviderCodex` (a non-blank string), that name, trimmed, is the
/// current provider, whatever the database marks current.
pub proof fn lemma_settings_name_the_current_provider(
    settings_text: Seq<char>,
    settings: JsonData,
    rows: Option<Seq<RowData>>,
)
    requires
        json_parse(settings_text) == Ok::<JsonData, Seq<char>>(settings),
        get_str(settings, "currentProviderCodex"@) matches Some(s) && trim(s).len() > 0,
    ensures
        current_provider_id(settings_value(Some(settings_text)), rows) == Some(
            trim(get_str(settings, "currentProviderCodex"@)->0),
        ),
{
    let paths = seq![seq!["currentProviderCodex"@], seq!["current_provider_codex"@]];
    assert(paths[0] == seq!["currentProviderCodex"@]);
    assert(paths[0].drop_first() =~= Seq::<Seq<char>>::empty());
    let x = get(settings, "currentProviderCodex"@)->0;
    assert(crate::pick::follow(x, paths[0].drop_first()) == Some(x));
    assert(crate::pick::follow(settings, paths[0]) == Some(x));
    assert(crate::pick::direct_pick(settings, paths) == Some(trim(get_str(settings, "currentProviderCodex"@)->0)));
}

proof fn lemma_find_concat(a: Seq<(Seq<char>, JsonData)>, b: Seq<(Seq<char>, JsonData)>, k: Seq<char>)
    ensures
        find_member(a + b, k) == (match find_member(a, k) {
            Some(x) => Some(x),
            None => find_member(b, k),
        }),
    decreases a.len(),
{
    if a.len() > 0 {
        assert((a + b)[0] == a[0]);
        assert((a + b).drop_first() =~= a.drop_first() + b);
        lemma_find_concat(a.drop_first(), b, k);
    } else {
        assert(a + b =~= b);
    }
}

proof fn lemma_find_one(key: Seq<char>, x: JsonData, k: Seq<char>)
    ensures
        find_member(seq![(key, x)], k) == (if key == k {
            Some(x)
        } else {
            None
        }),
{
    let one = seq![(key, x)];
    assert(one[0] == (key, x));
    assert(one.drop_first() =~= Seq::<(Seq<char>, JsonData)>::empty());
    assert(find_member(one.drop_first(), k) is None);
}

proof fn lemma_find_opt(key: Seq<char>, v: Option<Seq<char>>, k: Seq<char>)
    ensures
        find_member(opt_member(key, v), k) == (if key == k && v is Some {
            Some(JsonData::Str(v->0))
        } else {
            None
        }),
{
    if let Some(t) = v {
        lemma_find_one(key, JsonData::Str(t), k);
    }
}

/// The text of an optional token, as a JSON string.
pub open spec fn token_member(v: Option<Seq<char>>) -> Option<JsonData> {
    match v {
        Some(t) => Some(JsonData::Str(t)),
        None => None,
    }
}

proof fn lemma_find_tokens(f: OauthFields, k: Seq<char>)
    requires
        k == "access_token"@ || k == "id_token"@ || k == "refresh_token"@ || k == "session_token"@,
    ensures
        find_member(tokens_members(f), k) == (if k == "access_token"@ {
            token_member(f.access_token)
        } else if k == "id_token"@ {
            token_member(f.id_token)
        } else if k == "refresh_token"@ {
            token_member(f.refresh_token)
        } else {
            token_member(f.session_token)
        }),
{
    reveal_strlit("access_token");
    reveal_strlit("account_id");
    reveal_strlit("chatgpt_account_id");
    reveal_strlit("email");
    reveal_strlit("expired");
    reveal_strlit("id_token");
    reveal_strlit("last_refresh");
    reveal_strlit("name");
    reveal_strlit("plan_type");
    reveal_strlit("refresh_token");
    reveal_strlit("session_token");
    assert("access_token"@[0] == 'a' && "account_id"@[0] == 'a' && "chatgpt_account_id"@[0] == 'c');
    assert("email"@[0] == 'e' && "expired"@[0] == 'e' && "id_token"@[0] == 'i' && "last_refresh"@[0] == 'l');
    assert("name"@[0] == 'n' && "plan_type"@[0] == 'p' && "refresh_token"@[0] == 'r' && "session_token"@[0] == 's');
    assert("access_token"@[2] == 'c' && "account_id"@[2] == 'c' && "access_token"@[3] == 'e' && "account_id"@[3] == 'o');
    let o1 = opt_member("access_token"@, f.access_token);
    let o2 = opt_member("account_id"@, f.account_id);
    let o3 = opt_member("chatgpt_account_id"@, f.account_id);
    let o4 = opt_member("email"@, f.email);
    let o5 = opt_member("expired"@, f.expired);
    let o6 = opt_member("id_token"@, f.id_token);
    let o7 = opt_member("last_refresh"@, f.last_refresh);
    let o8 = opt_member("name"@, f.name);
    let o9 = opt_member("plan_type"@, f.plan_type);
    let o10 = opt_member("refresh_token"@, f.refresh_token);
    let o11 = opt_member("session_token"@, f.session_token);
    lemma_find_opt("access_token"@, f.access_token, k);
    lemma_find_opt("account_id"@, f.account_id, k);
    lemma_find_opt("chatgpt_account_id"@, f.account_id, k);
    lemma_find_opt("email"@, f.email, k);
    lemma_find_opt("expired"@, f.expired, k);
    lemma_find_opt("id_token"@, f.id_token, k);
    lemma_find_opt("last_refresh"@, f.last_refresh, k);
    lemma_find_opt("name"@, f.name, k);
    lemma_find_opt("plan_type"@, f.plan_type, k);
    lemma_find_opt("refresh_token"@, f.refresh_token, k);
    lemma_find_opt("session_token"@, f.session_token, k);
    lemma_find_concat(o1, o2, k);
    lemma_find_concat(o1 + o2, o3, k);
    lemma_find_concat(o1 + o2 + o3, o4, k);
    lemma_find_concat(o1 + o2 + o3 + o4, o5, k);
    lemma_find_concat(o1 + o2 + o3 + o4 + o5, o6, k);
    lemma_find_concat(o1 + o2 + o3 + o4 + o5 + o6, o7, k);
    lemma_find_concat(o1 + o2 + o3 + o4 + o5 + o6 + o7, o8, k);
    lemma_find_concat(o1 + o2 + o3 + o4 + o5 + o6 + o7 + o8, o9, k);
    lemma_find_concat(o1 + o2 + o3 + o4 + o5 + o6 + o7 + o8 + o9, o10, k);
    lemma_find_concat(o1 + o2 + o3 + o4 + o5 + o6 + o7 + o8 + o9 + o10, o11, k);
}

proof fn lemma_tokens_of_auth(f: OauthFields)
    ensures
        get(auth_json(f), "tokens"@) == Some(JsonData::Object(tokens_members(f))),
        get(settings_config_json(auth_json(f)), "auth"@) == Some(auth_json(f)),
{
    reveal_strlit("OPENAI_API_KEY");
    reveal_strlit("expired");
    reveal_strlit("last_refresh");
    reveal_strlit("tokens");
    assert("OPENAI_API_KEY"@[0] == 'O' && "expired"@[0] == 'e' && "last_refresh"@[0] == 'l' && "tokens"@[0] == 't');
    let k = "tokens"@;
    let a0 = seq![("OPENAI_API_KEY"@, JsonData::Null)];
    let a1 = opt_member("expired"@, f.expired);
    let a2 = opt_member("last_refresh"@, f.last_refresh);
    let a3 = seq![("tokens"@, JsonData::Object(tokens_members(f)))];
    lemma_find_one("OPENAI_API_KEY"@, JsonData::Null, k);
    lemma_find_opt("expired"@, f.expired, k);
    lemma_find_opt("last_refresh"@, f.last_refresh, k);
    lemma_find_one("tokens"@, JsonData::Object(tokens_members(f)), k);
    lemma_find_concat(a0, a1, k);
    lemma_find_concat(a0 + a1, a2, k);
    lemma_find_concat(a0 + a1 + a2, a3, k);
}

proof fn lemma_first_source_picks(sources: Seq<JsonData>, paths: Seq<Seq<Seq<char>>>, key: Seq<char>)
    requires
        sources.len() > 0,
        paths.len() > 0,
        paths[0] == seq![key],
        get_str(sources[0], key) matches Some(s) && trim(s).len() > 0,
    ensures
        pick_first(sources, paths) == Some(trim(get_str(sources[0], key)->0)),
{
    let x = get(sources[0], key)->0;
    assert(paths[0].drop_first() =~= Seq::<Seq<char>>::empty());
    assert(follow(x, paths[0].drop_first()) == Some(x));
    assert(follow(sources[0], paths[0]) == Some(x));
    assert(direct_pick(sources[0], paths) == Some(trim(get_str(sources[0], key)->0)));
    assert(pick_string(sources[0], paths) == Some(trim(get_str(sources[0], key)->0)));
}

/// The credentials an import reads tokens from first: the chosen
/// account's `credentials` member, else the account itself.
pub open spec fn credentials_of(value: JsonData) -> JsonData {
    match get(oauth_candidate(value), "credentials"@) {
        Some(c) => c,
        None => oauth_candidate(value),
    }
}

/// An import keeps the tokens it is given: where the credentials of the
/// chosen account hold a non-blank string `access_token`, `id_token`,
/// `refresh_token` or `session_token`, the import succeeds and the draft's
/// Codex `auth.tokens` holds that member, trimmed.
pub proof fn lemma_import_keeps_tokens(
    json_text: Seq<char>,
    value: JsonData,
    key: Seq<char>,
    provider_id: Option<Seq<char>>,
    provider_name: Option<Seq<char>>,
    model: Option<Seq<char>>,
)
    requires
        trim(json_text).len() > 0,
        json_parse(trim(json_text)) == Ok::<JsonData, Seq<char>>(value),
        key == "access_token"@ || key == "id_token"@ || key == "refresh_token"@ || key == "session_token"@,
        get_str(credentials_of(value), key) matches Some(s) && trim(s).len() > 0,
    ensures
        import_draft_result(Some(json_text), provider_id, provider_name, model) matches Ok(d) && get(
            d.settings_config,
            "auth"@,
        ) matches Some(auth) && get(auth, "tokens"@) matches Some(tokens) && get_str(tokens, key) == Some(
            trim(get_str(credentials_of(value), key)->0),
        ),
{
    let f = oauth_fields(value);
    let c = oauth_candidate(value);
    let sources = seq![credentials_of(value), c, value];
    assert(sources[0] == credentials_of(value));
    let t = trim(get_str(credentials_of(value), key)->0);
    if key == "access_token"@ {
        lemma_first_source_picks(sources, seq![crate::import::path1("access_token"@), crate::import::path1("token"@)], key);
        assert(f.access_token == Some(t));
    } else if key == "id_token"@ {
        lemma_first_source_picks(sources, seq![crate::import::path1("id_token"@), crate::import::path1("idToken"@)], key);
        assert(f.id_token == Some(t));
    } else if key == "refresh_token"@ {
        lemma_first_source_picks(
            sources,
            seq![crate::import::path1("refresh_token"@), crate::import::path1("refreshToken"@)],
            key,
        );
        assert(f.refresh_token == Some(t));
    } else {
        lemma_first_source_picks(
            sources,
            seq![crate::import::path1("session_token"@), crate::import::path1("sessionToken"@)],
            key,
        );
        assert(f.session_token == Some(t));
    }
    lemma_tokens_of_auth(f);
    lemma_find_tokens(f, key);
}

/// The text of a history record that is a user's message with plain text
/// content.
pub open spec fn user_message_text(v: JsonData) -> Option<Seq<char>> {
    if get_str(v, "type"@) == Some("response_item"@) {
        match get(v, "payload"@) {
            Some(p) => if get_str(p, "type"@) == Some("message"@) && get_str(p, "role"@) == Some("user"@) {
                match get(p, "content"@) {
                    Some(JsonData::Str(c)) => Some(c),
                    _ => None,
                }
            } else {
                None
            },
            None => None,
        }
    } else {
        None
    }
}

/// A thread name that a user message may give: trimmed, not blank, and not
/// text that Codex injects (`AGENTS.md` or the environment context).
pub open spec fn fit_thread_name(n: Seq<char>) -> bool {
    &&& n.len() > 0
    &&& trim(n) == n
    &&& !starts_with(n, "<environment_context>"@)
    &&& !starts_with(n, "# AGENTS.md"@)
}

/// Reading one record of a session: a thread name, once set, stays; a name
/// it sets is fit to be one (never injected text); and the first user
/// message whose trimmed text is fit sets it.
pub proof fn lemma_thread_name_of_record(st: ScanState, v: JsonData)
    ensures
        st.thread_name is Some ==> scan_value(st, v).thread_name == st.thread_name,
        st.thread_name is None && scan_value(st, v).thread_name is Some ==> fit_thread_name(
            scan_value(st, v).thread_name->0,
        ),
        st.thread_name is None && user_message_text(v) is Some && fit_thread_name(
            trim(user_message_text(v)->0),
        ) ==> scan_value(st, v).thread_name == Some(trim(user_message_text(v)->0)),
{
    reveal_strlit("response_item");
    reveal_strlit("session_meta");
    assert("response_item"@.len() != "session_meta"@.len());
    if let Some(p) = get(v, "payload"@) {
        crate::laws::lemma_normalize_idempotent(crate::index::index_text(get(p, "content"@)));
    }
}

proof fn lemma_thread_name_of_lines(segs: Seq<(Seq<char>, bool)>)
    ensures
        scan_segments(segs).thread_name matches Some(n) ==> fit_thread_name(n),
    decreases segs.len(),
{
    if segs.len() > 0 {
        lemma_thread_name_of_lines(segs.drop_last());
        let st = scan_segments(segs.drop_last());
        if let Ok(v) = json_parse(crate::session::line_of(segs.last())) {
            lemma_thread_name_of_record(st, v);
        }
    }
}

/// The thread name of a derived index entry is never text that Codex
/// injects, unless it is the session id or the name of the working
/// directory: a name taken from the user's messages is always fit.
pub proof fn lemma_entry_thread_name(t: Seq<char>, cwd_name: Option<Seq<char>>, now: Seq<char>)
    ensures
        entry_of_text(t, cwd_name, now) matches Some(e) ==> (fit_thread_name(e.thread_name) || e.thread_name
            == e.id || cwd_name == Some(e.thread_name)),
{
    lemma_thread_name_of_lines(crate::text::segments(t));
}

} // verus!
