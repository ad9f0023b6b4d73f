//! cc-switch: which Codex provider is current, where Codex lives, and how
//! an imported account is written into cc-switch's provider table.

use vstd::prelude::*;
use crate::import::{oauth_account_id, opt_view, extract_oauth_account_id, DraftData, ProviderImportDraft};
use crate::pick::follow;
use crate::json::{
    get, get_str, json_parse, parse_json, same_but_numbers, to_json_string, writable_doc, JsonData, JsonValue,
};
use crate::pick::{key_path, paths_view, pick_string, pick_string_exec};
use crate::text::{normalize, normalize_non_empty, str_eq};
use vstd::string::StringExecFns;

verus! {

/// A row of cc-switch's `providers` table for the Codex app, as read; a
/// `NULL` column is `None`.
pub struct ProviderRow {
    pub id: String,
    pub name: Option<String>,
    pub settings_config: Option<String>,
    pub meta: Option<String>,
    pub is_current: bool,
    pub sort_index: Option<i64>,
}

/// The model of a [`ProviderRow`].
pub struct RowData {
    pub id: Seq<char>,
    pub name: Option<Seq<char>>,
    pub settings_config: Option<Seq<char>>,
    pub meta: Option<Seq<char>>,
    pub is_current: bool,
    pub sort_index: Option<i64>,
}

impl View for ProviderRow {
    type V = RowData;

    open spec fn view(&self) -> RowData {
        RowData {
            id: self.id@,
            name: opt_view(self.name),
            settings_config: opt_view(self.settings_config),
            meta: opt_view(self.meta),
            is_current: self.is_current,
            sort_index: self.sort_index,
        }
    }
}

pub open spec fn rows_view(rows: Seq<ProviderRow>) -> Seq<RowData> {
    rows.map_values(|r: ProviderRow| r@)
}

/// What was found of cc-switch on disk: its paths, whether its database
/// and settings exist, the settings text (where it could be read) and the
/// Codex provider rows in table order (where the database could be read).
pub struct CcSwitchSnapshot {
    pub cc_switch_dir: String,
    pub db_path: String,
    pub settings_path: String,
    pub db_exists: bool,
    pub settings_exists: bool,
    pub settings_text: Option<String>,
    pub providers: Option<Vec<ProviderRow>>,
}

/// What is known of cc-switch.
pub struct CcSwitchDetection {
    pub cc_switch_dir: String,
    pub db_path: String,
    pub settings_path: String,
    pub db_exists: bool,
    pub settings_exists: bool,
    pub codex_override_dir: Option<String>,
    pub current_codex_provider_id: Option<String>,
    pub current_codex_provider_name: Option<String>,
}

/// The parsed settings, where their text parses.
pub open spec fn settings_value(settings_text: Option<Seq<char>>) -> Option<JsonData> {
    match settings_text {
        Some(t) => match json_parse(t) {
            Ok(v) => Some(v),
            Err(_) => None,
        },
        None => None,
    }
}

pub open spec fn pick_in(v: Option<JsonData>, a: Seq<char>, b: Seq<char>) -> Option<Seq<char>> {
    match v {
        Some(x) => pick_string(x, seq![seq![a], seq![b]]),
        None => None,
    }
}

/// The id of the first row marked current.
pub open spec fn first_current(rows: Seq<RowData>) -> Option<Seq<char>>
    decreases rows.len(),
{
    if rows.len() == 0 {
        None
    } else if rows[0].is_current {
        Some(rows[0].id)
    } else {
        first_current(rows.drop_first())
    }
}

/// The first row with the id.
pub open spec fn row_with_id(rows: Seq<RowData>, id: Seq<char>) -> Option<RowData>
    decreases rows.len(),
{
    if rows.len() == 0 {
        None
    } else if rows[0].id == id {
        Some(rows[0])
    } else {
        row_with_id(rows.drop_first(), id)
    }
}

pub open spec fn db_rows(db_exists: bool, providers: Option<Seq<RowData>>) -> Option<Seq<RowData>> {
    if db_exists {
        providers
    } else {
        None
    }
}

/// The current Codex provider id: from the settings, else from the
/// database's current row.
pub open spec fn current_provider_id(
    settings: Option<JsonData>,
    rows: Option<Seq<RowData>>,
) -> Option<Seq<char>> {
    match pick_in(settings, "currentProviderCodex"@, "current_provider_codex"@) {
        Some(id) => Some(id),
        None => match rows {
            Some(r) => first_current(r),
            None => None,
        },
    }
}

/// The name that the database gives the provider.
pub open spec fn provider_name_of(rows: Option<Seq<RowData>>, id: Seq<char>) -> Option<Seq<char>> {
    match rows {
        Some(r) => match row_with_id(r, id) {
            Some(row) => row.name,
            None => None,
        },
        None => None,
    }
}

fn first_current_exec(rows: &Vec<ProviderRow>) -> (r: Option<&String>)
    ensures
        r matches Some(s) ==> first_current(rows_view(rows@)) == Some(s@),
        r is None <==> first_current(rows_view(rows@)) is None,
{
    let ghost rv = rows_view(rows@);
    let mut i: usize = 0;
    assert(rv.skip(0) =~= rv);
    while i < rows.len()
        invariant
            i <= rows.len(),
            rv == rows_view(rows@),
            rv.len() == rows.len(),
            first_current(rv) == first_current(rv.skip(i as int)),
        decreases rows.len() - i,
    {
        assert(rv.skip(i as int)[0] == rows@[i as int]@);
        assert(rv.skip(i as int).drop_first() =~= rv.skip(i + 1));
        if rows[i].is_current {
            return Some(&rows[i].id);
        }
        i = i + 1;
    }
    assert(rv.skip(rows.len() as int) =~= Seq::<RowData>::empty());
    None
}

fn row_with_id_exec<'a>(rows: &'a Vec<ProviderRow>, id: &str) -> (r: Option<&'a ProviderRow>)
    ensures
        r matches Some(x) ==> row_with_id(rows_view(rows@), id@) == Some(x@),
        r is None <==> row_with_id(rows_view(rows@), id@) is None,
{
    let ghost rv = rows_view(rows@);
    let mut i: usize = 0;
    assert(rv.skip(0) =~= rv);
    while i < rows.len()
        invariant
            i <= rows.len(),
            rv == rows_view(rows@),
            rv.len() == rows.len(),
            row_with_id(rv, id@) == row_with_id(rv.skip(i as int), id@),
        decreases rows.len() - i,
    {
        assert(rv.skip(i as int)[0] == rows@[i as int]@);
        assert(rv.skip(i as int).drop_first() =~= rv.skip(i + 1));
        if str_eq(rows[i].id.as_str(), id) {
            return Some(&rows[i]);
        }
        i = i + 1;
    }
    assert(rv.skip(rows.len() as int) =~= Seq::<RowData>::empty());
    None
}

pub open spec fn providers_view(p: Option<Vec<ProviderRow>>) -> Option<Seq<RowData>> {
    match p {
        Some(v) => Some(rows_view(v@)),
        None => None,
    }
}

fn pick_in_exec(v: &Option<JsonValue>, a: &str, b: &str) -> (r: Option<String>)
    ensures
        opt_view(r) == pick_in(
            match v {
                Some(x) => Some(x@),
                None => None,
            },
            a@,
            b@,
        ),
{
    match v {
        Some(x) => {
            let mut paths: Vec<Vec<String>> = Vec::new();
            paths.push(key_path(a));
            paths.push(key_path(b));
            assert(paths_view(paths@) =~= seq![seq![a@], seq![b@]]);
            pick_string_exec(x, &paths)
        },
        None => None,
    }
}

fn settings_value_exec(settings_text: &Option<String>) -> (r: Option<JsonValue>)
    ensures
        match r {
            Some(x) => Some(x@),
            None => None,
        } == settings_value(opt_view(*settings_text)),
{
    match settings_text {
        Some(t) => match parse_json(t.as_str()) {
            Ok(v) => Some(v),
            Err(_) => None,
        },
        None => None,
    }
}

fn clone_opt(o: Option<&String>) -> (r: Option<String>)
    ensures
        opt_view(r) == match o {
            Some(s) => Some(s@),
            None => None,
        },
{
    match o {
        Some(s) => Some(s.clone()),
        None => None,
    }
}

/// Detects cc-switch from what was found on disk: the Codex directory that
/// its settings name, its current Codex provider (from the settings, else
/// the database) and that provider's name in the database.
pub fn detect_cc_switch(snapshot: &CcSwitchSnapshot) -> (r: CcSwitchDetection)
    ensures
        r.cc_switch_dir@ == snapshot.cc_switch_dir@,
        r.db_path@ == snapshot.db_path@,
        r.settings_path@ == snapshot.settings_path@,
        r.db_exists == snapshot.db_exists,
        r.settings_exists == snapshot.settings_exists,
        opt_view(r.codex_override_dir) == pick_in(
            settings_value(opt_view(snapshot.settings_text)),
            "codexConfigDir"@,
            "codex_config_dir"@,
        ),
        opt_view(r.current_codex_provider_id) == current_provider_id(
            settings_value(opt_view(snapshot.settings_text)),
            db_rows(snapshot.db_exists, providers_view(snapshot.providers)),
        ),
        opt_view(r.current_codex_provider_name) == match opt_view(r.current_codex_provider_id) {
            Some(id) => provider_name_of(db_rows(snapshot.db_exists, providers_view(snapshot.providers)), id),
            None => None,
        },
{
    let settings = settings_value_exec(&snapshot.settings_text);
    let codex_override_dir = pick_in_exec(&settings, "codexConfigDir", "codex_config_dir");
    let from_settings = pick_in_exec(&settings, "currentProviderCodex", "current_provider_codex");
    let current_codex_provider_id = match from_settings {
        Some(id) => Some(id),
        None => if snapshot.db_exists {
            match &snapshot.providers {
                Some(rows) => clone_opt(first_current_exec(rows)),
                None => None,
            }
        } else {
            None
        },
    };
    let current_codex_provider_name = match &current_codex_provider_id {
        Some(id) => if snapshot.db_exists {
            match &snapshot.providers {
                Some(rows) => match row_with_id_exec(rows, id.as_str()) {
                    Some(row) => clone_opt(row.name.as_ref()),
                    None => None,
                },
                None => None,
            }
        } else {
            None
        },
        None => None,
    };
    CcSwitchDetection {
        cc_switch_dir: snapshot.cc_switch_dir.clone(),
        db_path: snapshot.db_path.clone(),
        settings_path: snapshot.settings_path.clone(),
        db_exists: snapshot.db_exists,
        settings_exists: snapshot.settings_exists,
        codex_override_dir,
        current_codex_provider_id,
        current_codex_provider_name,
    }
}

/// The Codex directory to repair by default: the one that cc-switch's
/// settings name, else `default_codex_dir`.
pub fn resolve_default_codex_dir(detection: &CcSwitchDetection, default_codex_dir: String) -> (r: String)
    ensures
        r@ == match opt_view(detection.codex_override_dir) {
            Some(d) => d,
            None => default_codex_dir@,
        },
{
    match &detection.codex_override_dir {
        Some(d) => d.clone(),
        None => default_codex_dir,
    }
}


/// Names what toml_edit gives for a top-level key of a TOML text: the
/// string value of that item, where the text parses as a document
/// (`DocumentMut`) and the item is a string.
pub uninterp spec fn toml_string_item(text: Seq<char>, key: Seq<char>) -> Option<Seq<char>>;

/// Parses `text` as a `toml_edit::DocumentMut` and reads the string value
/// of the top-level item `key` (`Table::get`, then `Item::as_str`), as
/// [`toml_string_item`] names it; `None` where the text does not parse or
/// the item is missing or not a string.
#[verifier::external_body]
fn toml_string_value(text: &str, key: &str) -> (r: Option<String>)
    ensures
        opt_view(r) == toml_string_item(text@, key@),
{
    let doc = match text.parse::<toml_edit::DocumentMut>() {
        Ok(doc) => doc,
        Err(_) => return None,
    };
    match doc.get(key) {
        Some(item) => item.as_str().map(str::to_string),
        None => None,
    }
}

/// The `model_provider` that a Codex TOML configuration sets, where it is
/// not blank.
pub open spec fn model_provider_in_toml(text: Seq<char>) -> Option<Seq<char>> {
    match toml_string_item(text, "model_provider"@) {
        Some(s) => normalize(s),
        None => None,
    }
}

/// The `model_provider` that a Codex configuration sets (see
/// [`model_provider_in_toml`]).
pub fn active_model_provider_from_toml(config_text: &str) -> (r: Option<String>)
    ensures
        opt_view(r) == model_provider_in_toml(config_text@),
{
    match toml_string_value(config_text, "model_provider") {
        Some(s) => normalize_non_empty(s.as_str()),
        None => None,
    }
}

/// The Codex configuration text stored with a cc-switch provider: the
/// `config` string of its settings JSON.
pub open spec fn stored_config(settings_config: Option<Seq<char>>) -> Option<Seq<char>> {
    match settings_config {
        Some(t) => match json_parse(t) {
            Ok(v) => get_str(v, "config"@),
            Err(_) => None,
        },
        None => None,
    }
}

/// The model provider of cc-switch's current Codex provider: read from the
/// configuration stored with it; `None` without a database.
pub open spec fn cc_switch_model_provider(
    db_exists: bool,
    settings_text: Option<Seq<char>>,
    providers: Option<Seq<RowData>>,
) -> Option<Seq<char>> {
    let rows = db_rows(db_exists, providers);
    if !db_exists {
        None
    } else {
        match current_provider_id(settings_value(settings_text), rows) {
            None => None,
            Some(id) => match provider_config_of(rows, id) {
                Some(config) => model_provider_in_toml(config),
                None => None,
            },
        }
    }
}

pub open spec fn provider_config_of(rows: Option<Seq<RowData>>, id: Seq<char>) -> Option<Seq<char>> {
    match rows {
        Some(r) => match row_with_id(r, id) {
            Some(row) => stored_config(row.settings_config),
            None => None,
        },
        None => None,
    }
}

/// The model provider of cc-switch's current Codex provider (see
/// [`cc_switch_model_provider`]).
pub fn active_codex_model_provider_id_from_cc_switch(snapshot: &CcSwitchSnapshot) -> (r: Option<String>)
    ensures
        opt_view(r) == cc_switch_model_provider(
            snapshot.db_exists,
            opt_view(snapshot.settings_text),
            providers_view(snapshot.providers),
        ),
{
    if !snapshot.db_exists {
        return None;
    }
    let detected = detect_cc_switch(snapshot);
    let provider_id = match detected.current_codex_provider_id {
        Some(id) => id,
        None => {
            return None;
        },
    };
    let rows = match &snapshot.providers {
        Some(rows) => rows,
        None => {
            return None;
        },
    };
    let row = match row_with_id_exec(rows, provider_id.as_str()) {
        Some(row) => row,
        None => {
            return None;
        },
    };
    let settings_text = match &row.settings_config {
        Some(t) => t,
        None => {
            return None;
        },
    };
    let settings = match parse_json(settings_text.as_str()) {
        Ok(v) => v,
        Err(_) => {
            return None;
        },
    };
    match settings.get_str("config") {
        Some(config) => active_model_provider_from_toml(config.as_str()),
        None => None,
    }
}

/// The target bucket and where it came from: the explicit choice
/// (trimmed, where not blank), else cc-switch's current provider, else the
/// Codex configuration, else `openai`.
pub open spec fn target_provider(
    explicit: Option<Seq<char>>,
    cc_switch: Option<Seq<char>>,
    codex_config: Option<Seq<char>>,
) -> (Seq<char>, Seq<char>) {
    match match explicit {
        Some(e) => normalize(e),
        None => None,
    } {
        Some(v) => (v, "explicit"@),
        None => match cc_switch {
            Some(v) => (v, "cc_switch_current_provider"@),
            None => match match codex_config {
                Some(t) => model_provider_in_toml(t),
                None => None,
            } {
                Some(v) => (v, "codex_config"@),
                None => ("openai"@, "default"@),
            },
        },
    }
}

/// Chooses the target bucket (see [`target_provider`]); `codex_config_text`
/// is the text of Codex's `config.toml`, where it exists and could be read.
pub fn resolve_target_provider_id(
    explicit: Option<&str>,
    cc_switch: &CcSwitchSnapshot,
    codex_config_text: Option<&str>,
) -> (r: (String, String))
    ensures
        (r.0@, r.1@) == target_provider(
            match explicit {
                Some(e) => Some(e@),
                None => None,
            },
            cc_switch_model_provider(
                cc_switch.db_exists,
                opt_view(cc_switch.settings_text),
                providers_view(cc_switch.providers),
            ),
            match codex_config_text {
                Some(t) => Some(t@),
                None => None,
            },
        ),
{
    if let Some(e) = explicit {
        if let Some(v) = normalize_non_empty(e) {
            return (v, String::from_str("explicit"));
        }
    }
    if let Some(v) = active_codex_model_provider_id_from_cc_switch(cc_switch) {
        return (v, String::from_str("cc_switch_current_provider"));
    }
    if let Some(t) = codex_config_text {
        if let Some(v) = active_model_provider_from_toml(t) {
            return (v, String::from_str("codex_config"));
        }
    }
    (String::from_str("openai"), String::from_str("default"))
}


/// A text parsed as JSON, else `null`.
pub open spec fn parse_or_null(text: Seq<char>) -> JsonData {
    match json_parse(text) {
        Ok(v) => v,
        Err(_) => JsonData::Null,
    }
}

/// The account a provider row is bound to by its meta data:
/// `authBinding.accountId`, else `githubAccountId`.
pub open spec fn bound_account(meta: JsonData) -> Option<Seq<char>> {
    match match follow(meta, seq!["authBinding"@, "accountId"@]) {
        Some(x) => crate::json::as_str(x),
        None => None,
    } {
        Some(a) => Some(a),
        None => get_str(meta, "githubAccountId"@),
    }
}

/// A provider row that holds the account: bound to it by its meta data, or
/// carrying it in the `auth` of its settings.
pub open spec fn row_holds_account(row: RowData, account: Seq<char>) -> bool {
    let meta = parse_or_null(match row.meta {
        Some(m) => m,
        None => Seq::empty(),
    });
    let settings = parse_or_null(match row.settings_config {
        Some(s) => s,
        None => Seq::empty(),
    });
    let auth = match get(settings, "auth"@) {
        Some(a) => a,
        None => JsonData::Null,
    };
    bound_account(meta) == Some(account) || oauth_account_id(auth, auth) == Some(account)
}

/// The id of the first row that holds the account.
pub open spec fn row_for_account(rows: Seq<RowData>, account: Seq<char>) -> Option<Seq<char>>
    decreases rows.len(),
{
    if rows.len() == 0 {
        None
    } else if row_holds_account(rows[0], account) {
        Some(rows[0].id)
    } else {
        row_for_account(rows.drop_first(), account)
    }
}

fn parse_or_null_exec(text: Option<&String>) -> (r: JsonValue)
    ensures
        r@ == parse_or_null(match text {
            Some(t) => t@,
            None => Seq::empty(),
        }),
{
    let t = match text {
        Some(t) => t.clone(),
        None => String::new(),
    };
    match parse_json(t.as_str()) {
        Ok(v) => v,
        Err(_) => JsonValue::Null,
    }
}

fn row_holds_account_exec(row: &ProviderRow, account: &str) -> (r: bool)
    ensures
        r == row_holds_account(row@, account@),
{
    let meta = parse_or_null_exec(row.meta.as_ref());
    let bound = match meta.get("authBinding") {
        Some(b) => match b.get("accountId") {
            Some(x) => x.as_str(),
            None => None,
        },
        None => None,
    };
    proof {
        assert(follow(meta@, seq!["authBinding"@, "accountId"@]) == match get(meta@, "authBinding"@) {
            Some(b) => get(b, "accountId"@),
            None => None,
        }) by {
            reveal_with_fuel(follow, 3);
            let p = seq!["authBinding"@, "accountId"@];
            assert(p.drop_first() =~= seq!["accountId"@]);
            assert(p.drop_first().drop_first() =~= Seq::<Seq<char>>::empty());
        }
    }
    let bound = match bound {
        Some(a) => Some(a),
        None => meta.get_str("githubAccountId"),
    };
    let bound_matches = match bound {
        Some(a) => str_eq(a.as_str(), account),
        None => false,
    };
    if bound_matches {
        return true;
    }
    let settings = parse_or_null_exec(row.settings_config.as_ref());
    let null = JsonValue::Null;
    let auth = match settings.get("auth") {
        Some(a) => a,
        None => &null,
    };
    match extract_oauth_account_id(auth, auth) {
        Some(a) => str_eq(a.as_str(), account),
        None => false,
    }
}

/// The first Codex provider that holds the account (see
/// [`row_for_account`]).
pub fn find_existing_oauth_provider_id(rows: &Vec<ProviderRow>, account: &str) -> (r: Option<String>)
    ensures
        opt_view(r) == row_for_account(rows_view(rows@), account@),
{
    let ghost rv = rows_view(rows@);
    let mut i: usize = 0;
    assert(rv.skip(0) =~= rv);
    while i < rows.len()
        invariant
            i <= rows.len(),
            rv == rows_view(rows@),
            rv.len() == rows.len(),
            row_for_account(rv, account@) == row_for_account(rv.skip(i as int), account@),
        decreases rows.len() - i,
    {
        assert(rv.skip(i as int)[0] == rows@[i as int]@);
        assert(rv.skip(i as int).drop_first() =~= rv.skip(i + 1));
        if row_holds_account_exec(&rows[i], account) {
            return Some(rows[i].id.clone());
        }
        i = i + 1;
    }
    assert(rv.skip(rows.len() as int) =~= Seq::<RowData>::empty());
    None
}

pub open spec fn has_row(rows: Seq<RowData>, id: Seq<char>) -> bool {
    row_with_id(rows, id) is Some
}

/// The provider that an import updates: the row with the draft's id, else
/// (for an account import) the row that holds its account.
pub open spec fn existing_provider(rows: Seq<RowData>, d: DraftData) -> Option<Seq<char>> {
    if has_row(rows, d.provider_id) {
        Some(d.provider_id)
    } else if d.import_kind == "openai_account"@ {
        match d.oauth_account_id {
            Some(a) => row_for_account(rows, a),
            None => None,
        }
    } else {
        None
    }
}

/// The provider that an import updates (see [`existing_provider`]).
pub fn find_existing_provider_id(rows: &Vec<ProviderRow>, draft: &ProviderImportDraft) -> (r: Option<String>)
    ensures
        opt_view(r) == existing_provider(rows_view(rows@), draft@),
{
    if row_with_id_exec(rows, draft.provider_id.as_str()).is_some() {
        return Some(draft.provider_id.clone());
    }
    if str_eq(draft.import_kind.as_str(), "openai_account") {
        return match &draft.oauth_account_id {
            Some(a) => find_existing_oauth_provider_id(rows, a.as_str()),
            None => None,
        };
    }
    None
}

/// The provider row that an import writes: the existing provider (see
/// [`existing_provider`]), else a new row with the draft's id.
pub open spec fn import_target(rows: Seq<RowData>, d: DraftData) -> Seq<char> {
    match existing_provider(rows, d) {
        Some(e) => e,
        None => d.provider_id,
    }
}

/// Whether an import creates its row rather than updating one.
pub open spec fn import_creates(rows: Seq<RowData>, d: DraftData) -> bool {
    import_target(rows, d) == d.provider_id && !has_row(rows, import_target(rows, d))
}

/// The largest sort index among the rows that have one.
pub open spec fn max_sort_index(rows: Seq<RowData>) -> Option<i64>
    decreases rows.len(),
{
    if rows.len() == 0 {
        None
    } else {
        let rest = max_sort_index(rows.drop_last());
        match rows.last().sort_index {
            Some(s) => match rest {
                Some(m) => if s > m {
                    Some(s)
                } else {
                    Some(m)
                },
                None => Some(s),
            },
            None => rest,
        }
    }
}

/// The sort index of a new provider: one past the largest (0 without any),
/// and 0 where that does not fit an `i64`.
pub open spec fn next_sort_index_of(rows: Seq<RowData>) -> i64 {
    match max_sort_index(rows) {
        Some(m) => if m < i64::MAX {
            (m + 1) as i64
        } else {
            0
        },
        None => 0,
    }
}

/// The sort index of a new provider (see [`next_sort_index_of`]).
pub fn next_sort_index(rows: &Vec<ProviderRow>) -> (r: i64)
    ensures
        r == next_sort_index_of(rows_view(rows@)),
{
    let ghost rv = rows_view(rows@);
    let mut best: Option<i64> = None;
    let mut i: usize = 0;
    assert(rv.take(0) =~= Seq::<RowData>::empty());
    while i < rows.len()
        invariant
            i <= rows.len(),
            rv == rows_view(rows@),
            rv.len() == rows.len(),
            best == max_sort_index(rv.take(i as int)),
        decreases rows.len() - i,
    {
        assert(rv.take(i + 1).drop_last() =~= rv.take(i as int));
        assert(rv.take(i + 1).last() == rows@[i as int]@);
        match rows[i].sort_index {
            Some(s) => {
                best = match best {
                    Some(m) => if s > m {
                        Some(s)
                    } else {
                        Some(m)
                    },
                    None => Some(s),
                };
            },
            None => {},
        }
        i = i + 1;
    }
    assert(rv.take(rows.len() as int) =~= rv);
    match best {
        Some(m) => if m < i64::MAX {
            m + 1
        } else {
            0
        },
        None => 0,
    }
}

/// The values written for the imported provider's row.
pub struct ProviderRowWrite {
    pub id: String,
    pub name: String,
    pub settings_config: String,
    pub website_url: Option<String>,
    pub category: String,
    pub created_at: i64,
    pub sort_index: i64,
    pub notes: String,
    pub icon: String,
    pub icon_color: String,
    pub meta: String,
    pub is_current: bool,
}

/// What an import did.
pub struct ProviderImportOutcome {
    pub cc_switch_db_path: String,
    pub provider_id: String,
    pub provider_name: String,
    pub import_kind: String,
    pub base_url: Option<String>,
    pub oauth_account_id: Option<String>,
    pub api_format: String,
    pub created: bool,
    pub updated: bool,
    pub backup_path: Option<String>,
    pub oauth_store_path: Option<String>,
    pub message: String,
}

/// The row to write and the outcome to report.
pub struct ProviderImportPlan {
    pub row: ProviderRowWrite,
    pub outcome: ProviderImportOutcome,
}

/// Plans writing a draft into cc-switch's providers: the row of the
/// existing provider (see [`existing_provider`]) is updated, else a new row
/// is created with the next sort index; an account import goes to the
/// "official" category with the ChatGPT Codex site; the new or updated row
/// is never made the current provider. The settings written read back as
/// the draft's, where serde_json can write and read them back.
pub fn import_cc_switch_provider(
    draft: &ProviderImportDraft,
    rows: &Vec<ProviderRow>,
    db_path: &str,
    backup_path: Option<String>,
    now_millis: i64,
) -> (r: ProviderImportPlan)
    ensures
        ({
            let rv = rows_view(rows@);
            let d = draft@;
            let id = import_target(rv, d);
            let created = import_creates(rv, d);
            let account = d.import_kind == "openai_account"@;
            &&& r.row.id@ == id
            &&& r.row.name@ == d.provider_name
            &&& r.row.settings_config@ == crate::json::json_write(d.settings_config)
            &&& r.row.meta@ == crate::json::json_write(d.meta)
            &&& r.row.category@ == (if account { "official"@ } else { "custom"@ })
            &&& opt_view(r.row.website_url) == (if account { Some("https://chatgpt.com/codex"@) } else { None })
            &&& r.row.created_at == now_millis
            &&& r.row.sort_index == next_sort_index_of(rv)
            &&& r.row.notes@ == "Imported by codex-history-repair"@
            &&& r.row.icon@ == "openai"@
            &&& r.row.icon_color@ == "#00A67E"@
            &&& !r.row.is_current
            &&& r.outcome.cc_switch_db_path@ == db_path@
            &&& r.outcome.provider_id@ == id
            &&& r.outcome.provider_name@ == d.provider_name
            &&& r.outcome.import_kind@ == d.import_kind
            &&& opt_view(r.outcome.base_url) == d.base_url
            &&& opt_view(r.outcome.oauth_account_id) == d.oauth_account_id
            &&& r.outcome.api_format@ == d.api_format
            &&& r.outcome.created == created
            &&& r.outcome.updated == !created
            &&& opt_view(r.outcome.backup_path) == opt_view(backup_path)
            &&& r.outcome.oauth_store_path is None
            &&& r.outcome.message@ == (if created {
                "OpenAI account imported into cc-switch. It was not switched on automatically."@
            } else {
                "OpenAI account updated in cc-switch. Current provider was not changed."@
            })
        }),
        writable_doc(draft@.settings_config) ==> (json_parse(r.row.settings_config@) is Ok && same_but_numbers(
            draft@.settings_config,
            json_parse(r.row.settings_config@)->Ok_0,
        )),
{
    let existing = find_existing_provider_id(rows, draft);
    let provider_id = match existing {
        Some(e) => e,
        None => draft.provider_id.clone(),
    };
    let created = str_eq(provider_id.as_str(), draft.provider_id.as_str()) && row_with_id_exec(
        rows,
        provider_id.as_str(),
    ).is_none();
    let account = str_eq(draft.import_kind.as_str(), "openai_account");
    let row = ProviderRowWrite {
        id: provider_id.clone(),
        name: draft.provider_name.clone(),
        settings_config: to_json_string(&draft.settings_config),
        website_url: if account {
            Some(String::from_str("https://chatgpt.com/codex"))
        } else {
            None
        },
        category: if account {
            String::from_str("official")
        } else {
            String::from_str("custom")
        },
        created_at: now_millis,
        sort_index: next_sort_index(rows),
        notes: String::from_str("Imported by codex-history-repair"),
        icon: String::from_str("openai"),
        icon_color: String::from_str("#00A67E"),
        meta: to_json_string(&draft.meta),
        is_current: false,
    };
    let outcome = ProviderImportOutcome {
        cc_switch_db_path: String::from_str(db_path),
        provider_id,
        provider_name: draft.provider_name.clone(),
        import_kind: draft.import_kind.clone(),
        base_url: clone_opt(draft.base_url.as_ref()),
        oauth_account_id: clone_opt(draft.oauth_account_id.as_ref()),
        api_format: draft.api_format.clone(),
        created,
        updated: !created,
        backup_path,
        oauth_store_path: None,
        message: if created {
            String::from_str(
                "OpenAI account imported into cc-switch. It was not switched on automatically.",
            )
        } else {
            String::from_str("OpenAI account updated in cc-switch. Current provider was not changed.")
        },
    };
    ProviderImportPlan { row, outcome }
}

} // verus!
