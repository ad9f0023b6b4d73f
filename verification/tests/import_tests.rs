use codex_history_repair::cc_switch::{import_cc_switch_provider, ProviderRow};
use codex_history_repair::error::RepairError;
use codex_history_repair::import::{parse_provider_import_draft, provider_options, ProviderImportOptions};
use codex_history_repair::json::JsonValue;

fn default_options() -> ProviderImportOptions {
    let home = dirs::home_dir().unwrap_or_else(|| std::path::PathBuf::from("~"));
    let dir = home.join(".cc-switch").to_string_lossy().into_owned();
    provider_options(None, None, None, None, None, None, None, None, dir)
}

fn with_json(text: &str) -> ProviderImportOptions {
    ProviderImportOptions { json_text: Some(text.to_string()), ..default_options() }
}

fn path<'a>(v: &'a JsonValue, keys: &[&str]) -> Option<&'a JsonValue> {
    let mut cur = v;
    for k in keys {
        cur = cur.get(k)?;
    }
    Some(cur)
}

fn path_str(v: &JsonValue, keys: &[&str]) -> Option<String> {
    path(v, keys).and_then(|x| x.as_str()).cloned()
}

fn is_null(v: &JsonValue, keys: &[&str]) -> bool {
    matches!(path(v, keys), None | Some(JsonValue::Null))
}

#[test]
fn rejects_base_url_api_key_provider_import() {
    let options = with_json(
        r#"{
                    "providerName": "Sub2API",
                    "apiBaseUrl": "https://sub2api.example.com/v1/",
                    "OPENAI_API_KEY": "sk-test",
                    "integrationType": "sub2api",
                    "models": [{"model": "gpt-5-codex"}]
                }"#,
    );
    let error = match parse_provider_import_draft(&options) {
        Err(e) => e,
        Ok(_) => panic!("reject"),
    };
    assert!(error
        .message()
        .contains("only CPA/cockpit/sub2api OpenAI account JSON imports are supported"));
}

#[test]
fn parses_cpa_codex_oauth_json_without_base_url() {
    let draft = match parse_provider_import_draft(&with_json(
        r#"{
                    "type": "codex",
                    "account_id": "00000000-0000-4000-9000-000000000000",
                    "chatgpt_account_id": "00000000-0000-4000-9000-000000000000",
                    "email": "mark@example.com",
                    "name": "mark@example.com",
                    "plan_type": "plus",
                    "id_token": "id-token",
                    "access_token": "access-token",
                    "refresh_token": "refresh-token",
                    "session_token": "session-token",
                    "last_refresh": "2026-06-06T09:11:35.028Z",
                    "expired": "2026-08-06T14:29:36.155Z"
                }"#,
    )) {
        Ok(d) => d,
        Err(e) => panic!("parse cpa: {}", e.message()),
    };

    assert_eq!(draft.import_kind, "openai_account");
    assert_eq!(draft.oauth_account_id.as_deref(), Some("00000000-0000-4000-9000-000000000000"));
    assert_eq!(draft.provider_name, "mark@example.com");
    assert!(draft.base_url.is_none());
    assert!(is_null(&draft.settings_config, &["auth", "OPENAI_API_KEY"]));
    assert_eq!(
        path_str(&draft.settings_config, &["auth", "tokens", "access_token"]).as_deref(),
        Some("access-token")
    );
    assert_eq!(path_str(&draft.settings_config, &["config"]).as_deref(), Some(""));
    assert!(matches!(path(&draft.meta, &["endpointAutoSelect"]), Some(JsonValue::Bool(true))));
    assert!(draft.meta.get("providerType").is_none());
}

#[test]
fn parses_sub2api_oauth_export_account() {
    let draft = match parse_provider_import_draft(&with_json(
        r#"{
                    "providerName": "Sub2API Export",
                    "exported_at": "2026-06-06T09:11:53.691Z",
                    "accounts": [{
                        "name": "mark@example.com",
                        "platform": "openai",
                        "type": "oauth",
                        "credentials": {
                            "access_token": "access-token",
                            "account_id": "account-id",
                            "chatgpt_account_id": "chatgpt-account-id",
                            "id_token": "id-token",
                            "email": "mark@example.com",
                            "plan_type": "plus"
                        },
                        "extra": {
                            "last_refresh": "2026-06-06T09:11:35.028Z"
                        }
                    }]
                }"#,
    )) {
        Ok(d) => d,
        Err(e) => panic!("parse sub2api oauth: {}", e.message()),
    };

    assert_eq!(draft.import_kind, "openai_account");
    assert_eq!(draft.oauth_account_id.as_deref(), Some("chatgpt-account-id"));
    assert_eq!(draft.provider_name, "mark@example.com");
    assert_eq!(
        path_str(&draft.settings_config, &["auth", "tokens", "email"]).as_deref(),
        Some("mark@example.com")
    );
}

#[test]
fn provider_name_defaults_to_imported_account_name() {
    let draft = match parse_provider_import_draft(&with_json(
        r#"{
                    "name": "outer-export-name",
                    "accounts": [{
                        "name": "account@example.com",
                        "platform": "openai",
                        "type": "oauth",
                        "credentials": {
                            "access_token": "access-token",
                            "chatgpt_account_id": "account-id",
                            "email": "account@example.com"
                        }
                    }]
                }"#,
    )) {
        Ok(d) => d,
        Err(e) => panic!("parse account name: {}", e.message()),
    };

    assert_eq!(draft.provider_name, "account@example.com");
}

fn current_row() -> ProviderRow {
    ProviderRow {
        id: "current".to_string(),
        name: Some("Current".to_string()),
        settings_config: Some("{\"auth\":{},\"config\":\"model_provider = \\\"current\\\"\"}".to_string()),
        meta: Some("{}".to_string()),
        is_current: true,
        sort_index: None,
    }
}

#[test]
fn imports_openai_account_provider_without_switching_current() {
    let options = with_json(
        r#"{
                    "type": "codex",
                    "chatgpt_account_id": "chatgpt-account-id",
                    "email": "mark@example.com",
                    "access_token": "access-token",
                    "refresh_token": "refresh-token"
                }"#,
    );
    let draft = match parse_provider_import_draft(&options) {
        Ok(d) => d,
        Err(e) => panic!("import openai account: {}", e.message()),
    };
    let rows = vec![current_row()];
    let plan = import_cc_switch_provider(
        &draft,
        &rows,
        "/tmp/.cc-switch/cc-switch.db",
        Some("/tmp/.cc-switch/codex-history-repair-backups/cc-switch-20260606-101010.db".to_string()),
        1_780_000_000_000,
    );
    let outcome = plan.outcome;

    assert!(outcome.created);
    assert_eq!(outcome.import_kind, "openai_account");
    assert_eq!(outcome.oauth_account_id.as_deref(), Some("chatgpt-account-id"));
    assert!(outcome.oauth_store_path.is_none());

    assert!(!plan.row.is_current);
    assert!(rows[0].is_current);
    assert_eq!(plan.row.category, "official");
    assert_eq!(plan.row.id, outcome.provider_id);
    let settings: serde_json::Value = serde_json::from_str(&plan.row.settings_config).expect("settings json");
    let meta: serde_json::Value = serde_json::from_str(&plan.row.meta).expect("meta json");
    assert_eq!(settings["config"].as_str(), Some(""));
    assert_eq!(settings["auth"]["tokens"]["refresh_token"].as_str(), Some("refresh-token"));
    assert!(meta.get("providerType").is_none());
}

#[test]
fn rejects_manual_provider_without_switching_current() {
    let options = ProviderImportOptions {
        base_url: Some("https://newapi.example.com/v1".to_string()),
        api_key: Some("sk-import".to_string()),
        provider_name: Some("NewAPI".to_string()),
        ..default_options()
    };
    let error = match parse_provider_import_draft(&options) {
        Err(e) => e,
        Ok(_) => panic!("reject"),
    };
    assert!(error
        .message()
        .contains("only CPA/cockpit/sub2api OpenAI account JSON imports are supported"));
    assert!(matches!(error, RepairError::ProviderImport(_)));
}

#[test]
fn unparsable_import_json_is_a_json_parse_error() {
    let error = match parse_provider_import_draft(&with_json("{not json")) {
        Err(e) => e,
        Ok(_) => panic!("reject"),
    };
    match error {
        RepairError::JsonParse { path, .. } => assert_eq!(path, "<import-json>"),
        _ => panic!("expected a JSON parse error"),
    }
}

#[test]
fn explicit_provider_id_is_sanitized_and_model_defaults() {
    let options = ProviderImportOptions {
        provider_id: Some("  My Team--Account!! ".to_string()),
        ..with_json(r#"{"type":"codex","chatgpt_account_id":"acc-1","access_token":"t"}"#)
    };
    let draft = match parse_provider_import_draft(&options) {
        Ok(d) => d,
        Err(e) => panic!("{}", e.message()),
    };
    assert_eq!(draft.provider_id, "my_team_account");
    assert_eq!(draft.model, "gpt-5-codex");
    assert_eq!(draft.api_format, "openai_responses");
    assert_eq!(draft.provider_name, "OpenAI Account");
}

#[test]
fn derived_provider_id_uses_name_and_account_hash() {
    let draft = match parse_provider_import_draft(&with_json(
        r#"{"type":"codex","chatgpt_account_id":"abc","email":"Mark@Example.com","access_token":"t"}"#,
    )) {
        Ok(d) => d,
        Err(e) => panic!("{}", e.message()),
    };
    // sha256("abc") starts with ba7816bf.
    assert_eq!(draft.provider_id, "chr_openai_mark_example_com_ba7816bf");
}

#[test]
fn second_import_of_the_same_id_updates() {
    let options = with_json(r#"{"type":"codex","chatgpt_account_id":"acc-2","access_token":"t"}"#);
    let draft = match parse_provider_import_draft(&options) {
        Ok(d) => d,
        Err(e) => panic!("{}", e.message()),
    };
    let existing = ProviderRow {
        id: draft.provider_id.clone(),
        name: Some("Old".to_string()),
        settings_config: Some("{}".to_string()),
        meta: Some("{}".to_string()),
        is_current: false,
        sort_index: Some(4),
    };
    let rows = vec![current_row(), existing];
    let plan = import_cc_switch_provider(&draft, &rows, "db", None, 0);
    assert!(!plan.outcome.created);
    assert!(plan.outcome.updated);
    assert_eq!(plan.row.sort_index, 5);
    assert_eq!(
        plan.outcome.message,
        "OpenAI account updated in cc-switch. Current provider was not changed."
    );
}

#[test]
fn provider_options_falls_back_on_blank_directory() {
    let o = provider_options(Some("   ".to_string()), None, None, None, None, None, None, None, "/home/u/.cc-switch".to_string());
    assert_eq!(o.cc_switch_dir, "/home/u/.cc-switch");
    let o = provider_options(Some(" /x ".to_string()), None, None, None, None, None, None, None, "/d".to_string());
    assert_eq!(o.cc_switch_dir, " /x ");
}

#[test]
fn reimport_after_the_row_was_written_updates_it() {
    let draft = match parse_provider_import_draft(&with_json(
        r#"{"type":"codex","chatgpt_account_id":"acc-3","access_token":"t"}"#,
    )) {
        Ok(d) => d,
        Err(e) => panic!("{}", e.message()),
    };
    let rows = vec![current_row()];
    let first = import_cc_switch_provider(&draft, &rows, "db", None, 1);
    assert!(first.outcome.created);
    let written = ProviderRow {
        id: first.row.id.clone(),
        name: Some(first.row.name.clone()),
        settings_config: Some(first.row.settings_config.clone()),
        meta: Some(first.row.meta.clone()),
        is_current: first.row.is_current,
        sort_index: Some(first.row.sort_index),
    };
    let rows2 = vec![current_row(), written];
    let second = import_cc_switch_provider(&draft, &rows2, "db", None, 2);
    assert!(!second.outcome.created);
    assert!(second.outcome.updated);
    assert_eq!(second.outcome.provider_id, first.outcome.provider_id);
    assert_eq!(
        second.outcome.message,
        "OpenAI account updated in cc-switch. Current provider was not changed."
    );
}

#[test]
fn reimport_finds_the_account_row_it_updated() {
    let draft = match parse_provider_import_draft(&with_json(
        r#"{"type":"codex","chatgpt_account_id":"acc-7","access_token":"t"}"#,
    )) {
        Ok(d) => d,
        Err(e) => panic!("{}", e.message()),
    };
    let bound = ProviderRow {
        id: "my-openai".to_string(),
        name: Some("Mine".to_string()),
        settings_config: Some("{}".to_string()),
        meta: Some("{\"authBinding\":{\"accountId\":\"acc-7\"}}".to_string()),
        is_current: false,
        sort_index: Some(3),
    };
    let rows = vec![current_row(), bound];
    let first = import_cc_switch_provider(&draft, &rows, "db", None, 1);
    assert!(!first.outcome.created);
    assert_eq!(first.row.id, "my-openai");
    let updated = ProviderRow {
        id: first.row.id.clone(),
        name: Some(first.row.name.clone()),
        settings_config: Some(first.row.settings_config.clone()),
        meta: Some(first.row.meta.clone()),
        is_current: false,
        sort_index: Some(3),
    };
    let rows2 = vec![current_row(), updated];
    let second = import_cc_switch_provider(&draft, &rows2, "db", None, 2);
    assert!(!second.outcome.created);
    assert!(second.outcome.updated);
    assert_eq!(second.row.id, "my-openai");
    assert_eq!(second.outcome.provider_id, first.outcome.provider_id);
}
