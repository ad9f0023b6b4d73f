use codex_history_repair::cc_switch::{
    active_codex_model_provider_id_from_cc_switch, active_model_provider_from_toml, detect_cc_switch,
    find_existing_oauth_provider_id, next_sort_index, resolve_default_codex_dir, resolve_target_provider_id,
    CcSwitchSnapshot, ProviderRow,
};
use codex_history_repair::index::{
    extract_index_text, rebuild_session_index, session_index_entry_from_text, SessionIndexEntry,
};
use codex_history_repair::json::JsonValue;
use codex_history_repair::paths::path_file_name;
use codex_history_repair::repair::collect_state_model_provider_ids;
use codex_history_repair::session::{
    rewrite_jsonl_text, rewrite_session_meta_line, session_meta_model_provider,
};

fn entry(id: &str, name: &str, at: &str) -> SessionIndexEntry {
    SessionIndexEntry { id: id.to_string(), thread_name: name.to_string(), updated_at: at.to_string() }
}

#[test]
fn entry_from_history_text() {
    let text = "{\"timestamp\":\"2026-01-01T00:00:00Z\",\"type\":\"session_meta\",\"payload\":{\"id\":\"s9\",\"cwd\":\"/w/proj/\"}}\n{\"timestamp\":\"2026-01-01T00:00:05Z\",\"type\":\"response_item\",\"payload\":{\"type\":\"message\",\"role\":\"user\",\"content\":[{\"type\":\"input_text\",\"text\":\"# AGENTS.md rules\"}]}}\n{\"timestamp\":\"2026-01-01T00:00:09Z\",\"type\":\"response_item\",\"payload\":{\"type\":\"message\",\"role\":\"user\",\"content\":[{\"text\":\" first\"},{\"content\":\"second \"}]}}\nnot json\n";
    let e = session_index_entry_from_text(text, "NOW").expect("entry");
    assert_eq!(e.id, "s9");
    assert_eq!(e.thread_name, "first\nsecond");
    assert_eq!(e.updated_at, "2026-01-01T00:00:09Z");
}

#[test]
fn entry_falls_back_to_cwd_name_then_id_and_now() {
    let e = session_index_entry_from_text(
        "{\"type\":\"session_meta\",\"payload\":{\"id\":\"s1\",\"cwd\":\"/tmp/project\"}}",
        "NOW",
    )
    .expect("entry");
    assert_eq!(e.thread_name, "project");
    assert_eq!(e.updated_at, "NOW");
    let e = session_index_entry_from_text("{\"type\":\"session_meta\",\"payload\":{\"id\":\"s2\"}}\n", "NOW")
        .expect("entry");
    assert_eq!(e.thread_name, "s2");
    assert!(session_index_entry_from_text("{\"type\":\"response_item\"}\n", "NOW").is_none());
}

#[test]
fn unix_file_names_like_std() {
    for p in ["/a/b", "/a/b/", "a/./", "/", "..", "a/..", ".", "", "x"] {
        let expected = std::path::Path::new(p).file_name().map(|n| n.to_str().unwrap().to_string());
        assert_eq!(path_file_name(p), expected, "path {p:?}");
    }
}

#[test]
fn index_text_of_plain_and_structured_content() {
    let s = JsonValue::Str("hi".to_string());
    assert_eq!(extract_index_text(Some(&s)), "hi");
    let o = JsonValue::Object(vec![("content".to_string(), JsonValue::Str("c".to_string()))]);
    assert_eq!(extract_index_text(Some(&o)), "c");
    assert_eq!(extract_index_text(Some(&JsonValue::Null)), "");
    assert_eq!(extract_index_text(None), "");
}

#[test]
fn rebuild_orders_by_date_then_id_and_counts_changes() {
    let existing = vec![entry("b", "B", "2026-01-02"), entry("", "blank id", "2026-01-09"), entry("a", "A", "2026-01-03")];
    let derived = vec![
        Some(entry("a", "new name", "2026-01-01")),
        None,
        Some(entry("c", "C", "2026-01-02")),
        Some(entry("b", "ignored", "2026-01-05")),
    ];
    let r = rebuild_session_index(&existing, &derived);
    assert_eq!(r.changed_entries, 2);
    assert_eq!(
        r.text,
        "{\"id\":\"c\",\"thread_name\":\"C\",\"updated_at\":\"2026-01-02\"}\n{\"id\":\"a\",\"thread_name\":\"A\",\"updated_at\":\"2026-01-03\"}\n{\"id\":\"b\",\"thread_name\":\"B\",\"updated_at\":\"2026-01-05\"}\n"
    );
    let again = rebuild_session_index(&r.entries, &derived);
    assert_eq!(again.changed_entries, 0);
    assert_eq!(again.text, r.text);
}

#[test]
fn session_meta_provider_and_rewrite() {
    let line = "{\"type\":\"session_meta\",\"payload\":{\"id\":\"x\",\"model_provider\":\" kimi \"}}";
    assert_eq!(session_meta_model_provider(line).as_deref(), Some("kimi"));
    assert_eq!(session_meta_model_provider("{\"type\":\"x\",\"model_provider\":\"kimi\"}"), None);
    let sources = vec!["kimi".to_string()];
    assert_eq!(
        rewrite_session_meta_line(line, "custom", &sources).as_deref(),
        Some("{\"payload\":{\"id\":\"x\",\"model_provider\":\"custom\"},\"type\":\"session_meta\"}")
    );
    assert_eq!(rewrite_session_meta_line(line, "kimi", &sources), None);
    assert_eq!(rewrite_session_meta_line(line, "custom", &vec!["openai".to_string()]), None);
}

#[test]
fn rewrite_keeps_other_lines_and_endings() {
    let text = "a\r\n{\"type\":\"session_meta\",\"payload\":{\"model_provider\":\"kimi\"}}\r\nlast";
    let (out, n) = rewrite_jsonl_text(text, "openai", &vec!["kimi".to_string()]);
    assert_eq!(n, 1);
    // A rewritten line ends with "\n" alone, as serde_json writes it without the "\r".
    assert_eq!(out, "a\r\n{\"payload\":{\"model_provider\":\"openai\"},\"type\":\"session_meta\"}\nlast");
    let (same, zero) = rewrite_jsonl_text("x\ny\n", "openai", &vec!["kimi".to_string()]);
    assert_eq!(zero, 0);
    assert_eq!(same, "x\ny\n");
}

#[test]
fn rewritten_lines_are_written_as_serde_json_writes_them() {
    let line = "{\"type\":\"session_meta\",\"payload\":{\"model_provider\":\"kimi\",\"note\":\"a\\\"b\\u0001\u{e9}\",\"n\":1.50,\"list\":[true,null]}}";
    let rewritten = rewrite_session_meta_line(line, "openai", &vec!["kimi".to_string()]).expect("rewritten");
    let mut expected: serde_json::Value = serde_json::from_str(line).unwrap();
    expected["payload"]["model_provider"] = serde_json::Value::String("openai".to_string());
    assert_eq!(rewritten, serde_json::to_string(&expected).unwrap());
    assert!(rewritten.contains("\"note\":\"a\\\"b\\u0001\u{e9}\""));
}

#[test]
fn state_ids_are_trimmed_sorted_and_exclude_target() {
    let counts = vec![
        (" b ".to_string(), 1),
        ("a".to_string(), 2),
        ("custom".to_string(), 3),
        ("  ".to_string(), 4),
        ("b".to_string(), 5),
    ];
    assert_eq!(collect_state_model_provider_ids(&counts, "custom"), vec!["a".to_string(), "b".to_string()]);
}

fn snapshot(settings: Option<&str>, rows: Option<Vec<ProviderRow>>) -> CcSwitchSnapshot {
    CcSwitchSnapshot {
        cc_switch_dir: "/h/.cc-switch".to_string(),
        db_path: "/h/.cc-switch/cc-switch.db".to_string(),
        settings_path: "/h/.cc-switch/settings.json".to_string(),
        db_exists: rows.is_some(),
        settings_exists: settings.is_some(),
        settings_text: settings.map(|s| s.to_string()),
        providers: rows,
    }
}

fn row(id: &str, name: &str, config: &str, current: bool, sort: Option<i64>) -> ProviderRow {
    ProviderRow {
        id: id.to_string(),
        name: Some(name.to_string()),
        settings_config: Some(format!("{{\"config\":{}}}", serde_json::to_string(config).unwrap())),
        meta: Some("{}".to_string()),
        is_current: current,
        sort_index: sort,
    }
}

fn two_rows() -> Vec<ProviderRow> {
    vec![
        row("a", "Alpha", "model_provider = \"alpha\"", false, Some(1)),
        row("b", "Beta", "model_provider = \"beta\"", true, Some(7)),
    ]
}

#[test]
fn detects_cc_switch_current_provider() {
    let s = snapshot(Some("{\"codexConfigDir\":\"/custom/codex\"}"), Some(two_rows()));
    let d = detect_cc_switch(&s);
    assert_eq!(d.codex_override_dir.as_deref(), Some("/custom/codex"));
    assert_eq!(d.current_codex_provider_id.as_deref(), Some("b"));
    assert_eq!(d.current_codex_provider_name.as_deref(), Some("Beta"));
    assert_eq!(resolve_default_codex_dir(&d, "/h/.codex".to_string()), "/custom/codex");
    assert_eq!(active_codex_model_provider_id_from_cc_switch(&s).as_deref(), Some("beta"));
    let (t, how) = resolve_target_provider_id(None, &s, Some("model_provider = \"cfg\""));
    assert_eq!((t.as_str(), how.as_str()), ("beta", "cc_switch_current_provider"));
    let s2 = snapshot(Some("{\"current_provider_codex\":\"a\"}"), Some(two_rows()));
    assert_eq!(active_codex_model_provider_id_from_cc_switch(&s2).as_deref(), Some("alpha"));
}

#[test]
fn toml_model_provider() {
    assert_eq!(active_model_provider_from_toml("model_provider = \"x\"\n").as_deref(), Some("x"));
    assert_eq!(active_model_provider_from_toml("model_provider = 3\n"), None);
    assert_eq!(active_model_provider_from_toml("model_provider = \"  \"\n"), None);
    assert_eq!(active_model_provider_from_toml("not = [toml"), None);
    assert_eq!(active_model_provider_from_toml("[x]\nmodel_provider = \"nested\"\n"), None);
}

#[test]
fn oauth_rows_are_found_by_binding_or_auth() {
    let bound = ProviderRow {
        id: "bound".to_string(),
        name: None,
        settings_config: Some("{}".to_string()),
        meta: Some("{\"authBinding\":{\"accountId\":\"acc-9\"}}".to_string()),
        is_current: false,
        sort_index: None,
    };
    let by_auth = ProviderRow {
        id: "auth".to_string(),
        name: None,
        settings_config: Some("{\"auth\":{\"tokens\":{\"account_id\":\"acc-7\"}}}".to_string()),
        meta: None,
        is_current: false,
        sort_index: Some(i64::MAX),
    };
    let rows = vec![bound, by_auth];
    assert_eq!(find_existing_oauth_provider_id(&rows, "acc-9").as_deref(), Some("bound"));
    assert_eq!(find_existing_oauth_provider_id(&rows, "acc-7").as_deref(), Some("auth"));
    assert_eq!(find_existing_oauth_provider_id(&rows, "acc-1"), None);
    assert_eq!(next_sort_index(&rows), 0);
    assert_eq!(next_sort_index(&Vec::new()), 0);
}
