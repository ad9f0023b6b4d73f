use codex_history_repair::cc_switch::CcSwitchSnapshot;
use codex_history_repair::report::{human_summary, push_decimal};
use codex_history_repair::error::RepairError;
use codex_history_repair::index::{rebuild_session_index, session_index_entry_from_text, SessionIndexEntry};
use codex_history_repair::repair::{
    repair_codex_history, JsonlFile, RepairAction, RepairInput, RepairOptions, RepairOutcome, RepairPlan,
};

const CODEX_DIR: &str = "/home/u/.codex";
const STAMP: &str = "20260606-120000";
const NOW: &str = "2026-06-07T00:00:00+00:00";

fn no_cc_switch() -> CcSwitchSnapshot {
    CcSwitchSnapshot {
        cc_switch_dir: "/home/u/.cc-switch".to_string(),
        db_path: "/home/u/.cc-switch/cc-switch.db".to_string(),
        settings_path: "/home/u/.cc-switch/settings.json".to_string(),
        db_exists: false,
        settings_exists: false,
        settings_text: None,
        providers: None,
    }
}

fn file(path: &str, text: &str) -> JsonlFile {
    JsonlFile { path: path.to_string(), text: text.to_string(), open_error: None, read_error: None }
}

fn counts(c: &[(&str, usize)]) -> Result<Option<Vec<(String, usize)>>, String> {
    Ok(Some(c.iter().map(|(p, n)| (p.to_string(), *n)).collect()))
}

fn input(files: Vec<JsonlFile>, state: Result<Option<Vec<(String, usize)>>, String>) -> RepairInput {
    RepairInput {
        codex_dir_exists: true,
        cc_switch: no_cc_switch(),
        codex_config_text: None,
        jsonl_files: files,
        state_counts: state,
        session_index_exists: false,
        session_index: Ok(Vec::new()),
        state_db_path: "/home/u/.codex/state_5.sqlite".to_string(),
        session_index_path: "/home/u/.codex/session_index.jsonl".to_string(),
        backup_root: format!("/home/u/.codex/history_repair_backups/codex-history-repair-{STAMP}"),
        now: NOW.to_string(),
    }
}

fn options(target: &str, dry_run: bool) -> RepairOptions {
    RepairOptions { codex_dir: CODEX_DIR.to_string(), target_provider_id: Some(target.to_string()), dry_run }
}

fn outcome(plan: &RepairPlan) -> &RepairOutcome {
    match &plan.result {
        Ok(o) => o,
        Err(e) => panic!("repair: {}", e.message()),
    }
}

fn written_jsonl(plan: &RepairPlan, index: usize) -> Option<String> {
    plan.actions.iter().find_map(|a| match a {
        RepairAction::WriteJsonl(i, t) if *i == index => Some(t.clone()),
        _ => None,
    })
}

fn written_index(plan: &RepairPlan) -> Option<String> {
    plan.actions.iter().find_map(|a| match a {
        RepairAction::WriteSessionIndex(t) => Some(t.clone()),
        _ => None,
    })
}

const OPENAI_FILE: &str = "{\"timestamp\":\"2026-06-06T11:00:00Z\",\"type\":\"session_meta\",\"payload\":{\"id\":\"s-openai\",\"cwd\":\"/tmp/project\",\"model_provider\":\"openai\"}}\n";
const ROLLOUT_FILE: &str = "{\"timestamp\":\"2026-06-06T10:00:00Z\",\"type\":\"session_meta\",\"payload\":{\"id\":\"s1\",\"cwd\":\"/tmp/project\",\"model_provider\":\"ccswitch\"}}\n{\"timestamp\":\"2026-06-06T10:01:00Z\",\"type\":\"response_item\",\"payload\":{\"type\":\"message\",\"role\":\"user\",\"content\":\"Hello Codex\"}}\n";

#[test]
fn repairs_jsonl_state_and_index() {
    let mut inp = input(
        vec![
            file("/home/u/.codex/sessions/2026/06/06/openai.jsonl", OPENAI_FILE),
            file("/home/u/.codex/sessions/2026/06/06/rollout.jsonl", ROLLOUT_FILE),
        ],
        counts(&[("ccswitch", 1), ("custom", 1), ("openai", 1)]),
    );
    inp.codex_config_text = Some("model_provider = \"custom\"\n".to_string());
    let plan = repair_codex_history(options("custom", false), &inp);
    let o = outcome(&plan);

    assert_eq!(o.target_provider_id, "custom");
    assert_eq!(o.target_provider_source, "explicit");
    assert_eq!(o.migrated_jsonl_files, 2);
    assert_eq!(o.migrated_jsonl_lines, 2);
    assert_eq!(o.migrated_state_rows, 2);
    assert_eq!(o.rebuilt_session_index_entries, 2);
    assert_eq!(o.scanned_jsonl_files, 2);
    assert_eq!(o.source_provider_ids, vec!["ccswitch".to_string(), "openai".to_string()]);
    assert_eq!(
        o.backup_root.as_deref(),
        Some("/home/u/.codex/history_repair_backups/codex-history-repair-20260606-120000")
    );
    assert!(o.skipped_reason.is_none());

    let rollout = written_jsonl(&plan, 1).expect("rollout rewritten");
    assert!(rollout.contains("\"model_provider\":\"custom\""));
    assert_eq!(
        rollout,
        "{\"payload\":{\"cwd\":\"/tmp/project\",\"id\":\"s1\",\"model_provider\":\"custom\"},\"timestamp\":\"2026-06-06T10:00:00Z\",\"type\":\"session_meta\"}\n{\"timestamp\":\"2026-06-06T10:01:00Z\",\"type\":\"response_item\",\"payload\":{\"type\":\"message\",\"role\":\"user\",\"content\":\"Hello Codex\"}}\n"
    );
    let openai = written_jsonl(&plan, 0).expect("openai rewritten");
    assert!(openai.contains("\"model_provider\":\"custom\""));

    let index = written_index(&plan).expect("index written");
    assert!(index.contains("\"thread_name\":\"Hello Codex\""));
    assert_eq!(
        index,
        "{\"id\":\"s1\",\"thread_name\":\"Hello Codex\",\"updated_at\":\"2026-06-06T10:01:00Z\"}\n{\"id\":\"s-openai\",\"thread_name\":\"project\",\"updated_at\":\"2026-06-06T11:00:00Z\"}\n"
    );

    let kinds: Vec<&str> = plan
        .actions
        .iter()
        .map(|a| match a {
            RepairAction::CreateBackupRoot(_) => "root",
            RepairAction::BackupJsonl(_) => "backup-jsonl",
            RepairAction::WriteJsonl(_, _) => "write-jsonl",
            RepairAction::BackupStateDb => "backup-state",
            RepairAction::UpdateStateDb(_, _) => "update-state",
            RepairAction::BackupSessionIndex => "backup-index",
            RepairAction::CreateSessionIndexDir => "index-dir",
            RepairAction::WriteSessionIndex(_) => "write-index",
        })
        .collect();
    assert_eq!(
        kinds,
        vec![
            "root",
            "backup-jsonl",
            "write-jsonl",
            "backup-jsonl",
            "write-jsonl",
            "backup-state",
            "update-state",
            "index-dir",
            "write-index"
        ]
    );
}

#[test]
fn dry_run_reports_without_writing() {
    let inp = input(
        vec![file(
            "/home/u/.codex/sessions/rollout.jsonl",
            "{\"type\":\"session_meta\",\"payload\":{\"id\":\"s1\",\"model_provider\":\"ccswitch\"}}\n",
        )],
        Ok(None),
    );
    let plan = repair_codex_history(options("custom", true), &inp);
    let o = outcome(&plan);

    assert_eq!(o.migrated_jsonl_files, 1);
    assert_eq!(o.rebuilt_session_index_entries, 1);
    assert!(o.backup_root.is_none());
    assert!(o.dry_run);
    assert!(plan.actions.is_empty());
}

#[test]
fn syncs_openai_bucket_when_target_is_custom() {
    let inp = input(
        vec![file(
            "/home/u/.codex/sessions/rollout.jsonl",
            "{\"type\":\"session_meta\",\"payload\":{\"id\":\"s1\",\"model_provider\":\"openai\"}}\n",
        )],
        counts(&[("openai", 1)]),
    );
    let plan = repair_codex_history(options("custom", false), &inp);
    let o = outcome(&plan);

    assert_eq!(o.migrated_jsonl_files, 1);
    assert_eq!(o.migrated_state_rows, 1);
    assert_eq!(o.source_provider_ids, vec!["openai".to_string()]);
    assert!(written_jsonl(&plan, 0).expect("rewritten").contains("\"model_provider\":\"custom\""));
    assert!(plan.actions.iter().any(|a| matches!(a, RepairAction::UpdateStateDb(_, _))));
}

#[test]
fn syncs_custom_bucket_when_target_is_openai() {
    let inp = input(
        vec![file(
            "/home/u/.codex/sessions/rollout.jsonl",
            "{\"type\":\"session_meta\",\"payload\":{\"id\":\"s1\",\"model_provider\":\"custom\"}}\n",
        )],
        counts(&[("custom", 1)]),
    );
    let plan = repair_codex_history(options("openai", false), &inp);
    let o = outcome(&plan);

    assert_eq!(o.migrated_jsonl_files, 1);
    assert_eq!(o.migrated_state_rows, 1);
    assert_eq!(o.source_provider_ids, vec!["custom".to_string()]);
    assert!(written_jsonl(&plan, 0).expect("rewritten").contains("\"model_provider\":\"openai\""));
    assert!(plan.actions.iter().any(|a| matches!(a, RepairAction::UpdateStateDb(_, _))));
}

#[test]
fn rebuild_preserves_user_renamed_thread_name() {
    let text = "{\"timestamp\":\"2026-06-06T10:00:00Z\",\"type\":\"session_meta\",\"payload\":{\"id\":\"s1\",\"cwd\":\"/tmp/project\",\"model_provider\":\"openai\"}}\n{\"timestamp\":\"2026-06-06T10:01:00Z\",\"type\":\"response_item\",\"payload\":{\"type\":\"message\",\"role\":\"user\",\"content\":\"Original prompt\"}}\n";
    let existing = vec![SessionIndexEntry {
        id: "s1".to_string(),
        thread_name: "Renamed by user".to_string(),
        updated_at: "2026-06-06T09:00:00Z".to_string(),
    }];
    let derived = vec![session_index_entry_from_text(text, NOW)];
    let rebuilt = rebuild_session_index(&existing, &derived);
    assert_eq!(rebuilt.changed_entries, 1);
    assert!(rebuilt.text.contains("\"thread_name\":\"Renamed by user\""));
    assert!(rebuilt.text.contains("\"updated_at\":\"2026-06-06T10:01:00Z\""));
}

#[test]
fn missing_codex_dir_is_refused() {
    let mut inp = input(Vec::new(), Ok(None));
    inp.codex_dir_exists = false;
    let plan = repair_codex_history(options("custom", false), &inp);
    assert!(plan.actions.is_empty());
    match plan.result {
        Err(RepairError::CodexDirMissing(p)) => assert_eq!(p, CODEX_DIR),
        _ => panic!("expected CodexDirMissing"),
    }
}

#[test]
fn unreadable_state_database_is_a_sqlite_error() {
    let inp = input(Vec::new(), Err("database is locked".to_string()));
    let plan = repair_codex_history(options("custom", false), &inp);
    match plan.result {
        Err(RepairError::Sqlite { path, message }) => {
            assert_eq!(path, "/home/u/.codex/state_5.sqlite");
            assert_eq!(message, "database is locked");
        }
        _ => panic!("expected Sqlite"),
    }
}

#[test]
fn unreadable_history_file_stops_after_earlier_writes() {
    let mut bad = file("/home/u/.codex/sessions/b.jsonl", "");
    bad.read_error = Some("stream did not contain valid UTF-8".to_string());
    let inp = input(
        vec![
            file(
                "/home/u/.codex/sessions/a.jsonl",
                "{\"type\":\"session_meta\",\"payload\":{\"id\":\"a\",\"model_provider\":\"kimi\"}}\n",
            ),
            bad,
        ],
        Ok(None),
    );
    let plan = repair_codex_history(options("openai", false), &inp);
    assert_eq!(plan.actions.len(), 3);
    assert!(matches!(plan.actions[0], RepairAction::CreateBackupRoot(_)));
    assert!(matches!(plan.actions[1], RepairAction::BackupJsonl(0)));
    assert!(matches!(plan.actions[2], RepairAction::WriteJsonl(0, _)));
    match plan.result {
        Err(RepairError::Io { path, message }) => {
            assert_eq!(path, "/home/u/.codex/sessions/b.jsonl");
            assert_eq!(message, "stream did not contain valid UTF-8");
        }
        _ => panic!("expected Io"),
    }
}

#[test]
fn unopenable_session_index_is_an_io_error() {
    let mut inp = input(Vec::new(), Ok(None));
    inp.session_index_exists = true;
    inp.session_index = Err("permission denied".to_string());
    let plan = repair_codex_history(options("custom", false), &inp);
    match plan.result {
        Err(RepairError::Io { path, .. }) => assert_eq!(path, "/home/u/.codex/session_index.jsonl"),
        _ => panic!("expected Io"),
    }
}

#[test]
fn nothing_to_do_is_reported() {
    let inp = input(
        vec![file(
            "/home/u/.codex/sessions/a.jsonl",
            "{\"timestamp\":\"2026-01-01T00:00:00Z\",\"type\":\"session_meta\",\"payload\":{\"id\":\"a\",\"model_provider\":\"custom\"}}\n",
        )],
        counts(&[("custom", 3), ("myrelay", 2)]),
    );
    let mut inp2 = input(Vec::new(), Ok(None));
    inp2.session_index = Ok(vec![SessionIndexEntry {
        id: "a".to_string(),
        thread_name: "a".to_string(),
        updated_at: "2026-01-01T00:00:00Z".to_string(),
    }]);
    inp2.jsonl_files = inp.jsonl_files;
    inp2.state_counts = inp.state_counts;
    inp2.session_index_exists = true;
    let plan = repair_codex_history(options("custom", false), &inp2);
    let o = outcome(&plan);
    assert!(o.source_provider_ids.is_empty());
    assert_eq!(o.migrated_state_rows, 0);
    assert_eq!(o.rebuilt_session_index_entries, 0);
    assert_eq!(o.skipped_reason.as_deref(), Some("no_changes_needed"));
    assert!(plan.actions.is_empty());
    assert!(o.backup_root.is_none());
}

#[test]
fn existing_index_is_backed_up_before_it_is_replaced() {
    let mut inp = input(
        vec![file(
            "/home/u/.codex/sessions/a.jsonl",
            "{\"timestamp\":\"2026-01-02T00:00:00Z\",\"type\":\"session_meta\",\"payload\":{\"id\":\"a\",\"model_provider\":\"custom\"}}\n",
        )],
        Ok(None),
    );
    inp.session_index_exists = true;
    let plan = repair_codex_history(options("custom", false), &inp);
    assert_eq!(outcome(&plan).rebuilt_session_index_entries, 1);
    assert_eq!(plan.actions.len(), 3);
    assert!(matches!(plan.actions[0], RepairAction::CreateBackupRoot(_)));
    assert!(matches!(plan.actions[1], RepairAction::BackupSessionIndex));
    assert!(matches!(plan.actions[2], RepairAction::WriteSessionIndex(_)));
}

#[test]
fn target_falls_back_to_codex_config_then_openai() {
    let mut inp = input(Vec::new(), Ok(None));
    inp.codex_config_text = Some("model_provider = \" relay \"\n".to_string());
    let o1 = RepairOptions { codex_dir: CODEX_DIR.to_string(), target_provider_id: Some("  ".to_string()), dry_run: true };
    let plan = repair_codex_history(o1, &inp);
    assert_eq!(outcome(&plan).target_provider_id, "relay");
    assert_eq!(outcome(&plan).target_provider_source, "codex_config");
    inp.codex_config_text = None;
    let o2 = RepairOptions { codex_dir: CODEX_DIR.to_string(), target_provider_id: None, dry_run: true };
    let plan = repair_codex_history(o2, &inp);
    assert_eq!(outcome(&plan).target_provider_id, "openai");
    assert_eq!(outcome(&plan).target_provider_source, "default");
}

#[test]
fn legacy_buckets_in_state_only_are_migrated() {
    let inp = input(Vec::new(), counts(&[(" deepseek ", 4), ("deepseek", 2), ("custom", 1)]));
    let plan = repair_codex_history(options("custom", false), &inp);
    let o = outcome(&plan);
    assert_eq!(o.source_provider_ids, vec!["deepseek".to_string()]);
    // Only threads stored exactly as a source bucket are counted.
    assert_eq!(o.migrated_state_rows, 2);
    assert!(matches!(plan.actions[1], RepairAction::BackupStateDb));
    match &plan.actions[2] {
        RepairAction::UpdateStateDb(target, sources) => {
            assert_eq!(target, "custom");
            assert_eq!(sources, &vec!["deepseek".to_string()]);
        }
        _ => panic!("expected the state update"),
    }
}

#[test]
fn preview_reports_what_the_repair_does() {
    let make = || {
        input(
            vec![
                file("/home/u/.codex/sessions/2026/06/06/openai.jsonl", OPENAI_FILE),
                file("/home/u/.codex/sessions/2026/06/06/rollout.jsonl", ROLLOUT_FILE),
            ],
            counts(&[("ccswitch", 1), ("custom", 1), ("openai", 1)]),
        )
    };
    let preview = repair_codex_history(options("custom", true), &make());
    let actual = repair_codex_history(options("custom", false), &make());
    let (p, a) = (outcome(&preview), outcome(&actual));
    assert!(preview.actions.is_empty());
    assert!(!actual.actions.is_empty());
    assert_eq!(p.target_provider_id, a.target_provider_id);
    assert_eq!(p.source_provider_ids, a.source_provider_ids);
    assert_eq!(p.migrated_jsonl_files, a.migrated_jsonl_files);
    assert_eq!(p.migrated_jsonl_lines, a.migrated_jsonl_lines);
    assert_eq!(p.migrated_state_rows, a.migrated_state_rows);
    assert_eq!(p.rebuilt_session_index_entries, a.rebuilt_session_index_entries);
    assert!(p.backup_root.is_none());
    assert!(a.backup_root.is_some());
}

#[test]
fn summary_lines_report_the_outcome() {
    let plan = repair_codex_history(
        options("custom", true),
        &input(
            vec![file(
                "/home/u/.codex/sessions/rollout.jsonl",
                "{\"type\":\"session_meta\",\"payload\":{\"id\":\"s1\",\"model_provider\":\"ccswitch\"}}\n",
            )],
            counts(&[("ccswitch", 12), ("openai", 3)]),
        ),
    );
    let lines = human_summary(outcome(&plan));
    assert_eq!(
        lines,
        vec![
            "Codex directory: /home/u/.codex".to_string(),
            "Target provider: custom".to_string(),
            "Target source: explicit".to_string(),
            "Changed: 1 JSONL files (1 session_meta lines), 15 SQLite rows, 1 index entries".to_string(),
            "Scanned JSONL files: 1".to_string(),
            "Source providers: ccswitch, openai".to_string(),
            "Dry run only. No files were changed.".to_string(),
        ]
    );
    for n in [0usize, 9, 10, 1234, usize::MAX] {
        let mut s = String::new();
        push_decimal(&mut s, n);
        assert_eq!(s, n.to_string());
    }
}

#[test]
fn second_repair_finds_nothing_to_do() {
    let files = vec![
        file("/home/u/.codex/sessions/2026/06/06/openai.jsonl", OPENAI_FILE),
        file("/home/u/.codex/sessions/2026/06/06/rollout.jsonl", ROLLOUT_FILE),
    ];
    let first = repair_codex_history(options("custom", false), &input(files, counts(&[("ccswitch", 1), ("custom", 1), ("openai", 1)])));
    assert_eq!(outcome(&first).migrated_jsonl_files, 2);
    let texts = vec![
        written_jsonl(&first, 0).expect("openai rewritten"),
        written_jsonl(&first, 1).expect("rollout rewritten"),
    ];
    let index: Vec<SessionIndexEntry> = written_index(&first)
        .expect("index written")
        .lines()
        .map(|l| {
            let v: serde_json::Value = serde_json::from_str(l).expect("index line");
            SessionIndexEntry {
                id: v["id"].as_str().unwrap_or_default().to_string(),
                thread_name: v["thread_name"].as_str().unwrap_or_default().to_string(),
                updated_at: v["updated_at"].as_str().unwrap_or_default().to_string(),
            }
        })
        .collect();
    let mut next = input(
        vec![
            file("/home/u/.codex/sessions/2026/06/06/openai.jsonl", &texts[0]),
            file("/home/u/.codex/sessions/2026/06/06/rollout.jsonl", &texts[1]),
        ],
        counts(&[("custom", 3)]),
    );
    next.session_index_exists = true;
    next.session_index = Ok(index);
    next.now = "2026-06-08T00:00:00+00:00".to_string();
    let second = repair_codex_history(options("custom", false), &next);
    let o = outcome(&second);
    assert!(second.actions.is_empty());
    assert_eq!(o.migrated_jsonl_files, 0);
    assert_eq!(o.migrated_jsonl_lines, 0);
    assert_eq!(o.migrated_state_rows, 0);
    assert_eq!(o.rebuilt_session_index_entries, 0);
    assert!(o.backup_root.is_none());
    assert_eq!(o.skipped_reason.as_deref(), Some("no_changes_needed"));
}
