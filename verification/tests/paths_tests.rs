use codex_history_repair::paths::{dir_or_default, macos_app_bundle_path, path_extension};
use codex_history_repair::restart::{is_codex_process_name, restart_outcome, restart_targets, RunningProcess};
use std::path::Path;

#[test]
fn blank_directories_fall_back_to_the_default() {
    assert_eq!(dir_or_default(Some(" \t".to_string()), "/d".to_string()), "/d");
    assert_eq!(dir_or_default(None, "/d".to_string()), "/d");
    assert_eq!(dir_or_default(Some("/x".to_string()), "/d".to_string()), "/x");
}

#[test]
fn extension_matches_std() {
    for p in ["a.app", "/x/Codex.app/", "/x/.app", "a.b.c", "noext", "/x/..", "dir/.", "", "/", "a.app/."] {
        let std_ext = Path::new(p).extension().map(|e| e.to_str().unwrap().to_string());
        assert_eq!(path_extension(p), std_ext, "path {p:?}");
    }
}

#[test]
fn finds_the_app_bundle_of_an_executable() {
    assert_eq!(
        macos_app_bundle_path("/Applications/Codex.app/Contents/MacOS/Codex").as_deref(),
        Some("/Applications/Codex.app")
    );
    assert_eq!(macos_app_bundle_path("/usr/local/bin/codex"), None);
    assert_eq!(macos_app_bundle_path("Codex.app").as_deref(), Some("Codex.app"));
    for p in [
        "/Applications/Codex.app/Contents/MacOS/Codex",
        "/a//b.app//c/./d",
        "./x.app/y",
        "rel/one.app/two.app/bin",
        "/usr/bin/codex",
    ] {
        let std_bundle = Path::new(p)
            .ancestors()
            .find(|a| a.extension().and_then(|e| e.to_str()) == Some("app"))
            .map(|a| a.to_str().unwrap().to_string());
        assert_eq!(macos_app_bundle_path(p), std_bundle, "path {p:?}");
    }
}

#[test]
fn codex_process_names() {
    for n in ["Codex", "Codex.exe", "codex", "codex.exe"] {
        assert!(is_codex_process_name(n));
    }
    for n in ["codex-cli", "CODEX", "node", ""] {
        assert!(!is_codex_process_name(n));
    }
}

#[test]
fn restart_targets_the_codex_processes() {
    let ps = vec![
        RunningProcess { name: "node".to_string(), executable: Some("/usr/bin/node".to_string()) },
        RunningProcess { name: "Codex".to_string(), executable: None },
        RunningProcess { name: "codex".to_string(), executable: Some("/opt/codex".to_string()) },
        RunningProcess { name: "Codex".to_string(), executable: Some("/Applications/Codex.app/x".to_string()) },
    ];
    let t = restart_targets(&ps);
    assert_eq!(t.kill, vec![1, 2, 3]);
    assert_eq!(t.executable.as_deref(), Some("/opt/codex"));
}

#[test]
fn restart_outcomes() {
    let a = restart_outcome(2, Some("/opt/codex".to_string()), true, None);
    assert!(a.launched);
    assert_eq!(a.launch_method.as_deref(), Some("running_process_executable"));
    assert_eq!(a.message, "Restarted Codex from the previously running executable.");
    let b = restart_outcome(0, None, false, Some("open -a Codex".to_string()));
    assert!(b.launched);
    assert_eq!(b.launch_method.as_deref(), Some("open -a Codex"));
    assert_eq!(b.message, "Started Codex with the platform default launcher.");
    let c = restart_outcome(1, Some("/opt/codex".to_string()), false, None);
    assert!(!c.launched);
    assert_eq!(c.killed_processes, 1);
    assert_eq!(c.executable.as_deref(), Some("/opt/codex"));
    assert_eq!(
        c.message,
        "Could not find a Codex launcher. The repair is complete; please reopen Codex manually."
    );
}
