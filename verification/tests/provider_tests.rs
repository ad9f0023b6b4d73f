use codex_history_repair::provider::{
    derive_oauth_provider_id, is_legacy_provider_id, is_openai_custom_pair, is_sync_source_provider_id,
    sanitize_provider_id, secret_hash,
};
use codex_history_repair::provider::to_ascii_lower;
use codex_history_repair::text::normalize_non_empty;

#[test]
fn legacy_buckets_are_sync_sources_but_current_ones_are_not_legacy() {
    assert!(is_legacy_provider_id("ccswitch"));
    assert!(is_legacy_provider_id("zhipu_glm_en"));
    assert!(!is_legacy_provider_id("openai"));
    assert!(!is_legacy_provider_id("custom"));
    assert!(is_sync_source_provider_id("kimi", "custom"));
    assert!(is_sync_source_provider_id("kimi", "my-relay"));
    assert!(!is_sync_source_provider_id("kimi", "kimi"));
    assert!(!is_sync_source_provider_id("my-relay", "custom"));
}

#[test]
fn openai_and_custom_sync_into_each_other() {
    assert!(is_openai_custom_pair("openai", "custom"));
    assert!(is_openai_custom_pair("custom", "openai"));
    assert!(!is_openai_custom_pair("openai", "openai"));
    assert!(is_sync_source_provider_id("openai", "custom"));
    assert!(is_sync_source_provider_id("custom", "openai"));
    assert!(!is_sync_source_provider_id("openai", "relay"));
    assert!(!is_sync_source_provider_id("custom", "custom"));
}

#[test]
fn sanitize_lowercases_and_collapses_separators() {
    assert_eq!(sanitize_provider_id("  My Provider!!  ").as_deref(), Some("my_provider"));
    assert_eq!(sanitize_provider_id("a--b__c").as_deref(), Some("a_b_c"));
    assert_eq!(sanitize_provider_id("__x__").as_deref(), Some("x"));
    assert_eq!(sanitize_provider_id("42 relay").as_deref(), Some("provider_42_relay"));
    assert_eq!(sanitize_provider_id("Ünïcode").as_deref(), Some("n_code"));
    assert_eq!(sanitize_provider_id("   "), None);
    assert_eq!(sanitize_provider_id("!!!"), None);
}

#[test]
fn sanitize_is_idempotent_on_examples() {
    for raw in ["  My Provider!!  ", "42 relay", "a--b__c", "Mark@Example.com"] {
        let once = sanitize_provider_id(raw).expect("sanitized");
        assert_eq!(sanitize_provider_id(&once).as_deref(), Some(once.as_str()));
    }
}

#[test]
fn secret_hash_is_lowercase_hex_sha256() {
    assert_eq!(
        secret_hash("abc"),
        "ba7816bf8f01cfea414140de5dae2223b00361a396177a9cb410ff61f20015ad"
    );
    assert_eq!(
        secret_hash(""),
        "e3b0c44298fc1c149afbf4c8996fb92427ae41e4649b934ca495991b7852b855"
    );
    assert_eq!(secret_hash("x").len(), 64);
}

#[test]
fn derived_oauth_provider_id_has_name_and_hash_prefix() {
    assert_eq!(derive_oauth_provider_id("Team A", "abc"), "chr_openai_team_a_ba7816bf");
    assert_eq!(derive_oauth_provider_id("!!!", "abc"), "chr_openai_chatgpt_ba7816bf");
    let id = derive_oauth_provider_id("Mark@Example.com", "acc");
    assert_eq!(sanitize_provider_id(&id).as_deref(), Some(id.as_str()));
}

#[test]
fn normalize_trims_and_drops_blank_text() {
    assert_eq!(normalize_non_empty("  x y \n").as_deref(), Some("x y"));
    assert_eq!(normalize_non_empty(" \t\n"), None);
    let once = normalize_non_empty("\u{3000}z\u{2003}").expect("text");
    assert_eq!(once, "z");
    assert_eq!(normalize_non_empty(&once).as_deref(), Some("z"));
}

#[test]
fn sanitize_gives_nothing_exactly_without_ascii_letters_or_digits() {
    for raw in ["", "  ", "!!__--", "éü ß", "\t\n"] {
        assert_eq!(sanitize_provider_id(raw), None, "{raw:?}");
    }
    for raw in ["a", " 9 ", "é1", "--x--"] {
        assert!(sanitize_provider_id(raw).is_some(), "{raw:?}");
    }
}

#[test]
fn ascii_lowercase_matches_std() {
    for c in ['A', 'Z', 'a', 'z', '0', '@', '[', 'É', 'ß', '\u{0}'] {
        assert_eq!(to_ascii_lower(c), c.to_ascii_lowercase());
    }
}
