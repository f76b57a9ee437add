use sha2::{Digest, Sha256};
use usagi::bundle::Bundle;
use usagi::game_id::{
    auto_id_from_digest, from_bundle_hash, from_explicit, from_name, resolve_for_export, sanitize, GameId,
};

#[test]
fn sanitize_lowercases_and_keeps_hyphens_underscores() {
    assert_eq!(sanitize("My-Cool_Game"), "my-cool_game");
}

#[test]
fn sanitize_rewrites_disallowed_and_trims_separators() {
    assert_eq!(sanitize("My Game!"), "my-game");
    assert_eq!(sanitize("a/b.c"), "a-b-c");
    assert_eq!(sanitize("--game--"), "game");
    assert_eq!(sanitize("__game__"), "game");
}

#[test]
fn sanitize_returns_empty_for_pure_punctuation() {
    assert_eq!(sanitize("!!!"), "");
}

#[test]
fn sanitize_is_idempotent_on_examples() {
    for s in ["My Game!", "--a__b--", "Ünïcode Näme", "x"] {
        let once = sanitize(s);
        assert_eq!(sanitize(&once), once);
    }
}

#[test]
fn resolve_prefers_explicit_when_valid() {
    let gid = GameId::resolve(Some("com.example.game"), Some("hint"), None);
    assert_eq!(gid.as_str(), "com.example.game");
}

#[test]
fn resolve_falls_through_invalid_explicit_to_name_hint() {
    let gid = GameId::resolve(Some(""), Some("snake"), None);
    assert_eq!(gid.as_str(), "com.usagiengine.snake");
}

#[test]
fn resolve_uses_unknown_sentinel_when_all_inputs_missing() {
    let gid = GameId::resolve(None, None, None);
    assert_eq!(gid.as_str(), "com.usagiengine.unknown");
}

#[test]
fn short_name_returns_last_dot_segment() {
    assert_eq!(
        GameId::resolve(Some("com.brettmakesgames.snake"), None, None).short_name(),
        "snake"
    );
    assert_eq!(
        GameId::resolve(Some("com.usagiengine.notetris"), None, None).short_name(),
        "notetris"
    );
}

#[test]
fn short_name_substitutes_usagi_for_unknown_sentinel() {
    let gid = GameId::resolve(None, None, None);
    assert_eq!(gid.short_name(), "usagi");
}

#[test]
fn short_name_handles_id_without_dots() {
    let gid = GameId::resolve(Some("snake"), None, None);
    assert_eq!(gid.short_name(), "snake");
}

#[test]
fn try_from_explicit_accepts_valid_id() {
    assert!(GameId::try_from_explicit("com.test.foo").is_some());
}

#[test]
fn try_from_explicit_rejects_path_traversal() {
    assert!(GameId::try_from_explicit("../bad").is_none());
    assert!(GameId::try_from_explicit("a/b").is_none());
}

#[test]
fn try_from_explicit_rejects_empty() {
    assert!(GameId::try_from_explicit("").is_none());
}

#[test]
fn from_explicit_keeps_valid_id_verbatim() {
    assert_eq!(from_explicit(Some("com.test.foo")).as_deref(), Some("com.test.foo"));
}

#[test]
fn from_explicit_returns_none_for_invalid() {
    assert!(from_explicit(None).is_none());
    assert!(from_explicit(Some("")).is_none());
    assert!(from_explicit(Some("../bad")).is_none());
}

#[test]
fn from_name_returns_namespaced_id_for_normal_name() {
    assert_eq!(from_name("snake").as_deref(), Some("com.usagiengine.snake"));
}

#[test]
fn from_name_returns_none_when_sanitization_empties_the_name() {
    assert!(from_name("!!!").is_none());
    assert!(from_name("").is_none());
}

#[test]
fn from_bundle_hash_is_deterministic_and_well_formed() {
    let mut b = Bundle::new();
    b.insert("main.lua", b"-- a".to_vec());
    let id1 = from_bundle_hash(&b);
    let id2 = from_bundle_hash(&b);
    assert_eq!(id1, id2);
    assert!(id1.starts_with("com.usagiengine.auto"));
    let suffix = id1.trim_start_matches("com.usagiengine.auto");
    assert_eq!(suffix.len(), 16);
    assert!(suffix.chars().all(|c| c.is_ascii_hexdigit() && !c.is_uppercase()));
}

#[test]
fn from_bundle_hash_changes_with_bundle_contents() {
    let mut a = Bundle::new();
    a.insert("main.lua", b"-- a".to_vec());
    let mut b = Bundle::new();
    b.insert("main.lua", b"-- b".to_vec());
    assert_ne!(from_bundle_hash(&a), from_bundle_hash(&b));
}

#[test]
fn from_bundle_hash_is_the_sha256_of_the_serialized_bundle() {
    let mut b = Bundle::new();
    b.insert("main.lua", b"-- a".to_vec());
    let bytes = b.serialize();
    let digest = Sha256::digest(&bytes);
    let hex: String = digest.iter().take(8).map(|x| format!("{x:02x}")).collect();
    assert_eq!(from_bundle_hash(&b), format!("com.usagiengine.auto{hex}"));
}

#[test]
fn auto_id_uses_the_first_eight_digest_bytes() {
    let digest = [0xABu8, 0x01, 0x23, 0x45, 0x67, 0x89, 0xCD, 0xEF, 0xFF, 0xFF];
    assert_eq!(auto_id_from_digest(&digest), "com.usagiengine.autoab0123456789cdef");
}

#[test]
fn resolve_uses_name_when_no_explicit() {
    let gid = GameId::resolve(None, Some("snake"), None);
    assert_eq!(gid.as_str(), "com.usagiengine.snake");
}

#[test]
fn resolve_uses_bundle_hash_when_no_useful_name() {
    let mut b = Bundle::new();
    b.insert("main.lua", b"-- contents".to_vec());
    let gid = GameId::resolve(None, Some("!!!"), Some(&b));
    assert!(gid.as_str().starts_with("com.usagiengine.auto"));
}

#[test]
fn resolve_uses_bundle_hash_when_no_name_hint() {
    let mut b = Bundle::new();
    b.insert("main.lua", b"-- contents".to_vec());
    let gid = GameId::resolve(None, None, Some(&b));
    assert!(gid.as_str().starts_with("com.usagiengine.auto"));
}

#[test]
fn resolve_for_export_prefers_config_then_project_name() {
    let mut b = Bundle::new();
    b.insert("main.lua", b"-- contents".to_vec());
    assert_eq!(resolve_for_export(Some("com.me.game"), "snake", &b).as_str(), "com.me.game");
    assert_eq!(resolve_for_export(None, "Snake Game", &b).as_str(), "com.usagiengine.snake-game");
    assert!(resolve_for_export(None, "!!!", &b).as_str().starts_with("com.usagiengine.auto"));
}

#[test]
fn every_resolved_id_passes_validation() {
    let mut b = Bundle::new();
    b.insert("main.lua", b"-- contents".to_vec());
    for (e, n) in [(Some("../x"), Some("a/b")), (None, Some("..")), (Some(""), None)] {
        let gid = GameId::resolve(e, n, Some(&b));
        assert!(usagi::save::validate_game_id(gid.as_str()).is_ok());
    }
}
