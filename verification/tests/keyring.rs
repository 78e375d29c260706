use cosmictify::spotify::keyring::{
    finish_delete, map_entry_error, map_load_error, map_save_error, static_tag,
};
use cosmictify::spotify::{
    InMemoryTokenStore, KeyringError, KeyringFailure, SecretServiceTokenStore, TokenSet,
    TokenStore, ACCOUNT_NAME, REQUIRED_SCOPES, SERVICE_NAME,
};

fn sample_tokens() -> TokenSet {
    TokenSet::new_now(
        "ACCESS-secret-1",
        "Bearer",
        3600,
        Some("REFRESH-secret-2".to_string()),
        Some(REQUIRED_SCOPES.to_string()),
    )
}

#[test]
fn keyring_error_display_does_not_mention_token_values() {
    let leak = "ACCESS-secret-1";
    let cases = [
        KeyringError::Missing,
        KeyringError::Locked,
        KeyringError::Unavailable,
        KeyringError::Corrupt,
        KeyringError::Backend("platform_failure"),
    ];
    for err in cases {
        let rendered = err.message();
        assert!(!rendered.contains(leak), "keyring error leaked token value: {rendered:?}");
    }
}

#[test]
fn keyring_error_debug_is_static_and_safe() {
    for err in [
        KeyringError::Missing,
        KeyringError::Locked,
        KeyringError::Unavailable,
        KeyringError::Corrupt,
        KeyringError::Backend("platform_failure"),
    ] {
        let dbg = format!("{err:?}");
        assert!(!dbg.contains("secret"), "Debug leaked a secret: {dbg}");
    }
}

#[test]
fn in_memory_load_returns_missing_when_empty() {
    let store = InMemoryTokenStore::new();
    assert!(matches!(store.load(), Err(KeyringError::Missing)));
}

#[test]
fn in_memory_save_then_load_round_trips_token_set() {
    let mut store = InMemoryTokenStore::new();
    let original = sample_tokens();
    store.save(&original).expect("save must succeed");
    let loaded = store.load().ok().expect("load must succeed");
    assert!(loaded == original);
}

#[test]
fn in_memory_save_overwrites_previous_value() {
    let mut store = InMemoryTokenStore::new();
    let first = sample_tokens();
    let second = TokenSet::new_now(
        "ACCESS-secret-2",
        "Bearer",
        7200,
        Some("REFRESH-secret-2".to_string()),
        Some(REQUIRED_SCOPES.to_string()),
    );
    store.save(&first).unwrap();
    store.save(&second).unwrap();
    let loaded = store.load().ok().unwrap();
    assert!(loaded == second);
    assert!(loaded != first);
}

#[test]
fn in_memory_delete_clears_the_entry() {
    let mut store = InMemoryTokenStore::new();
    store.save(&sample_tokens()).unwrap();
    store.delete().expect("delete must succeed");
    assert!(matches!(store.load(), Err(KeyringError::Missing)));
}

#[test]
fn in_memory_delete_on_empty_store_is_ok() {
    let mut store = InMemoryTokenStore::new();
    store.delete().expect("delete on empty must be ok");
}

#[test]
fn in_memory_with_tokens_factory_preserves_payload() {
    let tokens = sample_tokens();
    let store = InMemoryTokenStore::with_tokens(tokens.clone());
    assert!(store.load().ok().unwrap() == tokens);
}

#[test]
fn secret_service_store_uses_canonical_service_and_account() {
    let store = SecretServiceTokenStore::new();
    assert_eq!(store.service(), SERVICE_NAME);
    assert_eq!(store.account(), ACCOUNT_NAME);
}

#[test]
fn secret_service_store_with_custom_names_uses_them() {
    let store = SecretServiceTokenStore::with_service_account("com.example.Test", "test-account");
    assert_eq!(store.service(), "com.example.Test");
    assert_eq!(store.account(), "test-account");
}

#[test]
fn static_tag_returns_distinct_short_strings() {
    let dbg_missing = format!("{:?}", KeyringError::Missing);
    let dbg_locked = format!("{:?}", KeyringError::Locked);
    let dbg_unavail = format!("{:?}", KeyringError::Unavailable);
    let dbg_corrupt = format!("{:?}", KeyringError::Corrupt);
    let all = [&dbg_missing, &dbg_locked, &dbg_unavail, &dbg_corrupt];
    for (i, a) in all.iter().enumerate() {
        for (j, b) in all.iter().enumerate() {
            if i != j {
                assert_ne!(a, b, "categories {i} and {j} share a Debug repr");
            }
        }
    }
}

#[test]
fn backend_failures_map_to_safe_categories() {
    assert_eq!(map_load_error(KeyringFailure::NoEntry), KeyringError::Missing);
    assert_eq!(map_load_error(KeyringFailure::BadEncoding), KeyringError::Corrupt);
    assert_eq!(map_load_error(KeyringFailure::NoStorageAccess), KeyringError::Locked);
    assert_eq!(map_entry_error(KeyringFailure::NoDefaultStore), KeyringError::Unavailable);
    assert_eq!(map_entry_error(KeyringFailure::TooLong), KeyringError::Backend("too_long"));
    assert_eq!(map_save_error(KeyringFailure::Invalid), KeyringError::Backend("invalid"));
    assert_eq!(static_tag(KeyringFailure::Other), "other");
    assert_eq!(finish_delete(Err(KeyringFailure::NoEntry)), Ok(()));
    assert_eq!(finish_delete(Err(KeyringFailure::Ambiguous)), Err(KeyringError::Backend("ambiguous")));
    assert_eq!(
        KeyringError::Backend("platform_failure").message(),
        "keyring backend error: platform_failure"
    );
}
