use brave_search::keys::{
    clear_result, key_for_search, key_for_settings, key_to_store, map_keyring_error,
    store_result, KeyringFailure,
};

#[test]
fn keyring_errors_read_as_messages() {
    assert_eq!(
        map_keyring_error(&KeyringFailure::NoEntry),
        "No Brave Search API key is currently stored."
    );
    assert_eq!(
        map_keyring_error(&KeyringFailure::Other("locked".to_string())),
        "Failed to access Brave Search secure storage: locked"
    );
}

#[test]
fn search_needs_a_stored_key() {
    assert_eq!(key_for_search(Ok("abc".to_string())), Ok("abc".to_string()));
    assert_eq!(
        key_for_search(Err(KeyringFailure::NoEntry)),
        Err("Add a Brave Search API key in Settings to use Brave grounding.".to_string())
    );
    assert_eq!(
        key_for_search(Err(KeyringFailure::Other("denied".to_string()))),
        Err("Failed to access Brave Search secure storage: denied".to_string())
    );
}

#[test]
fn settings_show_empty_key_when_none_is_stored() {
    assert_eq!(key_for_settings(Ok("abc".to_string())), Ok("abc".to_string()));
    assert_eq!(key_for_settings(Err(KeyringFailure::NoEntry)), Ok(String::new()));
    assert_eq!(
        key_for_settings(Err(KeyringFailure::Other("denied".to_string()))),
        Err("Failed to access Brave Search secure storage: denied".to_string())
    );
}

#[test]
fn offered_keys_are_trimmed() {
    assert_eq!(key_to_store("  secret-key \n"), Ok("secret-key".to_string()));
    assert_eq!(key_to_store("secret-key"), Ok("secret-key".to_string()));
    let stored = key_to_store("\t k \t").unwrap();
    assert_eq!(key_to_store(&stored), Ok(stored.clone()));
}

#[test]
fn blank_keys_are_refused() {
    assert_eq!(key_to_store(""), Err("Brave Search API key cannot be empty.".to_string()));
    assert_eq!(key_to_store(" \n\t "), Err("Brave Search API key cannot be empty.".to_string()));
}

#[test]
fn storing_reports_storage_failures() {
    assert_eq!(store_result(Ok(())), Ok(()));
    assert_eq!(
        store_result(Err(KeyringFailure::NoEntry)),
        Err("No Brave Search API key is currently stored.".to_string())
    );
    assert_eq!(
        store_result(Err(KeyringFailure::Other("full".to_string()))),
        Err("Failed to access Brave Search secure storage: full".to_string())
    );
}

#[test]
fn clearing_an_absent_key_succeeds() {
    assert_eq!(clear_result(Ok(())), Ok(()));
    assert_eq!(clear_result(Err(KeyringFailure::NoEntry)), Ok(()));
    assert_eq!(
        clear_result(Err(KeyringFailure::Other("busy".to_string()))),
        Err("Failed to access Brave Search secure storage: busy".to_string())
    );
}
