//! What the settings and the search make of the stored API key: which
//! outcomes of the secure storage are errors, and with which messages.

use vstd::prelude::*;

use crate::text::{chars_of, lemma_trim_idempotent, string_of, trim, trim_chars};

verus! {

broadcast use vstd::string::group_string_axioms;

/// Why the secure storage did not give what was asked.
pub enum KeyringFailure {
    /// No key is stored.
    NoEntry,
    /// Any other failure, with the storage's description of it.
    Other(String),
}

/// The message when no key is stored.
pub const NO_STORED_KEY: &'static str = "No Brave Search API key is currently stored.";

/// The start of the message for any other storage failure.
pub const STORAGE_FAILURE: &'static str = "Failed to access Brave Search secure storage: ";

/// The message when a search is asked for without a stored key.
pub const KEY_REQUIRED: &'static str = "Add a Brave Search API key in Settings to use Brave grounding.";

/// The message when an empty key is offered for storage.
pub const EMPTY_KEY: &'static str = "Brave Search API key cannot be empty.";

/// The message for a storage failure.
pub open spec fn keyring_error_text(error: KeyringFailure) -> Seq<char> {
    match error {
        KeyringFailure::NoEntry => NO_STORED_KEY@,
        KeyringFailure::Other(description) => STORAGE_FAILURE@ + description@,
    }
}

/// The message for a storage failure.
pub fn map_keyring_error(error: &KeyringFailure) -> (m: String)
    ensures
        m@ == keyring_error_text(*error),
{
    match error {
        KeyringFailure::NoEntry => NO_STORED_KEY.to_string(),
        KeyringFailure::Other(description) => {
            let mut m = STORAGE_FAILURE.to_string();
            m.append(description.as_str());
            m
        },
    }
}

/// The key that a search uses: the stored key, or an error that asks for
/// one when none is stored.
pub fn key_for_search(lookup: Result<String, KeyringFailure>) -> (r: Result<String, String>)
    ensures
        match lookup {
            Ok(key) => r matches Ok(k) && k@ == key@,
            Err(KeyringFailure::NoEntry) => r matches Err(m) && m@ == KEY_REQUIRED@,
            Err(error) => r matches Err(m) && m@ == keyring_error_text(error),
        },
{
    match lookup {
        Ok(key) => Ok(key),
        Err(KeyringFailure::NoEntry) => Err(KEY_REQUIRED.to_string()),
        Err(error) => Err(map_keyring_error(&error)),
    }
}

/// The key shown in the settings: the stored key, or an empty text when
/// none is stored.
pub fn key_for_settings(lookup: Result<String, KeyringFailure>) -> (r: Result<String, String>)
    ensures
        match lookup {
            Ok(key) => r matches Ok(k) && k@ == key@,
            Err(KeyringFailure::NoEntry) => r matches Ok(k) && k@.len() == 0,
            Err(error) => r matches Err(m) && m@ == keyring_error_text(error),
        },
{
    match lookup {
        Ok(key) => Ok(key),
        Err(KeyringFailure::NoEntry) => Ok(String::new()),
        Err(error) => Err(map_keyring_error(&error)),
    }
}

/// The key to store for an offered key: the offered key trimmed, or an
/// error when nothing remains.
pub fn key_to_store(api_key: &str) -> (r: Result<String, String>)
    ensures
        trim(api_key@).len() == 0 ==> (r matches Err(m) && m@ == EMPTY_KEY@),
        trim(api_key@).len() > 0 ==> (r matches Ok(k) && k@ == trim(api_key@)),
{
    let chars = chars_of(api_key);
    let trimmed = trim_chars(&chars);
    if trimmed.len() == 0 {
        return Err(EMPTY_KEY.to_string());
    }
    Ok(string_of(&trimmed))
}

/// What storing a key reports.
pub fn store_result(outcome: Result<(), KeyringFailure>) -> (r: Result<(), String>)
    ensures
        match outcome {
            Ok(()) => r is Ok,
            Err(error) => r matches Err(m) && m@ == keyring_error_text(error),
        },
{
    match outcome {
        Ok(()) => Ok(()),
        Err(error) => Err(map_keyring_error(&error)),
    }
}

/// What clearing the key reports: clearing succeeds also when no key was
/// stored.
pub fn clear_result(outcome: Result<(), KeyringFailure>) -> (r: Result<(), String>)
    ensures
        match outcome {
            Ok(()) | Err(KeyringFailure::NoEntry) => r is Ok,
            Err(error) => r matches Err(m) && m@ == keyring_error_text(error),
        },
{
    match outcome {
        Ok(()) | Err(KeyringFailure::NoEntry) => Ok(()),
        Err(error) => Err(map_keyring_error(&error)),
    }
}


/// The messages of the secure storage's failures.
pub proof fn law_keyring_messages(description: Seq<char>, d: String)
    requires
        d@ == description,
    ensures
        keyring_error_text(KeyringFailure::NoEntry)
            == "No Brave Search API key is currently stored."@,
        keyring_error_text(KeyringFailure::Other(d)) == "Failed to access Brave Search secure storage: "@
            + description,
        KEY_REQUIRED@ == "Add a Brave Search API key in Settings to use Brave grounding."@,
        EMPTY_KEY@ == "Brave Search API key cannot be empty."@,
{
}

/// Offering the key that was stored stores the same key again.
pub proof fn law_key_to_store_idempotent(offered: Seq<char>)
    requires
        trim(offered).len() > 0,
    ensures
        trim(trim(offered)) == trim(offered),
        trim(trim(offered)).len() > 0,
{
    lemma_trim_idempotent(offered);
}

} // verus!
