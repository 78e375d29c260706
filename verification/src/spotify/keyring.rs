//! Persistence of the Spotify OAuth tokens.
//!
//! Production code keeps the tokens in the Linux Secret Service; the test
//! suite keeps them in an [`InMemoryTokenStore`]. The Secret Service calls
//! themselves are I/O and happen outside this library; what this module
//! decides is how their failures are reported: every backend failure is
//! reduced to a coarse [`KeyringError`] category that never carries the
//! stored payload.

use vstd::prelude::*;

use crate::spotify::types::TokenSet;
use crate::text::owned;

verus! {

/// Service name registered with the Linux Secret Service.
pub const SERVICE_NAME: &'static str = "com.brunocasarotti.Cosmictify";

/// Account (username) used for the Spotify OAuth credential entry.
pub const ACCOUNT_NAME: &'static str = "spotify-oauth";

// ---------------------------------------------------------------------------
// Errors
// ---------------------------------------------------------------------------

/// Errors that can be returned from a [`TokenStore`]. None of the variants
/// carries a secret value.
#[derive(Debug, Clone, PartialEq, Eq)]
pub enum KeyringError {
    /// No credential entry exists; the UI treats this as "disconnected".
    Missing,
    /// The Secret Service collection is locked.
    Locked,
    /// No Secret Service is available.
    Unavailable,
    /// The stored payload could not be decoded into a [`TokenSet`].
    Corrupt,
    /// Any other backend error; the inner value is a static category.
    Backend(&'static str),
}

/// The user-facing text of a keyring error, as its `Display` gives it.
pub open spec fn spec_keyring_message(e: KeyringError) -> Seq<char> {
    match e {
        KeyringError::Missing => "no Spotify credential in keyring"@,
        KeyringError::Locked => "Secret Service is locked"@,
        KeyringError::Unavailable => "Secret Service is unavailable"@,
        KeyringError::Corrupt => "stored Spotify credential is unreadable"@,
        KeyringError::Backend(category) => "keyring backend error: "@ + category@,
    }
}

impl KeyringError {
    /// The user-facing text of the error (what `Display` gives).
    pub fn message(&self) -> (m: String)
        ensures
            m@ == spec_keyring_message(*self),
    {
        match self {
            KeyringError::Missing => owned("no Spotify credential in keyring"),
            KeyringError::Locked => owned("Secret Service is locked"),
            KeyringError::Unavailable => owned("Secret Service is unavailable"),
            KeyringError::Corrupt => owned("stored Spotify credential is unreadable"),
            KeyringError::Backend(category) => {
                let mut m = owned("keyring backend error: ");
                m.append(category);
                m
            },
        }
    }
}

/// The kinds of failure the keyring backend reports (`keyring::Error`'s
/// variants, without their payloads).
#[derive(Debug, Clone, Copy, PartialEq, Eq)]
pub enum KeyringFailure {
    PlatformFailure,
    NoStorageAccess,
    NoEntry,
    BadEncoding,
    BadDataFormat,
    BadStoreFormat,
    TooLong,
    Invalid,
    Ambiguous,
    NoDefaultStore,
    NotSupportedByStore,
    /// A variant added to the backend after this list was written.
    Other,
}

/// The fixed, non-sensitive tag of a backend failure.
pub open spec fn spec_static_tag(e: KeyringFailure) -> &'static str {
    match e {
        KeyringFailure::PlatformFailure => "platform_failure",
        KeyringFailure::NoStorageAccess => "no_storage_access",
        KeyringFailure::NoEntry => "no_entry",
        KeyringFailure::BadEncoding => "bad_encoding",
        KeyringFailure::BadDataFormat => "bad_data_format",
        KeyringFailure::BadStoreFormat => "bad_store_format",
        KeyringFailure::TooLong => "too_long",
        KeyringFailure::Invalid => "invalid",
        KeyringFailure::Ambiguous => "ambiguous",
        KeyringFailure::NoDefaultStore => "no_default_store",
        KeyringFailure::NotSupportedByStore => "not_supported_by_store",
        KeyringFailure::Other => "other",
    }
}

/// Reduce a backend failure to a fixed, non-sensitive category tag.
pub fn static_tag(e: KeyringFailure) -> (t: &'static str)
    ensures
        t == spec_static_tag(e),
{
    match e {
        KeyringFailure::PlatformFailure => "platform_failure",
        KeyringFailure::NoStorageAccess => "no_storage_access",
        KeyringFailure::NoEntry => "no_entry",
        KeyringFailure::BadEncoding => "bad_encoding",
        KeyringFailure::BadDataFormat => "bad_data_format",
        KeyringFailure::BadStoreFormat => "bad_store_format",
        KeyringFailure::TooLong => "too_long",
        KeyringFailure::Invalid => "invalid",
        KeyringFailure::Ambiguous => "ambiguous",
        KeyringFailure::NoDefaultStore => "no_default_store",
        KeyringFailure::NotSupportedByStore => "not_supported_by_store",
        KeyringFailure::Other => "other",
    }
}

/// Map a failure to open the credential entry into a category.
pub fn map_entry_error(e: KeyringFailure) -> (k: KeyringError)
    ensures
        k == (match e {
            KeyringFailure::NoDefaultStore => KeyringError::Unavailable,
            KeyringFailure::NoStorageAccess => KeyringError::Locked,
            _ => KeyringError::Backend(spec_static_tag(e)),
        }),
{
    match e {
        KeyringFailure::NoDefaultStore => KeyringError::Unavailable,
        KeyringFailure::NoStorageAccess => KeyringError::Locked,
        _ => KeyringError::Backend(static_tag(e)),
    }
}

/// Map a failure to read the credential into a category.
pub fn map_load_error(e: KeyringFailure) -> (k: KeyringError)
    ensures
        k == (match e {
            KeyringFailure::NoEntry => KeyringError::Missing,
            KeyringFailure::NoStorageAccess => KeyringError::Locked,
            KeyringFailure::NoDefaultStore => KeyringError::Unavailable,
            KeyringFailure::BadEncoding | KeyringFailure::BadDataFormat
            | KeyringFailure::BadStoreFormat => KeyringError::Corrupt,
            _ => KeyringError::Backend(spec_static_tag(e)),
        }),
{
    match e {
        KeyringFailure::NoEntry => KeyringError::Missing,
        KeyringFailure::NoStorageAccess => KeyringError::Locked,
        KeyringFailure::NoDefaultStore => KeyringError::Unavailable,
        KeyringFailure::BadEncoding | KeyringFailure::BadDataFormat
        | KeyringFailure::BadStoreFormat => KeyringError::Corrupt,
        _ => KeyringError::Backend(static_tag(e)),
    }
}

/// Map a failure to write the credential into a category.
pub fn map_save_error(e: KeyringFailure) -> (k: KeyringError)
    ensures
        k == (match e {
            KeyringFailure::NoStorageAccess => KeyringError::Locked,
            KeyringFailure::NoDefaultStore => KeyringError::Unavailable,
            _ => KeyringError::Backend(spec_static_tag(e)),
        }),
{
    match e {
        KeyringFailure::NoStorageAccess => KeyringError::Locked,
        KeyringFailure::NoDefaultStore => KeyringError::Unavailable,
        _ => KeyringError::Backend(static_tag(e)),
    }
}

/// Map a failure to delete the credential into a category.
pub fn map_delete_error(e: KeyringFailure) -> (k: KeyringError)
    ensures
        k == (match e {
            KeyringFailure::NoEntry => KeyringError::Missing,
            KeyringFailure::NoStorageAccess => KeyringError::Locked,
            KeyringFailure::NoDefaultStore => KeyringError::Unavailable,
            _ => KeyringError::Backend(spec_static_tag(e)),
        }),
{
    match e {
        KeyringFailure::NoEntry => KeyringError::Missing,
        KeyringFailure::NoStorageAccess => KeyringError::Locked,
        KeyringFailure::NoDefaultStore => KeyringError::Unavailable,
        _ => KeyringError::Backend(static_tag(e)),
    }
}

/// The outcome of deleting the credential: a missing entry counts as
/// deleted.
pub fn finish_delete(outcome: Result<(), KeyringFailure>) -> (r: Result<(), KeyringError>)
    ensures
        r == (match outcome {
            Ok(()) => Ok(()),
            Err(KeyringFailure::NoEntry) => Ok(()),
            Err(KeyringFailure::NoStorageAccess) => Err(KeyringError::Locked),
            Err(KeyringFailure::NoDefaultStore) => Err(KeyringError::Unavailable),
            Err(e) => Err(KeyringError::Backend(spec_static_tag(e))),
        }),
{
    match outcome {
        Ok(()) => Ok(()),
        Err(e) => {
            let k = map_delete_error(e);
            match k {
                KeyringError::Missing => Ok(()),
                _ => Err(k),
            }
        },
    }
}

// ---------------------------------------------------------------------------
// Store trait
// ---------------------------------------------------------------------------

/// Persistence backend for Spotify OAuth tokens.
///
/// A store is modelled by the credential it holds. Every implementation
/// owes these contracts: a load that succeeds gives back the credential
/// held, a load from a readable store gives it (or reports it missing), a
/// save that succeeds holds the saved credential, a save that the store
/// accepts succeeds, and a delete that succeeds holds none.
pub trait TokenStore {
    /// The credential the store holds.
    spec fn spec_contents(&self) -> Option<TokenSet>;

    /// Whether a load from the store, as it is, reads without error. A
    /// store whose reads can fail for reasons of its own (a locked keyring)
    /// need not say when.
    spec fn spec_readable(&self) -> bool;

    /// Whether the store, as it is, saves `tokens` without error. A store
    /// whose writes can fail for reasons of its own (a locked keyring)
    /// need not say when.
    spec fn spec_accepts(&self, tokens: TokenSet) -> bool;

    /// Read the stored credential, or [`KeyringError::Missing`] when there
    /// is none.
    fn load(&self) -> (r: Result<TokenSet, KeyringError>)
        ensures
            r matches Ok(t) ==> self.spec_contents() == Some(t),
            self.spec_readable() ==> r == spec_load(self.spec_contents()),
    ;

    /// Persist (or overwrite) the credential.
    fn save(&mut self, tokens: &TokenSet) -> (r: Result<(), KeyringError>)
        ensures
            r is Ok ==> final(self).spec_contents() == Some(*tokens),
            old(self).spec_accepts(*tokens) ==> r is Ok,
    ;

    /// Remove the credential; `Ok(())` also when there was none.
    fn delete(&mut self) -> (r: Result<(), KeyringError>)
        ensures
            r is Ok ==> final(self).spec_contents() is None,
    ;
}

// ---------------------------------------------------------------------------
// In-memory store
// ---------------------------------------------------------------------------

/// What loading from a store holding `contents` gives.
pub open spec fn spec_load(contents: Option<TokenSet>) -> Result<TokenSet, KeyringError> {
    match contents {
        Some(t) => Ok(t),
        None => Err(KeyringError::Missing),
    }
}

/// In-process [`TokenStore`]: the store the test suite uses, so that it
/// never touches a real keyring.
pub struct InMemoryTokenStore {
    inner: Option<TokenSet>,
}

impl InMemoryTokenStore {
    /// The credential the store holds.
    pub closed spec fn contents(&self) -> Option<TokenSet> {
        self.inner
    }

    /// An empty store.
    pub fn new() -> (s: Self)
        ensures
            s.contents() is None,
    {
        InMemoryTokenStore { inner: None }
    }

    /// A store that already holds `tokens`.
    pub fn with_tokens(tokens: TokenSet) -> (s: Self)
        ensures
            s.contents() == Some(tokens),
    {
        InMemoryTokenStore { inner: Some(tokens) }
    }
}

impl Default for InMemoryTokenStore {
    fn default() -> (s: Self)
        ensures
            s.contents() is None,
    {
        InMemoryTokenStore { inner: None }
    }
}

impl TokenStore for InMemoryTokenStore {
    open spec fn spec_contents(&self) -> Option<TokenSet> {
        self.contents()
    }

    /// An in-memory store reads without error.
    open spec fn spec_readable(&self) -> bool {
        true
    }

    /// An in-memory store takes every save.
    open spec fn spec_accepts(&self, tokens: TokenSet) -> bool {
        true
    }

    fn load(&self) -> (r: Result<TokenSet, KeyringError>)
        ensures
            r == spec_load(self.contents()),
    {
        match &self.inner {
            Some(t) => Ok(t.clone()),
            None => Err(KeyringError::Missing),
        }
    }

    fn save(&mut self, tokens: &TokenSet) -> (r: Result<(), KeyringError>)
        ensures
            r is Ok,
            final(self).contents() == Some(*tokens),
    {
        self.inner = Some(tokens.clone());
        Ok(())
    }

    fn delete(&mut self) -> (r: Result<(), KeyringError>)
        ensures
            r is Ok,
            final(self).contents() is None,
    {
        self.inner = None;
        Ok(())
    }
}

/// A load after a save gives back what was saved.
pub proof fn law_load_after_save(tokens: TokenSet)
    ensures
        spec_load(Some(tokens)) == Ok::<TokenSet, KeyringError>(tokens),
{
}

/// A load after a delete reports the credential missing.
pub proof fn law_load_after_delete()
    ensures
        spec_load(None) == Err::<TokenSet, KeyringError>(KeyringError::Missing),
{
}

// ---------------------------------------------------------------------------
// Secret Service store
// ---------------------------------------------------------------------------

/// The Secret Service entry the production store reads and writes.
#[derive(Debug, Clone)]
pub struct SecretServiceTokenStore {
    service: String,
    account: String,
}

impl SecretServiceTokenStore {
    /// The service name of the entry.
    pub closed spec fn spec_service(&self) -> Seq<char> {
        self.service@
    }

    /// The account name of the entry.
    pub closed spec fn spec_account(&self) -> Seq<char> {
        self.account@
    }

    /// The canonical `com.brunocasarotti.Cosmictify / spotify-oauth` entry.
    pub fn new() -> (s: Self)
        ensures
            s.spec_service() == SERVICE_NAME@,
            s.spec_account() == ACCOUNT_NAME@,
    {
        SecretServiceTokenStore { service: owned(SERVICE_NAME), account: owned(ACCOUNT_NAME) }
    }

    /// An explicit service/account pair.
    pub fn with_service_account(service: &str, account: &str) -> (s: Self)
        ensures
            s.spec_service() == service@,
            s.spec_account() == account@,
    {
        SecretServiceTokenStore { service: owned(service), account: owned(account) }
    }

    /// The service name of the entry.
    pub fn service(&self) -> (s: &str)
        ensures
            s@ == self.spec_service(),
    {
        self.service.as_str()
    }

    /// The account name of the entry.
    pub fn account(&self) -> (s: &str)
        ensures
            s@ == self.spec_account(),
    {
        self.account.as_str()
    }
}

impl Default for SecretServiceTokenStore {
    fn default() -> (s: Self)
        ensures
            s.spec_service() == SERVICE_NAME@,
            s.spec_account() == ACCOUNT_NAME@,
    {
        SecretServiceTokenStore::new()
    }
}

} // verus!
