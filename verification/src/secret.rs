//! The store for secret values (API keys, secret environment variables).
//!
//! A native secure store (the macOS keychain) backs it on macOS only; the
//! portable backend here, which every other platform uses, stores nothing
//! and answers every request with `secure_store_unsupported`.
use vstd::prelude::*;

use crate::text::{chars_of, extend_str, owned, string_of};

verus! {

#[derive(Debug, Clone, Default)]
pub struct SecretStore;

#[derive(Debug, Clone)]
pub struct SecretStoreError {
    pub code: String,
    pub message: String,
}

pub open spec fn unsupported_message() -> Seq<char> {
    "Native secure environment-variable storage is currently implemented for macOS."@
}

/// The error of a platform without a native secure store.
pub open spec fn is_unsupported(e: SecretStoreError) -> bool {
    e.code@ == "secure_store_unsupported"@ && e.message@ == unsupported_message()
}

impl SecretStoreError {
    pub fn unsupported() -> (e: Self)
        ensures
            is_unsupported(e),
    {
        SecretStoreError {
            code: owned("secure_store_unsupported"),
            message: owned("Native secure environment-variable storage is currently implemented for macOS."),
        }
    }

    pub fn platform(code: &str, message: &str) -> (e: Self)
        ensures
            e.code@ == code@,
            e.message@ == message@,
    {
        SecretStoreError { code: owned(code), message: owned(message) }
    }

    /// The error as text: `code: message`.
    pub fn to_string(&self) -> (r: String)
        ensures
            r@ == self.code@ + ": "@ + self.message@,
    {
        let mut v = chars_of(self.code.as_str());
        extend_str(&mut v, ": ");
        extend_str(&mut v, self.message.as_str());
        string_of(&v)
    }
}

/// Stores a secret under a reference.
pub fn set(reference: &str, secret: &str) -> (r: Result<(), SecretStoreError>)
    ensures
        r matches Err(e) && is_unsupported(e),
{
    Err(SecretStoreError::unsupported())
}

/// The secret stored under a reference, if any.
pub fn get(reference: &str) -> (r: Result<Option<String>, SecretStoreError>)
    ensures
        r matches Err(e) && is_unsupported(e),
{
    Err(SecretStoreError::unsupported())
}

/// Removes the secret stored under a reference.
pub fn delete(reference: &str) -> (r: Result<(), SecretStoreError>)
    ensures
        r matches Err(e) && is_unsupported(e),
{
    Err(SecretStoreError::unsupported())
}

impl SecretStore {
    /// Whether a native secure store backs this store.
    pub fn is_available(&self) -> (r: bool)
        ensures
            !r,
    {
        false
    }

    pub fn set(&self, reference: &str, secret: &str) -> (r: Result<(), SecretStoreError>)
        ensures
            r matches Err(e) && is_unsupported(e),
    {
        set(reference, secret)
    }

    pub fn get(&self, reference: &str) -> (r: Result<Option<String>, SecretStoreError>)
        ensures
            r matches Err(e) && is_unsupported(e),
    {
        get(reference)
    }

    pub fn delete(&self, reference: &str) -> (r: Result<(), SecretStoreError>)
        ensures
            r matches Err(e) && is_unsupported(e),
    {
        delete(reference)
    }
}

} // verus!
