//! Storage of the AI service's API key in the platform credential store,
//! and the masked form of a key shown in the user interface.

use vstd::prelude::*;
use crate::text::{chars_of, push_char, push_str};

verus! {

/// Why a credential could not be stored, read or deleted.
#[derive(Debug)]
pub enum StorageError {
    NotFound(String),
    WindowsError(i32),
    InvalidTargetName,
    SecretTooLarge { actual: usize, maximum: usize },
    InvalidUtf8,
    UnsupportedPlatform,
}

pub const DEFAULT_TARGET_NAME: &'static str = "Snipe/AI/ApiKey";

/// Largest secret the credential store holds, in bytes.
pub const MAX_CREDENTIAL_BLOB_SIZE: usize = 2560;

/// Access to the platform credential store.
#[derive(Debug, Clone, Copy)]
pub struct CredentialStorage;

/// A key as shown in the user interface: a notice when there is none, stars
/// for a key of at most eight characters, otherwise its first three and last
/// four characters around an ellipsis.
pub open spec fn spec_mask_key(k: Seq<char>) -> Seq<char> {
    if k.len() == 0 {
        "未配置"@
    } else if k.len() <= 8 {
        "********"@
    } else {
        k.subrange(0, 3) + "..."@ + k.subrange(k.len() - 4, k.len() as int)
    }
}

/// Whether a credential target name is usable: not empty and free of NUL.
pub open spec fn valid_target_name(t: Seq<char>) -> bool {
    t.len() > 0 && !t.contains('\0')
}

/// The result of the argument checks the store applies before writing.
pub open spec fn spec_check_store(target: Seq<char>, secret_len: int) -> Result<(), StorageError> {
    if !valid_target_name(target) {
        Err(StorageError::InvalidTargetName)
    } else if secret_len > MAX_CREDENTIAL_BLOB_SIZE {
        Err(StorageError::SecretTooLarge { actual: secret_len as usize, maximum: MAX_CREDENTIAL_BLOB_SIZE })
    } else {
        Ok(())
    }
}

fn has_nul(v: &Vec<char>) -> (b: bool)
    ensures
        b == v@.contains('\0'),
{
    let mut i: usize = 0;
    while i < v.len()
        invariant
            i <= v@.len(),
            forall|j: int| 0 <= j < i ==> v@[j] != '\0',
        decreases v@.len() - i,
    {
        if v[i] == '\0' {
            assert(v@[i as int] == '\0');
            return true;
        }
        i = i + 1;
    }
    false
}

impl CredentialStorage {
    /// Masks an API key for display.
    pub fn mask_key(key: &str) -> (s: String)
        ensures
            s@ == spec_mask_key(key@),
    {
        let chars = chars_of(key);
        let n = chars.len();
        let mut s = String::new();
        if n == 0 {
            push_str(&mut s, "未配置");
            return s;
        }
        if n <= 8 {
            push_str(&mut s, "********");
            return s;
        }
        let ghost before = s@;
        push_char(&mut s, chars[0]);
        push_char(&mut s, chars[1]);
        push_char(&mut s, chars[2]);
        assert(s@ == chars@.subrange(0, 3));
        push_str(&mut s, "...");
        let ghost mid = s@;
        let mut i: usize = n - 4;
        while i < n
            invariant
                n == chars@.len(),
                n > 8,
                n - 4 <= i <= n,
                s@ == mid + chars@.subrange(n - 4, i as int),
            decreases n - i,
        {
            push_char(&mut s, chars[i]);
            i = i + 1;
        }
        s
    }

    /// The checks applied before a secret is written: the target name must be
    /// non-empty and free of NUL, the secret at most 2560 bytes.
    pub fn check_store_request(target_name: &str, secret: &str) -> (r: Result<(), StorageError>)
        ensures
            r == spec_check_store(target_name@, secret.len() as int),
    {
        let t = chars_of(target_name);
        if t.len() == 0 || has_nul(&t) {
            return Err(StorageError::InvalidTargetName);
        }
        if secret.len() > MAX_CREDENTIAL_BLOB_SIZE {
            return Err(StorageError::SecretTooLarge { actual: secret.len(), maximum: MAX_CREDENTIAL_BLOB_SIZE });
        }
        Ok(())
    }

    /// The check applied before a credential is read or deleted: the
    /// target name must be non-empty and free of NUL.
    pub fn check_target_name(target_name: &str) -> (r: Result<(), StorageError>)
        ensures
            valid_target_name(target_name@) ==> r is Ok,
            !valid_target_name(target_name@) ==> r matches Err(StorageError::InvalidTargetName),
    {
        let t = chars_of(target_name);
        if t.len() == 0 || has_nul(&t) {
            return Err(StorageError::InvalidTargetName);
        }
        Ok(())
    }

    /// Stores a secret. This build has no platform credential store: every
    /// request fails with `UnsupportedPlatform`. (Where there is one,
    /// `check_store_request` holds the checks made before writing.)
    pub fn store_secret(target_name: &str, secret: &str) -> (r: Result<(), StorageError>)
        ensures
            r matches Err(StorageError::UnsupportedPlatform),
    {
        let _ = target_name;
        let _ = secret;
        Err(StorageError::UnsupportedPlatform)
    }

    /// Reads a secret. This build has no platform credential store: every
    /// request fails with `UnsupportedPlatform`. (Where there is one,
    /// `check_target_name` holds the check made before reading.)
    pub fn read_secret(target_name: &str) -> (r: Result<String, StorageError>)
        ensures
            r matches Err(StorageError::UnsupportedPlatform),
    {
        let _ = target_name;
        Err(StorageError::UnsupportedPlatform)
    }

    /// Deletes a secret. This build has no platform credential store: every
    /// request fails with `UnsupportedPlatform`. (Where there is one,
    /// `check_target_name` holds the check made before deleting.)
    pub fn delete_secret(target_name: &str) -> (r: Result<(), StorageError>)
        ensures
            r matches Err(StorageError::UnsupportedPlatform),
    {
        let _ = target_name;
        Err(StorageError::UnsupportedPlatform)
    }
}

} // verus!
