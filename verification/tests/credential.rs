use snipe::credential::{CredentialStorage, StorageError, DEFAULT_TARGET_NAME};

#[test]
fn test_mask_key() {
    assert_eq!(CredentialStorage::mask_key(""), "未配置");
    assert_eq!(CredentialStorage::mask_key("sk-1234"), "********");
    assert_eq!(CredentialStorage::mask_key("sk-proj-12345678abcdef"), "sk-...cdef");
    assert_eq!(CredentialStorage::mask_key("密钥前缀-123456"), "密钥前...3456");
}

#[test]
fn mask_key_boundary_lengths() {
    assert_eq!(CredentialStorage::mask_key("12345678"), "********");
    assert_eq!(CredentialStorage::mask_key("123456789"), "123...6789");
}

#[test]
fn rejects_invalid_target_name_and_oversized_secrets() {
    assert!(matches!(
        CredentialStorage::check_store_request("", "secret"),
        Err(StorageError::InvalidTargetName)
    ));
    assert!(matches!(
        CredentialStorage::check_store_request("bad\0target", "secret"),
        Err(StorageError::InvalidTargetName)
    ));
    assert!(matches!(
        CredentialStorage::check_store_request("Snipe/Test", &"x".repeat(2561)),
        Err(StorageError::SecretTooLarge { .. })
    ));
}

#[test]
fn size_limit_counts_bytes() {
    assert!(matches!(CredentialStorage::check_store_request("Snipe/Test", &"x".repeat(2560)), Ok(())));
    match CredentialStorage::check_store_request("Snipe/Test", &"é".repeat(1281)) {
        Err(StorageError::SecretTooLarge { actual, maximum }) => {
            assert_eq!(actual, 2562);
            assert_eq!(maximum, 2560);
        }
        other => panic!("unexpected {:?}", other),
    }
    assert!(matches!(CredentialStorage::check_target_name(DEFAULT_TARGET_NAME), Ok(())));
    assert!(matches!(CredentialStorage::check_target_name("a\0"), Err(StorageError::InvalidTargetName)));
}

#[test]
fn this_build_has_no_credential_store() {
    for name in ["", "bad\0target", DEFAULT_TARGET_NAME] {
        assert!(matches!(CredentialStorage::store_secret(name, "k"), Err(StorageError::UnsupportedPlatform)));
        assert!(matches!(CredentialStorage::read_secret(name), Err(StorageError::UnsupportedPlatform)));
        assert!(matches!(CredentialStorage::delete_secret(name), Err(StorageError::UnsupportedPlatform)));
    }
}
