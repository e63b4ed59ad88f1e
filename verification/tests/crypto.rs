use vtk_backend::principal::PrincipalId;
use vtk_backend::vetkeys::{derivation_id_for, VetKeyService, VetKeysError, VetKeysManager};

#[test]
fn test_xor_encryption() {
    let data = b"Hello, World!";
    let key = b"secret_key_123";

    let encrypted = VetKeyService::xor_encrypt(data, key);
    let decrypted = VetKeyService::xor_decrypt(&encrypted, key);

    assert_eq!(data, decrypted.as_slice());
}

#[test]
fn seal_then_unseal_by_owner_roundtrips() {
    let km = VetKeysManager::new();
    let owner = PrincipalId::from_bytes(vec![1, 2, 3]);
    let plaintext = vec![42u8, 0, 13, 200, 7];
    let key = vec![81u8, 3, 255];
    let envelope = km.seal_file(&plaintext, 5, &owner, Vec::new(), &key).unwrap();
    assert_ne!(envelope.encrypted_content, plaintext);
    let back = km.decrypt_file(&envelope, &owner, &key).unwrap();
    assert_eq!(back, plaintext);
}

#[test]
fn unseal_by_stranger_is_permission_denied() {
    let km = VetKeysManager::new();
    let owner = PrincipalId::from_bytes(vec![1]);
    let stranger = PrincipalId::from_bytes(vec![2]);
    let key = vec![5u8, 6];
    let envelope = km.seal_file(&vec![1, 2, 3], 0, &owner, Vec::new(), &key).unwrap();
    let r = km.decrypt_file(&envelope, &stranger, &key);
    assert_eq!(r, Err(VetKeysError::PermissionDenied));
}

#[test]
fn unseal_with_empty_key_fails() {
    let km = VetKeysManager::new();
    let owner = PrincipalId::from_bytes(vec![1]);
    let key = vec![5u8, 6];
    let envelope = km.seal_file(&vec![1, 2, 3], 0, &owner, Vec::new(), &key).unwrap();
    let r = km.decrypt_file(&envelope, &owner, &Vec::new());
    assert_eq!(r, Err(VetKeysError::DecryptionFailed));
}

#[test]
fn seal_with_empty_key_fails() {
    let km = VetKeysManager::new();
    let owner = PrincipalId::from_bytes(vec![1]);
    let r = km.seal_file(&vec![1, 2, 3], 0, &owner, Vec::new(), &Vec::new());
    assert_eq!(r, Err(VetKeysError::EncryptionFailed));
}

#[test]
fn grant_is_idempotent_on_envelope() {
    let km = VetKeysManager::new();
    let owner = PrincipalId::from_bytes(vec![1]);
    let friend = PrincipalId::from_bytes(vec![2]);
    let key = vec![5u8];
    let mut envelope = km.seal_file(&vec![1], 0, &owner, Vec::new(), &key).unwrap();
    km.share_file(&mut envelope, &vec![friend.clone()], &owner).unwrap();
    km.share_file(&mut envelope, &vec![friend.clone()], &owner).unwrap();
    assert_eq!(envelope.shared_with.len(), 1);
    let r = km.share_file(&mut envelope, &vec![owner.clone()], &friend);
    assert_eq!(r, Err(VetKeysError::PermissionDenied));
}

#[test]
fn unshare_of_unshared_principal_is_noop() {
    let km = VetKeysManager::new();
    let owner = PrincipalId::from_bytes(vec![1]);
    let friend = PrincipalId::from_bytes(vec![2]);
    let key = vec![5u8];
    let mut envelope = km.seal_file(&vec![1], 0, &owner, Vec::new(), &key).unwrap();
    let r = km.unshare_file(&mut envelope, &vec![friend], &owner);
    assert_eq!(r, Ok(()));
    assert_eq!(envelope.shared_with.len(), 0);
}

#[test]
fn derivation_ids_differ_per_file_and_owner() {
    let a = PrincipalId::from_bytes(vec![1]);
    let b = PrincipalId::from_bytes(vec![2]);
    let id_a0 = derivation_id_for(0, &a);
    let id_a1 = derivation_id_for(1, &a);
    let id_b0 = derivation_id_for(0, &b);
    assert_ne!(id_a0, id_a1);
    assert_ne!(id_a0, id_b0);
    assert_ne!(id_a1, id_b0);
    assert_eq!(id_a0, derivation_id_for(0, &a));
}
