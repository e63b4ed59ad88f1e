use vtk_backend::api::delete_file::{delete_file, DeleteFileResult};
use vtk_backend::principal::PrincipalId;
use vtk_backend::vetkeys::{EncryptedFileData, VetKeysConfig};
use vtk_backend::api::file_sharing::{is_file_shared_with_user, share_file, ShareFileRequest};
use vtk_backend::api::upload_file_atomic::{upload_file_atomic, UploadFileAtomicRequest};
use vtk_backend::api::upload_file_continue::upload_file_continue;
use vtk_backend::vetkeys::VetKeysManager;
use vtk_backend::{File, FileContent, FileMetadata, State, UploadFileContinueRequest};

fn test_principal() -> PrincipalId {
    PrincipalId::from_bytes(vec![1, 2, 3])
}

fn uploaded_file(owner: &PrincipalId) -> File {
    File {
        metadata: FileMetadata {
            file_name: "test_file.txt".to_string(),
            requester_principal: owner.clone(),
            requested_at: 12345,
            uploaded_at: Some(12345),
            storage_provider: "icp".to_string(),
            blob_id: None,
            is_encrypted: true,
        },
        content: FileContent::Uploaded {
            num_chunks: 1,
            file_type: "txt".to_string(),
            encrypted_file_data: EncryptedFileData {
                encrypted_content: vec![1, 2, 3],
                owner_principal: owner.clone(),
                shared_with: vec![],
                vet_keys_config: VetKeysConfig {
                    derivation_id: vec![0],
                    key_name: "test_key".to_string(),
                    encryption_public_key: vec![0],
                },
            },
        },
    }
}

#[test]
fn delete_existing_file() {
    let mut state = State::default();
    let test_principal = test_principal();

    state.file_data.insert(0, uploaded_file(&test_principal));
    state.file_contents.insert((0, 0), vec![1, 2, 3]);
    state.file_owners.insert(test_principal.clone(), vec![0]);

    let result = delete_file(&mut state, &test_principal, 0);

    assert_eq!(result, DeleteFileResult::Success);
    assert!(!state.file_data.contains_key(&0));
    assert!(state.file_contents.get(&(0, 0)).is_none());
    assert!(!state
        .file_owners
        .get_list(&test_principal)
        .contains(&0));
}

#[test]
fn delete_nonexistent_file() {
    let mut state = State::default();
    let test_principal = test_principal();

    // A caller that never owned the file is refused without revealing
    // whether the file exists.
    let result = delete_file(&mut state, &test_principal, 42);
    assert_eq!(result, DeleteFileResult::PermissionError);
}

#[test]
fn anonymous_user_cannot_delete() {
    let mut state = State::default();
    let result = delete_file(&mut state, &PrincipalId::anonymous(), 42);
    assert_eq!(result, DeleteFileResult::NotAuthenticated);
}

#[test]
fn wrong_user_cannot_delete() {
    let mut state = State::default();
    let test_principal1 = test_principal();
    let test_principal2 = PrincipalId::from_bytes(vec![9, 8, 7]);

    state.file_data.insert(0, uploaded_file(&test_principal1));
    state.file_owners.insert(test_principal1.clone(), vec![0]);

    let result = delete_file(&mut state, &test_principal2, 0);
    assert_eq!(result, DeleteFileResult::PermissionError);
    assert!(state.file_data.contains_key(&0));
}

#[test]
fn delete_with_dangling_ownership_prunes_the_entry() {
    // If an owned-list entry survives without a file record, the delete
    // reports the missing record and still prunes the entry.
    let mut state = State::default();
    let p = test_principal();
    state.file_owners.insert(p.clone(), vec![5]);
    let result = delete_file(&mut state, &p, 5);
    assert_eq!(result, DeleteFileResult::NotFound);
    assert!(!state.file_owners.get_list(&p).contains(&5));
}

#[test]
fn delete_is_complete() {
    // After a successful delete nothing of the file remains: no chunk under
    // its id, no owned-list entry, no sharing reference; a second delete of
    // the same id is refused.
    let mut state = State::default();
    let owner = test_principal();
    let friend = PrincipalId::from_bytes(vec![4]);
    state.username_to_principal.insert("friend".to_string(), friend.clone());
    let km = VetKeysManager::new();
    upload_file_atomic(
        &owner,
        UploadFileAtomicRequest {
            name: "doc".to_string(),
            content: vec![1],
            file_type: "txt".to_string(),
            num_chunks: 2,
        },
        &mut state,
        &km,
        Some(vec![3, 1, 4]),
    )
    .unwrap();
    upload_file_continue(
        &owner,
        UploadFileContinueRequest { file_id: 0, chunk_id: 1, contents: vec![2] },
        &mut state,
    )
    .unwrap();
    share_file(
        &owner,
        ShareFileRequest { file_id: 0, target_username: "friend".to_string() },
        &mut state,
    );
    assert!(is_file_shared_with_user(&state, 0, &friend));

    let result = delete_file(&mut state, &owner, 0);
    assert_eq!(result, DeleteFileResult::Success);
    assert!(state.file_contents.get(&(0, 0)).is_none());
    assert!(state.file_contents.get(&(0, 1)).is_none());
    assert!(!state.file_owners.get_list(&owner).contains(&0));
    assert!(!is_file_shared_with_user(&state, 0, &friend));

    let again = delete_file(&mut state, &owner, 0);
    assert_eq!(again, DeleteFileResult::PermissionError);
}
