use vtk_backend::api::file_sharing::{
    get_file_shared_users, get_shared_files, is_file_shared_with_user, share_file, unshare_file,
    ShareFileRequest, UnshareFileRequest,
};
use vtk_backend::api::upload_file_atomic::{upload_file_atomic, UploadFileAtomicRequest};
use vtk_backend::principal::PrincipalId;
use vtk_backend::users::PublicUser;
use vtk_backend::vetkeys::VetKeysManager;
use vtk_backend::{File, FileContent, FileMetadata, FileSharingResponse, State};

fn owner_principal() -> PrincipalId {
    PrincipalId::from_bytes(vec![1, 2, 3])
}

fn target_principal() -> PrincipalId {
    PrincipalId::from_bytes(vec![4, 5, 6])
}

fn state_with_users_and_file() -> State {
    let mut state = State::default();
    let owner = owner_principal();
    let target = target_principal();
    state.user_profiles.insert(
        owner.clone(),
        PublicUser {
            principal_id: owner.clone(),
            username: "owner".to_string(),
            display_name: Some("Owner User".to_string()),
        },
    );
    state.user_profiles.insert(
        target.clone(),
        PublicUser {
            principal_id: target.clone(),
            username: "target".to_string(),
            display_name: Some("Target User".to_string()),
        },
    );
    state.username_to_principal.insert("owner".to_string(), owner.clone());
    state.username_to_principal.insert("target".to_string(), target.clone());
    let km = VetKeysManager::new();
    let request = UploadFileAtomicRequest {
        name: "test_file.txt".to_string(),
        content: vec![1, 2, 3],
        file_type: "txt".to_string(),
        num_chunks: 1,
    };
    upload_file_atomic(&owner, request, &mut state, &km, Some(vec![9, 9])).unwrap();
    state
}

#[test]
fn test_share_file() {
    let mut state = state_with_users_and_file();
    let owner = owner_principal();
    let target = target_principal();

    let request = ShareFileRequest { file_id: 0, target_username: "target".to_string() };
    let result = share_file(&owner, request, &mut state);
    assert_eq!(result, FileSharingResponse::Success);
    assert!(is_file_shared_with_user(&state, 0, &target));
}

#[test]
fn test_unshare_file() {
    let mut state = state_with_users_and_file();
    let owner = owner_principal();
    let target = target_principal();

    let share = ShareFileRequest { file_id: 0, target_username: "target".to_string() };
    assert_eq!(share_file(&owner, share, &mut state), FileSharingResponse::Success);
    assert!(is_file_shared_with_user(&state, 0, &target));

    let request = UnshareFileRequest { file_id: 0, target_username: "target".to_string() };
    let result = unshare_file(&owner, request, &mut state);
    assert_eq!(result, FileSharingResponse::Success);
    assert!(!is_file_shared_with_user(&state, 0, &target));
}

#[test]
fn share_twice_records_target_once() {
    let mut state = state_with_users_and_file();
    let owner = owner_principal();
    let target = target_principal();
    for _ in 0..2 {
        let request = ShareFileRequest { file_id: 0, target_username: "target".to_string() };
        assert_eq!(share_file(&owner, request, &mut state), FileSharingResponse::Success);
    }
    match &state.file_data.get(&0).unwrap().content {
        FileContent::Uploaded { encrypted_file_data, .. } => {
            let hits = encrypted_file_data
                .shared_with
                .iter()
                .filter(|p| p.as_bytes() == target.as_bytes())
                .count();
            assert_eq!(hits, 1);
        }
        other => panic!("expected sealed content, got {:?}", other),
    }
    assert_eq!(get_shared_files(&target, &state).shared_files, vec![0]);
}

#[test]
fn unshare_of_not_shared_target_is_noop_success() {
    let mut state = state_with_users_and_file();
    let owner = owner_principal();
    let target = target_principal();
    let request = UnshareFileRequest { file_id: 0, target_username: "target".to_string() };
    let result = unshare_file(&owner, request, &mut state);
    assert_eq!(result, FileSharingResponse::Success);
    assert!(!is_file_shared_with_user(&state, 0, &target));
}

#[test]
fn share_errors_are_typed() {
    let mut state = state_with_users_and_file();
    let owner = owner_principal();
    let target = target_principal();
    let anon = PrincipalId::anonymous();

    let by_anon = ShareFileRequest { file_id: 0, target_username: "target".to_string() };
    assert_eq!(share_file(&anon, by_anon, &mut state), FileSharingResponse::NotAuthenticated);

    let by_stranger = ShareFileRequest { file_id: 0, target_username: "owner".to_string() };
    assert_eq!(
        share_file(&target, by_stranger, &mut state),
        FileSharingResponse::PermissionError
    );

    let unknown_user = ShareFileRequest { file_id: 0, target_username: "nobody".to_string() };
    assert_eq!(share_file(&owner, unknown_user, &mut state), FileSharingResponse::UserNotFound);

    let with_self = ShareFileRequest { file_id: 0, target_username: "owner".to_string() };
    assert_eq!(share_file(&owner, with_self, &mut state), FileSharingResponse::InvalidInput);

    let unshare_unknown = UnshareFileRequest { file_id: 0, target_username: "nobody".to_string() };
    assert_eq!(
        unshare_file(&owner, unshare_unknown, &mut state),
        FileSharingResponse::UserNotFound
    );
}

#[test]
fn share_of_unsealed_partial_file_is_rejected() {
    let mut state = state_with_users_and_file();
    let owner = owner_principal();
    state.file_data.insert(
        1,
        File {
            metadata: FileMetadata {
                file_name: "partial".to_string(),
                requester_principal: owner.clone(),
                requested_at: 12345,
                uploaded_at: None,
                storage_provider: "icp".to_string(),
                blob_id: None,
                is_encrypted: false,
            },
            content: FileContent::PartiallyUploaded {
                num_chunks: 2,
                file_type: "bin".to_string(),
                encrypted_file_data: None,
            },
        },
    );
    state.file_owners.insert(owner.clone(), vec![0, 1]);
    state.file_count = 2;
    let request = ShareFileRequest { file_id: 1, target_username: "target".to_string() };
    let result = share_file(&owner, request, &mut state);
    assert_eq!(result, FileSharingResponse::FileNotUploaded);
}

#[test]
fn shared_users_lists_profiles() {
    let mut state = state_with_users_and_file();
    let owner = owner_principal();
    let request = ShareFileRequest { file_id: 0, target_username: "target".to_string() };
    assert_eq!(share_file(&owner, request, &mut state), FileSharingResponse::Success);
    let users = get_file_shared_users(&state, 0);
    assert_eq!(users.len(), 1);
    assert_eq!(users[0].username, "target".to_string());
    assert_eq!(users[0].display_name, Some("Target User".to_string()));
}

#[test]
fn owned_and_shared_lists_come_from_one_snapshot() {
    let mut state = state_with_users_and_file();
    let owner = owner_principal();
    let target = target_principal();
    let request = ShareFileRequest { file_id: 0, target_username: "target".to_string() };
    assert_eq!(share_file(&owner, request, &mut state), FileSharingResponse::Success);
    let of_owner = get_shared_files(&owner, &state);
    assert_eq!(of_owner.owned_files, vec![0]);
    assert!(of_owner.shared_files.is_empty());
    let of_target = get_shared_files(&target, &state);
    assert!(of_target.owned_files.is_empty());
    assert_eq!(of_target.shared_files, vec![0]);
}
