use vtk_backend::api::register_file::{register_file, RegisterFileRequest};
use vtk_backend::api::upload_file_atomic::{upload_file_atomic, UploadFileAtomicRequest};
use vtk_backend::api::upload_file_continue::upload_file_continue;
use vtk_backend::principal::PrincipalId;
use vtk_backend::vetkeys::VetKeysManager;
use vtk_backend::{FileContent, State, UploadFileContinueRequest, UploadFileError};

fn test_principal() -> PrincipalId {
    PrincipalId::from_bytes(vec![1, 2, 3])
}

fn key() -> Option<Vec<u8>> {
    Some(vec![9, 7, 5, 3])
}

fn atomic_request(name: &str, content: Vec<u8>, file_type: &str, num_chunks: u64) -> UploadFileAtomicRequest {
    UploadFileAtomicRequest {
        name: name.to_string(),
        content,
        file_type: file_type.to_string(),
        num_chunks,
    }
}

#[test]
fn upload_single_chunk_file() {
    let mut state = State::default();
    let caller = test_principal();
    let km = VetKeysManager::new();
    let r = upload_file_atomic(&caller, atomic_request("f.txt", vec![1, 2, 3], "txt", 1), &mut state, &km, key());
    assert_eq!(r, Ok(0));
    let file = state.file_data.get(&0).unwrap();
    assert!(matches!(file.content, FileContent::Uploaded { num_chunks: 1, .. }));
    assert!(state.file_contents.get(&(0, 0)).is_some());
    assert_eq!(state.file_contents.get(&(0, 0)).unwrap(), vec![1, 2, 3]);
}

#[test]
fn upload_multi_chunk_file_first_chunk() {
    let mut state = State::default();
    let caller = test_principal();
    let km = VetKeysManager::new();
    let r = upload_file_atomic(&caller, atomic_request("f.bin", vec![1, 2], "bin", 3), &mut state, &km, key());
    assert_eq!(r, Ok(0));
    let file = state.file_data.get(&0).unwrap();
    assert!(matches!(file.content, FileContent::PartiallyUploaded { num_chunks: 3, .. }));
    assert!(state.file_contents.get(&(0, 0)).is_some());
    assert!(state.file_contents.get(&(0, 1)).is_none());
}

#[test]
fn file_id_increments() {
    let mut state = State::default();
    let caller = test_principal();
    let km = VetKeysManager::new();
    let a = upload_file_atomic(&caller, atomic_request("a", vec![1], "txt", 1), &mut state, &km, key());
    let b = upload_file_atomic(&caller, atomic_request("b", vec![2], "txt", 1), &mut state, &km, key());
    assert_eq!(a, Ok(0));
    assert_eq!(b, Ok(1));
}

#[test]
fn anonymous_user_cannot_upload() {
    let mut state = State::default();
    let km = VetKeysManager::new();
    let anon = PrincipalId::anonymous();
    let r = upload_file_atomic(&anon, atomic_request("a", vec![1], "txt", 1), &mut state, &km, key());
    assert!(matches!(r, Err(UploadFileError::NotAuthenticated)));
    assert!(state.file_data.get(&0).is_none());
    // The id counter did not advance on the refused attempt: the next
    // successful registration still gets the first id.
    let caller = test_principal();
    let reg = register_file(
        &caller,
        RegisterFileRequest {
            file_name: "first.txt".to_string(),
            storage_provider: "icp".to_string(),
            blob_id: None,
            requested_at: 12345,
            uploaded_at: None,
        },
        &mut state,
    );
    assert_eq!(reg.file_id, 0);
}

#[test]
fn upload_without_key_material_commits_nothing() {
    let mut state = State::default();
    let caller = test_principal();
    let km = VetKeysManager::new();
    let r = upload_file_atomic(&caller, atomic_request("a", vec![1], "txt", 1), &mut state, &km, None);
    assert!(matches!(r, Err(UploadFileError::EncryptionFailed)));
    assert!(state.file_data.get(&0).is_none());
    assert!(state.file_contents.get(&(0, 0)).is_none());
    let empty = upload_file_atomic(&caller, atomic_request("a", vec![1], "txt", 1), &mut state, &km, Some(vec![]));
    assert!(matches!(empty, Err(UploadFileError::EncryptionFailed)));
    assert!(state.file_data.get(&0).is_none());
}

#[test]
fn upload_file_continue_transitions() {
    let mut state = State::default();
    let caller = test_principal();
    let km = VetKeysManager::new();
    let r = upload_file_atomic(&caller, atomic_request("big", vec![0, 1], "bin", 3), &mut state, &km, key());
    assert_eq!(r, Ok(0));
    assert!(matches!(
        state.file_data.get(&0).unwrap().content,
        FileContent::PartiallyUploaded { .. }
    ));
    let c1 = upload_file_continue(
        &caller,
        UploadFileContinueRequest { file_id: 0, chunk_id: 1, contents: vec![2, 3] },
        &mut state,
    );
    assert_eq!(c1, Ok(()));
    assert!(matches!(
        state.file_data.get(&0).unwrap().content,
        FileContent::PartiallyUploaded { .. }
    ));
    let c2 = upload_file_continue(
        &caller,
        UploadFileContinueRequest { file_id: 0, chunk_id: 2, contents: vec![4, 5] },
        &mut state,
    );
    assert_eq!(c2, Ok(()));
    assert!(matches!(state.file_data.get(&0).unwrap().content, FileContent::Uploaded { .. }));
    assert_eq!(state.file_contents.get(&(0, 1)).unwrap(), vec![2, 3]);
    assert_eq!(state.file_contents.get(&(0, 2)).unwrap(), vec![4, 5]);
}

#[test]
fn anonymous_user_cannot_continue_upload() {
    let mut state = State::default();
    let anon = PrincipalId::anonymous();
    let r = upload_file_continue(
        &anon,
        UploadFileContinueRequest { file_id: 0, chunk_id: 0, contents: vec![1] },
        &mut state,
    );
    assert!(matches!(r, Err(UploadFileError::NotAuthenticated)));
}

#[test]
fn wrong_user_cannot_continue_upload() {
    let mut state = State::default();
    let owner = test_principal();
    let stranger = PrincipalId::from_bytes(vec![9, 9, 9]);
    let km = VetKeysManager::new();
    upload_file_atomic(&owner, atomic_request("big", vec![0], "bin", 2), &mut state, &km, key()).unwrap();
    let r = upload_file_continue(
        &stranger,
        UploadFileContinueRequest { file_id: 0, chunk_id: 1, contents: vec![1] },
        &mut state,
    );
    assert!(matches!(r, Err(UploadFileError::NotAuthenticated)));
}

#[test]
fn chunk_rewrite_and_range_are_rejected() {
    let mut state = State::default();
    let caller = test_principal();
    let km = VetKeysManager::new();
    upload_file_atomic(&caller, atomic_request("big", vec![0], "bin", 3), &mut state, &km, key()).unwrap();
    let rewrite = upload_file_continue(
        &caller,
        UploadFileContinueRequest { file_id: 0, chunk_id: 0, contents: vec![7] },
        &mut state,
    );
    assert!(matches!(rewrite, Err(UploadFileError::ChunkAlreadyUploaded)));
    let out_of_range = upload_file_continue(
        &caller,
        UploadFileContinueRequest { file_id: 0, chunk_id: 3, contents: vec![7] },
        &mut state,
    );
    assert!(matches!(out_of_range, Err(UploadFileError::ChunkOutOfRange)));
    let missing = upload_file_continue(
        &caller,
        UploadFileContinueRequest { file_id: 42, chunk_id: 0, contents: vec![7] },
        &mut state,
    );
    assert!(matches!(missing, Err(UploadFileError::NotRequested)));
}

#[test]
fn register_then_chunked_upload_completes() {
    // Registering yields the first id with a pending status; a three-chunk
    // upload then completes exactly when its last chunk arrives, and a
    // chunk cannot be rewritten afterwards.
    let mut state = State::default();
    let caller = test_principal();
    let km = VetKeysManager::new();
    let reg = register_file(
        &caller,
        RegisterFileRequest {
            file_name: "a.txt".to_string(),
            storage_provider: "icp".to_string(),
            blob_id: None,
            requested_at: 12345,
            uploaded_at: None,
        },
        &mut state,
    );
    assert_eq!(reg.file_id, 0);
    assert!(matches!(state.file_data.get(&0).unwrap().content, FileContent::Pending { .. }));

    let up = upload_file_atomic(&caller, atomic_request("b.txt", vec![10], "txt", 3), &mut state, &km, key());
    assert_eq!(up, Ok(1));
    for chunk_id in [1u64, 2u64] {
        let before_last = matches!(
            state.file_data.get(&1).unwrap().content,
            FileContent::PartiallyUploaded { .. }
        );
        assert!(before_last);
        let r = upload_file_continue(
            &caller,
            UploadFileContinueRequest { file_id: 1, chunk_id, contents: vec![chunk_id as u8] },
            &mut state,
        );
        assert_eq!(r, Ok(()));
    }
    assert!(matches!(state.file_data.get(&1).unwrap().content, FileContent::Uploaded { .. }));
    let rewrite = upload_file_continue(
        &caller,
        UploadFileContinueRequest { file_id: 1, chunk_id: 1, contents: vec![9] },
        &mut state,
    );
    assert!(matches!(rewrite, Err(UploadFileError::AlreadyUploaded)));
}
