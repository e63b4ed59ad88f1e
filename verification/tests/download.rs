use vtk_backend::api::download_file::download_file;
use vtk_backend::api::upload_file_atomic::{upload_file_atomic, UploadFileAtomicRequest};
use vtk_backend::principal::PrincipalId;
use vtk_backend::vetkeys::{EncryptedFileData, VetKeysConfig, VetKeysManager};
use vtk_backend::{File, FileContent, FileDownloadResponse, FileMetadata, State};

fn caller_principal() -> PrincipalId {
    PrincipalId::from_bytes(vec![1, 2, 3])
}

fn key() -> Vec<u8> {
    vec![11, 22, 33]
}

fn sealed_state(owner: &PrincipalId) -> State {
    let mut state = State::default();
    let km = VetKeysManager::new();
    let request = UploadFileAtomicRequest {
        name: "test_file.txt".to_string(),
        content: vec![1, 2, 3],
        file_type: "txt".to_string(),
        num_chunks: 1,
    };
    upload_file_atomic(owner, request, &mut state, &km, Some(key())).unwrap();
    state
}

#[test]
fn download_existing_uploaded_file() {
    let caller = caller_principal();
    let state = sealed_state(&caller);
    let km = VetKeysManager::new();
    let result = download_file(&state, 0, 0, &caller, &km, &key());
    match result {
        FileDownloadResponse::FoundFile(data) => {
            assert_eq!(data.contents, vec![1, 2, 3]);
            assert_eq!(data.file_type, "txt".to_string());
            assert_eq!(data.num_chunks, 1);
        }
        other => panic!("expected the file, got {:?}", other),
    }
}

#[test]
fn download_nonexistent_file() {
    let state = State::default();
    let caller = caller_principal();
    let km = VetKeysManager::new();
    let result = download_file(&state, 42, 0, &caller, &km, &key());
    assert_eq!(result, FileDownloadResponse::NotFoundFile);
}

#[test]
fn download_not_uploaded_file() {
    let mut state = State::default();
    let caller = caller_principal();
    let km = VetKeysManager::new();
    state.file_data.insert(
        0,
        File {
            metadata: FileMetadata {
                file_name: "test_file.txt".to_string(),
                requester_principal: caller.clone(),
                requested_at: 12345,
                uploaded_at: None,
                storage_provider: "icp".to_string(),
                blob_id: None,
                is_encrypted: false,
            },
            content: FileContent::Pending { alias: "abc".to_string() },
        },
    );
    let result = download_file(&state, 0, 0, &caller, &km, &key());
    assert_eq!(result, FileDownloadResponse::NotUploadedFile);
}

#[test]
fn download_without_permission() {
    let owner = caller_principal();
    let state = sealed_state(&owner);
    let unauthorized_caller = PrincipalId::from_bytes(vec![4, 5, 6]);
    let km = VetKeysManager::new();
    let result = download_file(&state, 0, 0, &unauthorized_caller, &km, &key());
    assert_eq!(result, FileDownloadResponse::PermissionError);
}

#[test]
fn download_with_missing_key_material_fails() {
    let caller = caller_principal();
    let state = sealed_state(&caller);
    let km = VetKeysManager::new();
    let result = download_file(&state, 0, 0, &caller, &km, &Vec::new());
    assert_eq!(result, FileDownloadResponse::DecryptionError);
}

#[test]
fn download_of_missing_chunk_is_not_found() {
    let caller = caller_principal();
    let state = sealed_state(&caller);
    let km = VetKeysManager::new();
    let result = download_file(&state, 0, 7, &caller, &km, &key());
    assert_eq!(result, FileDownloadResponse::NotFoundFile);
}

#[test]
fn download_by_shared_principal_via_envelope() {
    // A principal in the envelope's shared set may download, and the bytes
    // come from unsealing the envelope, not from the chunk store verbatim.
    let owner = caller_principal();
    let reader = PrincipalId::from_bytes(vec![7]);
    let mut state = State::default();
    let km = VetKeysManager::new();
    let plaintext = vec![10u8, 20, 30, 40];
    let envelope_key = key();
    let mut envelope: EncryptedFileData = km
        .seal_file(&plaintext, 0, &owner, Vec::new(), &envelope_key)
        .unwrap();
    km.share_file(&mut envelope, &vec![reader.clone()], &owner).unwrap();
    state.file_data.insert(
        0,
        File {
            metadata: FileMetadata {
                file_name: "x".to_string(),
                requester_principal: owner.clone(),
                requested_at: 12345,
                uploaded_at: Some(12345),
                storage_provider: "icp".to_string(),
                blob_id: None,
                is_encrypted: true,
            },
            content: FileContent::Uploaded {
                num_chunks: 1,
                file_type: "bin".to_string(),
                encrypted_file_data: envelope,
            },
        },
    );
    state.file_contents.insert((0, 0), plaintext.clone());
    state.file_owners.insert(owner.clone(), vec![0]);
    let result = download_file(&state, 0, 0, &reader, &km, &envelope_key);
    match result {
        FileDownloadResponse::FoundFile(data) => assert_eq!(data.contents, plaintext),
        other => panic!("expected the file, got {:?}", other),
    }
}

#[test]
fn envelope_config_is_recorded() {
    let owner = caller_principal();
    let state = sealed_state(&owner);
    match &state.file_data.get(&0).unwrap().content {
        FileContent::Uploaded { encrypted_file_data, .. } => {
            let config: &VetKeysConfig = &encrypted_file_data.vet_keys_config;
            // Fixed-width file id bytes followed by the owner's bytes.
            assert_eq!(config.derivation_id, vec![0, 0, 0, 0, 0, 0, 0, 0, 1, 2, 3]);
            assert_eq!(config.key_name, "insecure_test_key_1".to_string());
        }
        other => panic!("expected sealed content, got {:?}", other),
    }
}
