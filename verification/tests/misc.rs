use vtk_backend::api::list_files::list_files;
use vtk_backend::api::register_file::{register_file, RegisterFileRequest};
use vtk_backend::api::share_file::{share_file, ShareFileRequest};
use vtk_backend::api::upload_file_atomic::{upload_file_atomic, UploadFileAtomicRequest};
use vtk_backend::api::vetkd::vetkd_derivation_principal;
use vtk_backend::principal::PrincipalId;
use vtk_backend::vetkeys::VetKeysManager;
use vtk_backend::api::download_file::download_file;
use vtk_backend::{ceil_division, get_time, FileDownloadResponse, FileSharingResponse, FileStatus, State};

fn test_principal() -> PrincipalId {
    PrincipalId::from_bytes(vec![1, 2, 3])
}

#[test]
fn ceil_division_rounds_up() {
    assert_eq!(ceil_division(0, 4), 0);
    assert_eq!(ceil_division(8, 4), 2);
    assert_eq!(ceil_division(9, 4), 3);
    assert_eq!(ceil_division(3, 5), 1);
}

#[test]
fn time_is_fixed() {
    assert_eq!(get_time(), 12345);
}

#[test]
fn list_files_reports_status() {
    let mut state = State::default();
    let caller = test_principal();
    let km = VetKeysManager::new();
    register_file(
        &caller,
        RegisterFileRequest {
            file_name: "a.txt".to_string(),
            storage_provider: "icp".to_string(),
            blob_id: None,
            requested_at: 777,
            uploaded_at: None,
        },
        &mut state,
    );
    upload_file_atomic(
        &caller,
        UploadFileAtomicRequest {
            name: "b.txt".to_string(),
            content: vec![1],
            file_type: "txt".to_string(),
            num_chunks: 1,
        },
        &mut state,
        &km,
        Some(vec![1]),
    )
    .unwrap();
    let listing = list_files(&caller, &state);
    assert_eq!(listing.len(), 2);
    assert_eq!(listing[0].file_id, 0);
    assert_eq!(listing[0].file_name, "a.txt".to_string());
    assert!(matches!(
        listing[0].file_status,
        FileStatus::Pending { requested_at: 777, .. }
    ));
    assert_eq!(listing[1].file_id, 1);
    assert!(matches!(
        listing[1].file_status,
        FileStatus::Uploaded { uploaded_at: 12345 }
    ));
}

fn one_chunk_state(owner: &PrincipalId) -> State {
    let mut state = State::default();
    let km = VetKeysManager::new();
    upload_file_atomic(
        owner,
        UploadFileAtomicRequest {
            name: "x".to_string(),
            content: vec![1],
            file_type: "txt".to_string(),
            num_chunks: 1,
        },
        &mut state,
        &km,
        Some(vec![1]),
    )
    .unwrap();
    state
}

#[test]
fn share_file_success() {
    let owner = test_principal();
    let shared_user = PrincipalId::from_bytes(vec![7, 7]);
    let mut state = one_chunk_state(&owner);
    let request = ShareFileRequest { file_id: 0, shared_with: vec![shared_user.clone()] };
    let result = share_file(&mut state, 0, &owner, request);
    assert_eq!(result, FileSharingResponse::Success);
    assert!(vtk_backend::api::file_sharing::is_file_shared_with_user(&state, 0, &shared_user));
}

#[test]
fn share_file_without_permission() {
    let owner = test_principal();
    let unauthorized_user = PrincipalId::from_bytes(vec![7, 7]);
    let shared_user = PrincipalId::from_bytes(vec![8, 8]);
    let mut state = one_chunk_state(&owner);
    let request = ShareFileRequest { file_id: 0, shared_with: vec![shared_user] };
    let result = share_file(&mut state, 0, &unauthorized_user, request);
    assert_eq!(result, FileSharingResponse::PermissionError);
}

#[test]
fn share_nonexistent_file() {
    let mut state = State::default();
    let caller = test_principal();
    let shared_user = PrincipalId::from_bytes(vec![9]);
    let request = ShareFileRequest { file_id: 42, shared_with: vec![shared_user] };
    let result = share_file(&mut state, 42, &caller, request);
    assert_eq!(result, FileSharingResponse::FileNotFound);
}

#[test]
fn share_pending_file_is_rejected() {
    let mut state = State::default();
    let caller = test_principal();
    let friend = PrincipalId::from_bytes(vec![9]);
    register_file(
        &caller,
        RegisterFileRequest {
            file_name: "a".to_string(),
            storage_provider: "icp".to_string(),
            blob_id: None,
            requested_at: 1,
            uploaded_at: None,
        },
        &mut state,
    );
    let result = share_file(
        &mut state,
        0,
        &caller,
        ShareFileRequest { file_id: 0, shared_with: vec![friend] },
    );
    assert_eq!(result, FileSharingResponse::PendingError);
}

#[test]
fn derivation_principal_tracks_file_owner() {
    let mut state = State::default();
    let owner = test_principal();
    let caller = PrincipalId::from_bytes(vec![8, 8]);
    let km = VetKeysManager::new();
    upload_file_atomic(
        &owner,
        UploadFileAtomicRequest {
            name: "x".to_string(),
            content: vec![1],
            file_type: "txt".to_string(),
            num_chunks: 1,
        },
        &mut state,
        &km,
        Some(vec![1]),
    )
    .unwrap();
    assert_eq!(
        vetkd_derivation_principal(&state, &caller, None),
        Some(vec![8, 8])
    );
    assert_eq!(
        vetkd_derivation_principal(&state, &caller, Some(0)),
        Some(vec![1, 2, 3])
    );
    assert_eq!(vetkd_derivation_principal(&state, &caller, Some(5)), None);
}

#[test]
fn shared_reader_gets_identical_bytes() {
    // One principal uploads a single-chunk file; a second, not shared,
    // is refused; after sharing, the second principal downloads the very
    // bytes that were uploaded.
    let mut state = State::default();
    let uploader = test_principal();
    let reader = PrincipalId::from_bytes(vec![2, 2]);
    let km = VetKeysManager::new();
    let key = vec![101u8, 55, 3];
    let body = vec![9u8, 8, 7, 6, 5];
    upload_file_atomic(
        &uploader,
        UploadFileAtomicRequest {
            name: "payload".to_string(),
            content: body.clone(),
            file_type: "bin".to_string(),
            num_chunks: 1,
        },
        &mut state,
        &km,
        Some(key.clone()),
    )
    .unwrap();

    let refused = download_file(&state, 0, 0, &reader, &km, &key);
    assert_eq!(refused, FileDownloadResponse::PermissionError);

    let shared = share_file(
        &mut state,
        0,
        &uploader,
        ShareFileRequest { file_id: 0, shared_with: vec![reader.clone()] },
    );
    assert_eq!(shared, FileSharingResponse::Success);

    match download_file(&state, 0, 0, &reader, &km, &key) {
        FileDownloadResponse::FoundFile(data) => assert_eq!(data.contents, body),
        other => panic!("expected the file, got {:?}", other),
    }
}
