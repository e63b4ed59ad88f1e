use vstd::prelude::*;

use crate::principal::{anonymous_bytes, PrincipalId};
use crate::vetkeys::{can_access, xor_bytes, VetKeysManager};
use crate::{content_envelope, content_file_type, content_num_chunks, File, FileContent, FileData,
    FileDownloadResponse, State};

verus! {

/// Whether `p` may read the file: it is the file's requester, or the file
/// carries an envelope whose access set (owner or shared) admits `p`.
pub open spec fn may_download(f: File, p: Seq<u8>) -> bool {
    ||| f.metadata.requester_principal@ == p
    ||| match content_envelope(f.content) {
        Some(e) => can_access(e, p),
        None => false,
    }
}

/// Serves one chunk-addressed read of a file.  The caller must be the owner
/// or a principal the file is shared with; the check comes before any state
/// of the content is revealed and before any cryptographic work.  On success
/// the envelope is unsealed with the key material fetched for its derivation
/// identifier, and the plaintext is returned with the file's type and chunk
/// count.
pub fn download_file(
    s: &State,
    file_id: u64,
    chunk_id: u64,
    caller: &PrincipalId,
    km: &VetKeysManager,
    key_material: &Vec<u8>,
) -> (r: FileDownloadResponse)
    requires
        s.inv(),
    ensures
        caller@ == anonymous_bytes() ==> r == FileDownloadResponse::PermissionError,
        caller@ != anonymous_bytes() && !s.files().contains_key(file_id) ==> r
            == FileDownloadResponse::NotFoundFile,
        caller@ != anonymous_bytes() && s.files().contains_key(file_id) && !may_download(
            s.files()[file_id],
            caller@,
        ) ==> r == FileDownloadResponse::PermissionError,
        caller@ != anonymous_bytes() && s.files().contains_key(file_id) && may_download(
            s.files()[file_id],
            caller@,
        ) ==> {
            let f = s.files()[file_id];
            match content_envelope(f.content) {
                None => r == FileDownloadResponse::NotUploadedFile,
                Some(e) => {
                    if !s.chunks().contains_key((file_id, chunk_id)) {
                        r == FileDownloadResponse::NotFoundFile
                    } else if key_material@.len() == 0 {
                        r == FileDownloadResponse::DecryptionError
                    } else {
                        match r {
                            FileDownloadResponse::FoundFile(d) => {
                                &&& d.contents@ == xor_bytes(e.encrypted_content@, key_material@)
                                &&& Some(d.file_type@) == content_file_type(f.content)
                                &&& d.num_chunks == content_num_chunks(f.content)
                            },
                            _ => false,
                        }
                    }
                },
            }
        },
{
    if caller.is_anonymous() {
        return FileDownloadResponse::PermissionError;
    }
    let file = match s.file_data.get(&file_id) {
        None => {
            return FileDownloadResponse::NotFoundFile;
        },
        Some(f) => f,
    };
    let is_requester = file.metadata.requester_principal.eq(caller);
    match &file.content {
        FileContent::Pending { .. } => {
            if !is_requester {
                FileDownloadResponse::PermissionError
            } else {
                FileDownloadResponse::NotUploadedFile
            }
        },
        FileContent::PartiallyUploaded { encrypted_file_data: None, .. } => {
            if !is_requester {
                FileDownloadResponse::PermissionError
            } else {
                FileDownloadResponse::NotUploadedFile
            }
        },
        FileContent::Uploaded { num_chunks, file_type, encrypted_file_data: env } => {
            download_sealed(
                s,
                file_id,
                chunk_id,
                caller,
                km,
                key_material,
                is_requester,
                env,
                file_type,
                *num_chunks,
            )
        },
        FileContent::PartiallyUploaded {
            num_chunks,
            file_type,
            encrypted_file_data: Some(env),
        } => {
            download_sealed(
                s,
                file_id,
                chunk_id,
                caller,
                km,
                key_material,
                is_requester,
                env,
                file_type,
                *num_chunks,
            )
        },
    }
}

/// The sealed-content path of a download: authorization against the
/// envelope, then the chunk-presence check, then unsealing.
#[verifier::spinoff_prover]
fn download_sealed(
    s: &State,
    file_id: u64,
    chunk_id: u64,
    caller: &PrincipalId,
    km: &VetKeysManager,
    key_material: &Vec<u8>,
    is_requester: bool,
    env: &crate::vetkeys::EncryptedFileData,
    file_type: &String,
    num_chunks: u64,
) -> (r: FileDownloadResponse)
    requires
        s.inv(),
        s.files().contains_key(file_id),
        content_envelope(s.files()[file_id].content) == Some(*env),
        content_file_type(s.files()[file_id].content) == Some(file_type@),
        content_num_chunks(s.files()[file_id].content) == num_chunks,
        is_requester == (s.files()[file_id].metadata.requester_principal@ == caller@),
    ensures
        !may_download(s.files()[file_id], caller@) ==> r == FileDownloadResponse::PermissionError,
        may_download(s.files()[file_id], caller@) ==> {
            if !s.chunks().contains_key((file_id, chunk_id)) {
                r == FileDownloadResponse::NotFoundFile
            } else if key_material@.len() == 0 {
                r == FileDownloadResponse::DecryptionError
            } else {
                match r {
                    FileDownloadResponse::FoundFile(d) => {
                        &&& d.contents@ == xor_bytes(env.encrypted_content@, key_material@)
                        &&& d.file_type@ == file_type@
                        &&& d.num_chunks == num_chunks
                    },
                    _ => false,
                }
            }
        },
{
    let allowed = if is_requester {
        true
    } else if caller.eq(&env.owner_principal) {
        true
    } else {
        crate::vetkeys::contains_principal(&env.shared_with, caller)
    };
    if !allowed {
        return FileDownloadResponse::PermissionError;
    }
    if !s.file_contents.contains_key(&(file_id, chunk_id)) {
        return FileDownloadResponse::NotFoundFile;
    }
    proof {
        // The envelope names the requester as its owner, so an authorized
        // caller always passes the unseal access check.
        assert(env.owner_principal@ == s.files()[file_id].metadata.requester_principal@);
        assert(can_access(*env, caller@));
    }
    match km.decrypt_file(env, caller, key_material) {
        Ok(contents) => FileDownloadResponse::FoundFile(
            FileData { contents, file_type: file_type.clone(), num_chunks },
        ),
        Err(_) => FileDownloadResponse::DecryptionError,
    }
}

} // verus!
