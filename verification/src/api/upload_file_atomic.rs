use vstd::prelude::*;

use crate::principal::{anonymous_bytes, PrincipalId};
use crate::vetkeys::{principal_views, xor_bytes, spec_derivation_id, VetKeysManager};
use crate::{
    content_chunks_ok, content_envelope, content_file_type, content_num_chunks, spec_get_time,
    File, FileContent, FileMetadata, State, UploadFileError,
};

verus! {

pub struct UploadFileAtomicRequest {
    pub name: String,
    pub content: Vec<u8>,
    pub file_type: String,
    pub num_chunks: u64,
}

/// Uploads a file in one call: allocates the next id, seals the content for
/// the caller with the key material fetched for this (id, caller) pair,
/// stores the bytes as chunk 0, and records the caller as owner.  The content
/// state becomes `Uploaded` for a one-chunk file and `PartiallyUploaded`
/// otherwise.
///
/// An anonymous caller is refused before any state is touched, so the file-id
/// counter does not advance on an authentication failure; nor does it when
/// the key material is missing (the gateway failed) or empty, so a failed
/// upload commits nothing at all.
pub fn upload_file_atomic(
    caller: &PrincipalId,
    request: UploadFileAtomicRequest,
    state: &mut State,
    manager: &VetKeysManager,
    key_material: Option<Vec<u8>>,
) -> (r: Result<u64, UploadFileError>)
    requires
        old(state).inv(),
        old(state).spec_file_count() < u64::MAX,
        request.num_chunks >= 1,
    ensures
        final(state).inv(),
        caller@ == anonymous_bytes() ==> r == Err::<u64, UploadFileError>(
            UploadFileError::NotAuthenticated,
        ) && *final(state) == *old(state),
        caller@ != anonymous_bytes() && (key_material is None || key_material->0@.len() == 0)
            ==> r == Err::<u64, UploadFileError>(UploadFileError::EncryptionFailed) && *final(state)
            == *old(state),
        caller@ != anonymous_bytes() && key_material is Some && key_material->0@.len() > 0 ==> {
            let file_id = old(state).spec_file_count();
            let key = key_material->0@;
            &&& r == Ok::<u64, UploadFileError>(file_id)
            &&& final(state).spec_file_count() == file_id + 1
            &&& final(state).files().contains_key(file_id)
            &&& ({
                let f = final(state).files()[file_id];
                &&& f.metadata.file_name@ == request.name@
                &&& f.metadata.requester_principal@ == caller@
                &&& f.metadata.requested_at == spec_get_time()
                &&& f.metadata.uploaded_at == Some(spec_get_time())
                &&& f.metadata.storage_provider@ == "icp"@
                &&& f.metadata.blob_id is None
                &&& f.metadata.is_encrypted == true
                &&& (f.content is Uploaded <==> request.num_chunks == 1)
                &&& (f.content is PartiallyUploaded <==> request.num_chunks > 1)
                &&& content_num_chunks(f.content) == request.num_chunks
                &&& content_file_type(f.content) == Some(request.file_type@)
                &&& ({
                    let e = content_envelope(f.content)->0;
                    &&& content_envelope(f.content) is Some
                    &&& e.encrypted_content@ == xor_bytes(request.content@, key)
                    &&& e.owner_principal@ == caller@
                    &&& e.shared_with@.len() == 0
                    &&& e.vet_keys_config.derivation_id@ == spec_derivation_id(file_id, caller@)
                })
            })
            &&& forall|id: u64|
                id != file_id ==> final(state).files().contains_key(id) == old(state).files().contains_key(id)
            &&& forall|id: u64|
                id != file_id && old(state).files().contains_key(id) ==> final(state).files()[id]
                    == old(state).files()[id]
            &&& final(state).chunks().contains_key((file_id, 0))
            &&& final(state).chunks()[(file_id, 0)] == request.content@
            &&& forall|k: (u64, u64)| k != (file_id, 0u64) ==> final(state).chunks().contains_key(k)
                == old(state).chunks().contains_key(k)
            &&& forall|k: (u64, u64)|
                k != (file_id, 0u64) && old(state).chunks().contains_key(k)
                    ==> final(state).chunks()[k] == old(state).chunks()[k]
            &&& final(state).owned_ids(caller@) == old(state).owned_ids(caller@).push(file_id)
            &&& forall|q: Seq<u8>|
                q != caller@ ==> final(state).owned_ids(q) == old(state).owned_ids(q)
            &&& forall|q: Seq<u8>| final(state).shared_ids(q) == old(state).shared_ids(q)
            &&& final(state).username_to_principal == old(state).username_to_principal
            &&& final(state).user_profiles == old(state).user_profiles
        },
{
    if caller.is_anonymous() {
        return Err(UploadFileError::NotAuthenticated);
    }
    let key = match key_material {
        None => {
            return Err(UploadFileError::EncryptionFailed);
        },
        Some(k) => k,
    };
    if key.len() == 0 {
        return Err(UploadFileError::EncryptionFailed);
    }
    let ghost pre = *old(state);

    let file_id = state.generate_file_id();
    let envelope = match manager.seal_file(&request.content, file_id, caller, Vec::new(), &key) {
        Ok(e) => e,
        Err(_) => {
            proof {
                assert(false);
            }
            return Err(UploadFileError::EncryptionFailed);
        },
    };

    let content = if request.num_chunks == 1 {
        FileContent::Uploaded {
            num_chunks: request.num_chunks,
            file_type: request.file_type,
            encrypted_file_data: envelope,
        }
    } else {
        FileContent::PartiallyUploaded {
            num_chunks: request.num_chunks,
            file_type: request.file_type,
            encrypted_file_data: Some(envelope),
        }
    };

    proof {
        assert(!pre.chunks().contains_key((file_id, 0))) by {
            if pre.chunks().contains_key((file_id, 0)) {
                assert(pre.files().contains_key(file_id));
            }
        }
    }
    let prev_chunk = state.file_contents.insert((file_id, 0), request.content);
    proof {
        assert(prev_chunk is None);
    }

    let old_value = state.file_data.insert(
        file_id,
        File {
            metadata: FileMetadata {
                file_name: request.name,
                requester_principal: caller.clone(),
                requested_at: get_time_value(),
                uploaded_at: Some(get_time_value()),
                storage_provider: "icp".to_owned(),
                blob_id: None,
                is_encrypted: true,
            },
            content,
        },
    );
    proof {
        assert(old_value is None);
    }

    state.file_owners.add_file(caller, file_id);

    proof {
        lemma_upload_atomic_preserves_inv(pre, *state, caller@, file_id, request.num_chunks);
    }
    Ok(file_id)
}

fn get_time_value() -> (t: u64)
    ensures
        t == spec_get_time(),
{
    crate::get_time()
}

/// Re-establishes the store invariant after an atomic upload: the new file
/// owns exactly chunk 0, its envelope names the caller, and nothing else
/// moved.
proof fn lemma_upload_atomic_preserves_inv(
    pre: State,
    post: State,
    caller: Seq<u8>,
    file_id: u64,
    num_chunks: u64,
)
    requires
        pre.inv(),
        num_chunks >= 1,
        file_id == pre.spec_file_count(),
        pre.spec_file_count() < u64::MAX,
        post.spec_file_count() == pre.spec_file_count() + 1,
        post.files() == pre.files().insert(file_id, post.files()[file_id]),
        post.files().contains_key(file_id),
        ({
            let f = post.files()[file_id];
            &&& f.metadata.requester_principal@ == caller
            &&& (f.content is Uploaded <==> num_chunks == 1)
            &&& (f.content is PartiallyUploaded <==> num_chunks > 1)
            &&& content_num_chunks(f.content) == num_chunks
            &&& content_envelope(f.content) is Some
            &&& content_envelope(f.content)->0.owner_principal@ == caller
            &&& content_envelope(f.content)->0.shared_with@.len() == 0
        }),
        post.chunks() == pre.chunks().insert((file_id, 0), post.chunks()[(file_id, 0)]),
        post.owned_ids(caller) == pre.owned_ids(caller).push(file_id),
        forall|q: Seq<u8>| q != caller ==> post.owned_ids(q) == pre.owned_ids(q),
        forall|q: Seq<u8>| post.shared_ids(q) == pre.shared_ids(q),
        post.file_owners.wf(),
        post.file_shares == pre.file_shares,
        post.username_to_principal == pre.username_to_principal,
        post.user_profiles == pre.user_profiles,
    ensures
        post.inv(),
{
    assert(!pre.files().contains_key(file_id));
    assert forall|cid: u64| !pre.chunks().contains_key((file_id, cid)) by {
        if pre.chunks().contains_key((file_id, cid)) {
            assert(pre.files().contains_key(file_id));
        }
    }
    // chunks_wf
    assert forall|k: (u64, u64)| #[trigger] post.chunks().contains_key(k) implies post.files()
        .contains_key(k.0) by {
        if k != (file_id, 0u64) {
            assert(pre.chunks().contains_key(k));
            assert(pre.files().contains_key(k.0));
        }
    }
    assert forall|id: u64| #[trigger] post.files().contains_key(id) implies content_chunks_ok(
        post.files()[id].content,
        post.chunks(),
        id,
    ) by {
        if id != file_id {
            assert(pre.files().contains_key(id));
            assert(post.files()[id] == pre.files()[id]);
            assert forall|cid: u64| post.chunks().contains_key((id, cid)) == pre.chunks()
                .contains_key((id, cid)) by {}
            match pre.files()[id].content {
                FileContent::Pending { .. } => {},
                FileContent::Uploaded { num_chunks: n, .. } => {
                    assert(crate::chunks::all_chunks_present(post.chunks(), id, n));
                },
                FileContent::PartiallyUploaded { num_chunks: n, .. } => {
                    assert(!crate::chunks::all_chunks_present(pre.chunks(), id, n));
                    let c = choose|c: u64| c < n && !pre.chunks().contains_key((id, c));
                    assert(!post.chunks().contains_key((id, c)));
                },
            }
        } else {
            let f = post.files()[file_id];
            assert forall|cid: u64| #[trigger]
                post.chunks().contains_key((file_id, cid)) implies cid < num_chunks by {
                if cid != 0 {
                    assert(pre.chunks().contains_key((file_id, cid)));
                }
            }
            if num_chunks == 1 {
                assert(crate::chunks::all_chunks_present(post.chunks(), file_id, num_chunks)) by {
                    assert(post.chunks().contains_key((file_id, 0)));
                }
            } else {
                assert(!post.chunks().contains_key((file_id, 1)));
                assert(!crate::chunks::all_chunks_present(post.chunks(), file_id, num_chunks));
            }
        }
    }
    // owners_wf
    assert forall|p: Seq<u8>, id: u64| #[trigger]
        post.owned_ids(p).contains(id) implies post.files().contains_key(id)
        && post.files()[id].metadata.requester_principal@ == p by {
        if p == caller {
            if id != file_id {
                let l = post.owned_ids(caller);
                let l0 = pre.owned_ids(caller);
                let j = choose|j: int| 0 <= j < l.len() && l[j] == id;
                assert(j < l0.len());
                assert(l0.contains(id));
            }
        } else {
            assert(pre.owned_ids(p).contains(id));
            assert(id != file_id);
        }
    }
    assert forall|id: u64| #[trigger] post.files().contains_key(id) implies post.owned_ids(
        post.files()[id].metadata.requester_principal@,
    ).contains(id) by {
        if id == file_id {
            let l = post.owned_ids(caller);
            assert(l[l.len() - 1] == file_id);
        } else {
            assert(pre.files().contains_key(id));
            let p = pre.files()[id].metadata.requester_principal@;
            assert(pre.owned_ids(p).contains(id));
            if p == caller {
                let l0 = pre.owned_ids(caller);
                let j = choose|j: int| 0 <= j < l0.len() && l0[j] == id;
                assert(post.owned_ids(caller)[j] == id);
            }
        }
    }
    assert forall|p: Seq<u8>| (#[trigger] post.owned_ids(p)).no_duplicates() by {
        if p == caller {
            let l0 = pre.owned_ids(caller);
            let l = post.owned_ids(caller);
            assert(!l0.contains(file_id)) by {
                if l0.contains(file_id) {
                    assert(pre.files().contains_key(file_id));
                }
            }
            assert forall|i: int, j: int| 0 <= i < j < l.len() implies l[i] != l[j] by {
                if j < l.len() - 1 {
                    assert(l[i] == l0[i] && l[j] == l0[j]);
                } else {
                    assert(l[j] == file_id && l[i] == l0[i]);
                    assert(l0.contains(l0[i]));
                }
            }
        }
    }
    // shares_wf
    assert forall|p: Seq<u8>, id: u64| #[trigger]
        post.shared_ids(p).contains(id) implies post.files().contains_key(id)
        && match content_envelope(post.files()[id].content) {
        Some(e) => principal_views(e.shared_with@).contains(p),
        None => false,
    } by {
        assert(pre.shared_ids(p).contains(id));
        assert(id != file_id);
        assert(post.files()[id] == pre.files()[id]);
    }
    assert forall|id: u64| #[trigger]
        post.files().contains_key(id) implies match content_envelope(post.files()[id].content) {
        Some(e) => forall|j: int|
            0 <= j < e.shared_with@.len() ==> post.shared_ids(e.shared_with@[j]@).contains(id),
        None => true,
    } by {
        if id != file_id {
            assert(pre.files().contains_key(id));
            assert(post.files()[id] == pre.files()[id]);
        } else {
            let e = content_envelope(post.files()[file_id].content)->0;
            assert(e.shared_with@.len() == 0);
        }
    }
    // envelopes_wf
    assert forall|id: u64| #[trigger]
        post.files().contains_key(id) implies match content_envelope(post.files()[id].content) {
        Some(e) => e.owner_principal@ == post.files()[id].metadata.requester_principal@
            && principal_views(e.shared_with@).no_duplicates(),
        None => true,
    } by {
        if id != file_id {
            assert(pre.files().contains_key(id));
            assert(post.files()[id] == pre.files()[id]);
        } else {
            let e = content_envelope(post.files()[file_id].content)->0;
            assert(principal_views(e.shared_with@).len() == 0);
        }
    }
}

} // verus!
