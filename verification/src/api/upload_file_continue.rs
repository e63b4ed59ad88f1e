use vstd::prelude::*;

use crate::chunks::{
    all_chunks_present, lemma_chunk_ids_complete, lemma_chunk_ids_len, lemma_chunk_ids_missing,
};
use crate::principal::{anonymous_bytes, PrincipalId};
use crate::vetkeys::principal_views;
use crate::{
    content_chunks_ok, content_envelope, content_file_type, content_num_chunks, FileContent, State,
    UploadFileContinueRequest, UploadFileError,
};

verus! {

/// What a continuation call returns, decided over the state before the call.
///
/// A missing file, a wrong content state, an out-of-range chunk index and a
/// rewritten chunk all mean the caller broke the upload protocol; each is
/// reported as a typed, recoverable error, and the store is left untouched.
pub open spec fn continue_outcome(s: State, caller: Seq<u8>, file_id: u64, chunk_id: u64) -> Result<
    (),
    UploadFileError,
> {
    if caller == anonymous_bytes() {
        Err(UploadFileError::NotAuthenticated)
    } else if !s.files().contains_key(file_id) {
        Err(UploadFileError::NotRequested)
    } else {
        let f = s.files()[file_id];
        if f.metadata.requester_principal@ != caller {
            Err(UploadFileError::NotAuthenticated)
        } else {
            match f.content {
                FileContent::Pending { .. } => Err(UploadFileError::NotRequested),
                FileContent::Uploaded { .. } => Err(UploadFileError::AlreadyUploaded),
                FileContent::PartiallyUploaded { num_chunks, encrypted_file_data, .. } => {
                    if encrypted_file_data is None {
                        Err(UploadFileError::EncryptionFailed)
                    } else if chunk_id >= num_chunks {
                        Err(UploadFileError::ChunkOutOfRange)
                    } else if s.chunks().contains_key((file_id, chunk_id)) {
                        Err(UploadFileError::ChunkAlreadyUploaded)
                    } else {
                        Ok(())
                    }
                },
            }
        }
    }
}

/// Accepts one more chunk of a partially uploaded file.  Only the file's
/// requester may continue it; the chunk index must be in range and not yet
/// written (chunks are write-once).  After storing the chunk, the file's
/// chunks are recounted over the index range `0..num_chunks`: when all are
/// present the content state advances to `Uploaded`, carrying the file type
/// and envelope forward; otherwise it stays `PartiallyUploaded`.  The count
/// is a range scan over this file's keys alone, so its cost follows the
/// number of chunks received for this file, not the store's size.
pub fn upload_file_continue(
    caller: &PrincipalId,
    request: UploadFileContinueRequest,
    state: &mut State,
) -> (r: Result<(), UploadFileError>)
    requires
        old(state).inv(),
    ensures
        final(state).inv(),
        r == continue_outcome(*old(state), caller@, request.file_id, request.chunk_id),
        r is Err ==> *final(state) == *old(state),
        r is Ok ==> {
            let file_id = request.file_id;
            let chunk_id = request.chunk_id;
            let pre_file = old(state).files()[file_id];
            let n = content_num_chunks(pre_file.content);
            &&& final(state).chunks().contains_key((file_id, chunk_id))
            &&& final(state).chunks()[(file_id, chunk_id)] == request.contents@
            &&& forall|k: (u64, u64)|
                k != (file_id, chunk_id) ==> final(state).chunks().contains_key(k) == old(
                    state,
                ).chunks().contains_key(k)
            &&& forall|k: (u64, u64)|
                k != (file_id, chunk_id) && old(state).chunks().contains_key(k)
                    ==> final(state).chunks()[k] == old(state).chunks()[k]
            &&& final(state).files().contains_key(file_id)
            &&& forall|id: u64|
                id != file_id ==> final(state).files().contains_key(id) == old(
                    state,
                ).files().contains_key(id)
            &&& forall|id: u64|
                id != file_id && old(state).files().contains_key(id)
                    ==> final(state).files()[id] == old(state).files()[id]
            &&& ({
                let f = final(state).files()[file_id];
                &&& f.metadata == pre_file.metadata
                &&& content_num_chunks(f.content) == n
                &&& content_file_type(f.content) == content_file_type(pre_file.content)
                &&& content_envelope(f.content) == content_envelope(pre_file.content)
                &&& (f.content is Uploaded <==> all_chunks_present(
                    final(state).chunks(),
                    file_id,
                    n,
                ))
                &&& (f.content is PartiallyUploaded <==> !all_chunks_present(
                    final(state).chunks(),
                    file_id,
                    n,
                ))
            })
            &&& final(state).file_owners == old(state).file_owners
            &&& final(state).file_shares == old(state).file_shares
            &&& final(state).username_to_principal == old(state).username_to_principal
            &&& final(state).user_profiles == old(state).user_profiles
            &&& final(state).spec_file_count() == old(state).spec_file_count()
        },
{
    let ghost pre = *old(state);
    let file_id = request.file_id;
    let chunk_id = request.chunk_id;

    if caller.is_anonymous() {
        return Err(UploadFileError::NotAuthenticated);
    }

    let num_chunks: u64 = match state.file_data.get(&file_id) {
        None => {
            return Err(UploadFileError::NotRequested);
        },
        Some(file) => {
            if !file.metadata.requester_principal.eq(caller) {
                return Err(UploadFileError::NotAuthenticated);
            }
            match &file.content {
                FileContent::Pending { .. } => {
                    return Err(UploadFileError::NotRequested);
                },
                FileContent::Uploaded { .. } => {
                    return Err(UploadFileError::AlreadyUploaded);
                },
                FileContent::PartiallyUploaded { num_chunks, encrypted_file_data, .. } => {
                    if encrypted_file_data.is_none() {
                        return Err(UploadFileError::EncryptionFailed);
                    }
                    if chunk_id >= *num_chunks {
                        return Err(UploadFileError::ChunkOutOfRange);
                    }
                    *num_chunks
                },
            }
        },
    };

    if state.file_contents.contains_key(&(file_id, chunk_id)) {
        return Err(UploadFileError::ChunkAlreadyUploaded);
    }

    // Store the chunk, then recount this file's chunks.
    let prev = state.file_contents.insert((file_id, chunk_id), request.contents);
    proof {
        assert(prev is None);
    }
    let ids = state.file_contents.chunk_ids_in_range(file_id, 0, num_chunks - 1);
    proof {
        assert forall|i: int| 0 <= i < ids@.len() implies ids@[i] < num_chunks by {
            assert(ids@.contains(ids@[i]));
        }
        lemma_chunk_ids_len(ids@, num_chunks);
    }

    let complete = ids.len() as u64 == num_chunks;
    proof {
        if complete {
            lemma_chunk_ids_complete(ids@, num_chunks);
            assert forall|c: u64| c < num_chunks implies state.chunks().contains_key(
                (file_id, c),
            ) by {
                assert(ids@.contains(c));
            }
            assert(all_chunks_present(state.chunks(), file_id, num_chunks));
        } else {
            lemma_chunk_ids_missing(ids@, num_chunks);
            let c = choose|c: u64| c < num_chunks && !ids@.contains(c);
            assert(!state.chunks().contains_key((file_id, c)));
            assert(!all_chunks_present(state.chunks(), file_id, num_chunks));
        }
    }

    if complete {
        let file = match state.file_data.remove(&file_id) {
            Some(f) => f,
            None => {
                proof {
                    assert(false);
                }
                return Err(UploadFileError::NotRequested);
            },
        };
        let metadata = file.metadata;
        let updated = match file.content {
            FileContent::PartiallyUploaded { num_chunks: n, file_type, encrypted_file_data } => {
                let envelope = match encrypted_file_data {
                    Some(e) => e,
                    None => {
                        proof {
                            assert(false);
                        }
                        return Err(UploadFileError::EncryptionFailed);
                    },
                };
                FileContent::Uploaded { num_chunks: n, file_type, encrypted_file_data: envelope }
            },
            _ => {
                proof {
                    assert(false);
                }
                return Err(UploadFileError::NotRequested);
            },
        };
        let old_value = state.file_data.insert(file_id, crate::File { metadata, content: updated });
        proof {
            assert(old_value is None);
            assert(final(state).files() =~= pre.files().insert(
                file_id,
                final(state).files()[file_id],
            ));
        }
    } else {
        proof {
            assert(final(state).files() =~= pre.files().insert(
                file_id,
                final(state).files()[file_id],
            ));
        }
    }

    proof {
        lemma_continue_preserves_inv(pre, *state, file_id, chunk_id, num_chunks);
    }
    Ok(())
}

/// Re-establishes the store invariant after one accepted chunk: the touched
/// file's content state matches its recounted chunks, and every other file,
/// list and entry is exactly as before.
proof fn lemma_continue_preserves_inv(
    pre: State,
    post: State,
    file_id: u64,
    chunk_id: u64,
    num_chunks: u64,
)
    requires
        pre.inv(),
        pre.files().contains_key(file_id),
        pre.files()[file_id].content is PartiallyUploaded,
        content_num_chunks(pre.files()[file_id].content) == num_chunks,
        chunk_id < num_chunks,
        !pre.chunks().contains_key((file_id, chunk_id)),
        post.chunks() == pre.chunks().insert((file_id, chunk_id), post.chunks()[(file_id, chunk_id)]),
        post.files().contains_key(file_id),
        post.files() == pre.files().insert(file_id, post.files()[file_id]),
        ({
            let f = post.files()[file_id];
            let pre_f = pre.files()[file_id];
            &&& f.metadata == pre_f.metadata
            &&& content_num_chunks(f.content) == num_chunks
            &&& content_envelope(f.content) == content_envelope(pre_f.content)
            &&& (f.content is Uploaded <==> all_chunks_present(post.chunks(), file_id, num_chunks))
            &&& (f.content is PartiallyUploaded <==> !all_chunks_present(
                post.chunks(),
                file_id,
                num_chunks,
            ))
        }),
        post.file_owners == pre.file_owners,
        post.file_shares == pre.file_shares,
        post.username_to_principal == pre.username_to_principal,
        post.user_profiles == pre.user_profiles,
        post.spec_file_count() == pre.spec_file_count(),
    ensures
        post.inv(),
{
    // chunks_wf
    assert forall|k: (u64, u64)| #[trigger] post.chunks().contains_key(k) implies post.files()
        .contains_key(k.0) by {
        if k != (file_id, chunk_id) {
            assert(pre.chunks().contains_key(k));
            assert(pre.files().contains_key(k.0));
        }
    }
    assert forall|id: u64| #[trigger] post.files().contains_key(id) implies content_chunks_ok(
        post.files()[id].content,
        post.chunks(),
        id,
    ) by {
        if id != file_id {
            assert(pre.files().contains_key(id));
            assert(post.files()[id] == pre.files()[id]);
            assert forall|cid: u64| post.chunks().contains_key((id, cid)) == pre.chunks()
                .contains_key((id, cid)) by {}
            match pre.files()[id].content {
                FileContent::Pending { .. } => {},
                FileContent::Uploaded { num_chunks: n, .. } => {
                    assert(all_chunks_present(post.chunks(), id, n));
                },
                FileContent::PartiallyUploaded { num_chunks: n, .. } => {
                    assert(!all_chunks_present(pre.chunks(), id, n));
                    let c = choose|c: u64| c < n && !pre.chunks().contains_key((id, c));
                    assert(!post.chunks().contains_key((id, c)));
                },
            }
        } else {
            assert forall|cid: u64| #[trigger]
                post.chunks().contains_key((file_id, cid)) implies cid < num_chunks by {
                if cid != chunk_id {
                    assert(pre.chunks().contains_key((file_id, cid)));
                }
            }
        }
    }
    // owners_wf
    assert forall|p: Seq<u8>, id: u64| #[trigger]
        post.owned_ids(p).contains(id) implies post.files().contains_key(id)
        && post.files()[id].metadata.requester_principal@ == p by {
        assert(pre.owned_ids(p).contains(id));
        if id == file_id {
            assert(post.files()[id].metadata == pre.files()[id].metadata);
        } else {
            assert(post.files()[id] == pre.files()[id]);
        }
    }
    assert forall|id: u64| #[trigger] post.files().contains_key(id) implies post.owned_ids(
        post.files()[id].metadata.requester_principal@,
    ).contains(id) by {
        assert(pre.files().contains_key(id));
        if id == file_id {
            assert(post.files()[id].metadata == pre.files()[id].metadata);
        } else {
            assert(post.files()[id] == pre.files()[id]);
        }
    }
    // shares_wf
    assert forall|p: Seq<u8>, id: u64| #[trigger]
        post.shared_ids(p).contains(id) implies post.files().contains_key(id)
        && match content_envelope(post.files()[id].content) {
        Some(e) => principal_views(e.shared_with@).contains(p),
        None => false,
    } by {
        assert(pre.shared_ids(p).contains(id));
        if id == file_id {
            assert(content_envelope(post.files()[id].content) == content_envelope(
                pre.files()[id].content,
            ));
        } else {
            assert(post.files()[id] == pre.files()[id]);
        }
    }
    assert forall|id: u64| #[trigger]
        post.files().contains_key(id) implies match content_envelope(post.files()[id].content) {
        Some(e) => forall|j: int|
            0 <= j < e.shared_with@.len() ==> post.shared_ids(e.shared_with@[j]@).contains(id),
        None => true,
    } by {
        assert(pre.files().contains_key(id));
        if id == file_id {
            assert(content_envelope(post.files()[id].content) == content_envelope(
                pre.files()[id].content,
            ));
        } else {
            assert(post.files()[id] == pre.files()[id]);
        }
    }
    // envelopes_wf
    assert forall|id: u64| #[trigger]
        post.files().contains_key(id) implies match content_envelope(post.files()[id].content) {
        Some(e) => e.owner_principal@ == post.files()[id].metadata.requester_principal@
            && principal_views(e.shared_with@).no_duplicates(),
        None => true,
    } by {
        assert(pre.files().contains_key(id));
        if id == file_id {
            assert(content_envelope(post.files()[id].content) == content_envelope(
                pre.files()[id].content,
            ));
            assert(post.files()[id].metadata == pre.files()[id].metadata);
        } else {
            assert(post.files()[id] == pre.files()[id]);
        }
    }
    // ids_wf
    assert forall|id: u64| #[trigger] post.files().contains_key(id) implies id
        < post.spec_file_count() by {
        assert(pre.files().contains_key(id));
    }
    assert(post.chunks_wf());
    assert(post.file_owners.wf());
    assert(forall|p: Seq<u8>, id: u64| #[trigger]
        post.owned_ids(p).contains(id) ==> post.files().contains_key(id)
            && post.files()[id].metadata.requester_principal@ == p);
    assert(forall|id: u64| #[trigger]
        post.files().contains_key(id) ==> post.owned_ids(
            post.files()[id].metadata.requester_principal@,
        ).contains(id));
    assert forall|p: Seq<u8>| (#[trigger] post.owned_ids(p)).no_duplicates() by {
        assert(post.owned_ids(p) == pre.owned_ids(p));
    }
    assert(post.owners_wf());
    assert forall|p: Seq<u8>| true implies #[trigger] post.shared_ids(p) == pre.shared_ids(p) by {}
    assert(post.shares_wf());
    assert(post.envelopes_wf());
    assert(post.ids_wf());
    assert(post.directory_wf());
}

} // verus!
