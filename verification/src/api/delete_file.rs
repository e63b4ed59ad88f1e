use vstd::prelude::*;

use crate::index::{lemma_remove_id_removes, remove_id};
use crate::principal::{anonymous_bytes, PrincipalId};
use crate::vetkeys::principal_views;
use crate::{content_chunks_ok, content_envelope, content_num_chunks, FileContent, State};

verus! {

#[derive(Clone, Copy, Debug, PartialEq, Eq, Structural)]
pub enum DeleteFileResult {
    Success,
    NotFound,
    NotAuthenticated,
    PermissionError,
}

/// What a delete call returns, decided over the state before the call.
///
/// A caller that never owned the file gets `PermissionError`, not
/// `NotFound`, so existence is not leaked to strangers.
pub open spec fn delete_outcome(s: State, caller: Seq<u8>, file_id: u64) -> DeleteFileResult {
    if caller == anonymous_bytes() {
        DeleteFileResult::NotAuthenticated
    } else if !s.owned_ids(caller).contains(file_id) {
        DeleteFileResult::PermissionError
    } else if s.files().contains_key(file_id) {
        DeleteFileResult::Success
    } else {
        DeleteFileResult::NotFound
    }
}

/// Once ownership is confirmed, a second delete of the same file by the same
/// caller cannot succeed again: its owned-list entry is gone, so the next
/// call is refused with `PermissionError`.
pub proof fn lemma_delete_refused_twice(pre: State, post: State, caller: Seq<u8>, file_id: u64)
    requires
        delete_outcome(pre, caller, file_id) == DeleteFileResult::Success,
        post.owned_ids(caller) == remove_id(pre.owned_ids(caller), file_id),
    ensures
        delete_outcome(post, caller, file_id) == DeleteFileResult::PermissionError,
{
    lemma_remove_id_removes(pre.owned_ids(caller), file_id);
}

/// Deletes a file the caller owns: the file record, every chunk stored under
/// its id, its entry in the caller's owned list, and every sharing-index
/// reference to it are all removed in one operation, so nothing dangling is
/// ever observable.  Once ownership is confirmed, the owned-list entry is
/// pruned even if the file record itself is already missing.
pub fn delete_file(state: &mut State, caller: &PrincipalId, file_id: u64) -> (r: DeleteFileResult)
    requires
        old(state).inv(),
    ensures
        final(state).inv(),
        r == delete_outcome(*old(state), caller@, file_id),
        r == DeleteFileResult::NotAuthenticated || r == DeleteFileResult::PermissionError
            ==> *final(state) == *old(state),
        r == DeleteFileResult::NotFound ==> {
            &&& final(state).owned_ids(caller@) == remove_id(
                old(state).owned_ids(caller@),
                file_id,
            )
            &&& forall|q: Seq<u8>|
                q != caller@ ==> final(state).owned_ids(q) == old(state).owned_ids(q)
            &&& final(state).file_data == old(state).file_data
            &&& final(state).file_contents == old(state).file_contents
            &&& final(state).file_shares == old(state).file_shares
            &&& final(state).username_to_principal == old(state).username_to_principal
            &&& final(state).user_profiles == old(state).user_profiles
            &&& final(state).spec_file_count() == old(state).spec_file_count()
        },
        r == DeleteFileResult::Success ==> {
            &&& !final(state).files().contains_key(file_id)
            &&& forall|id: u64|
                id != file_id ==> final(state).files().contains_key(id) == old(
                    state,
                ).files().contains_key(id)
            &&& forall|id: u64|
                id != file_id && old(state).files().contains_key(id)
                    ==> final(state).files()[id] == old(state).files()[id]
            &&& forall|cid: u64| !final(state).chunks().contains_key((file_id, cid))
            &&& forall|k: (u64, u64)|
                k.0 != file_id ==> final(state).chunks().contains_key(k) == old(
                    state,
                ).chunks().contains_key(k)
            &&& forall|k: (u64, u64)|
                k.0 != file_id && old(state).chunks().contains_key(k)
                    ==> final(state).chunks()[k] == old(state).chunks()[k]
            &&& final(state).owned_ids(caller@) == remove_id(
                old(state).owned_ids(caller@),
                file_id,
            )
            &&& forall|q: Seq<u8>|
                q != caller@ ==> final(state).owned_ids(q) == old(state).owned_ids(q)
            &&& forall|q: Seq<u8>|
                final(state).shared_ids(q) == remove_id(old(state).shared_ids(q), file_id)
            &&& final(state).username_to_principal == old(state).username_to_principal
            &&& final(state).user_profiles == old(state).user_profiles
            &&& final(state).spec_file_count() == old(state).spec_file_count()
        },
{
    let ghost pre = *old(state);

    if caller.is_anonymous() {
        return DeleteFileResult::NotAuthenticated;
    }

    if !state.file_owners.contains_file(caller, file_id) {
        return DeleteFileResult::PermissionError;
    }

    let file = match state.file_data.remove(&file_id) {
        None => {
            // The owned-list entry is pruned unconditionally once ownership
            // was confirmed, so no dangling reference stays behind.
            state.file_owners.remove_file(caller, file_id);
            proof {
                lemma_delete_notfound_preserves_inv(pre, *state, caller@, file_id);
            }
            return DeleteFileResult::NotFound;
        },
        Some(f) => f,
    };

    // Remove every chunk stored under this file id.
    let num_chunks: u64 = match &file.content {
        FileContent::Uploaded { num_chunks, .. } => *num_chunks,
        FileContent::PartiallyUploaded { num_chunks, .. } => *num_chunks,
        FileContent::Pending { .. } => 0,
    };
    let ghost mid = *state;
    let ghost mid_chunks = state.chunks();
    let mut chunk_id: u64 = 0;
    while chunk_id < num_chunks
        invariant
            chunk_id <= num_chunks,
            state.file_data == mid.file_data,
            state.file_owners == mid.file_owners,
            state.file_shares == mid.file_shares,
            state.username_to_principal == mid.username_to_principal,
            state.user_profiles == mid.user_profiles,
            state.spec_file_count() == mid.spec_file_count(),
            forall|cid: u64| cid < chunk_id ==> !state.chunks().contains_key((file_id, cid)),
            forall|k: (u64, u64)|
                !(k.0 == file_id && k.1 < chunk_id) ==> state.chunks().contains_key(k)
                    == mid_chunks.contains_key(k),
            forall|k: (u64, u64)|
                !(k.0 == file_id && k.1 < chunk_id) && mid_chunks.contains_key(k)
                    ==> state.chunks()[k] == mid_chunks[k],
        decreases num_chunks - chunk_id,
    {
        let ghost before = state.chunks();
        state.file_contents.remove(&(file_id, chunk_id));
        proof {
            assert(state.chunks() == before.remove((file_id, chunk_id)));
            assert forall|cid: u64| cid < chunk_id + 1 implies !state.chunks().contains_key(
                (file_id, cid),
            ) by {
                if cid < chunk_id {
                    assert(!before.contains_key((file_id, cid)));
                    assert((file_id, cid) != (file_id, chunk_id));
                }
            }
        }
        chunk_id += 1;
    }

    proof {
        assert(chunk_id == num_chunks);
        assert(mid_chunks == pre.chunks());
        assert forall|cid: u64| !state.chunks().contains_key((file_id, cid)) by {
            if cid >= num_chunks {
                if state.chunks().contains_key((file_id, cid)) {
                    assert(mid_chunks.contains_key((file_id, cid)));
                    assert(pre.chunks().contains_key((file_id, cid)));
                    assert(pre.files().contains_key(file_id));
                    assert(content_chunks_ok(pre.files()[file_id].content, pre.chunks(), file_id));
                    assert(content_num_chunks(pre.files()[file_id].content) == num_chunks);
                }
            }
        }
    }

    let ghost after_chunks = state.chunks();

    // Remove the file from the caller's owned list and purge every
    // sharing-index reference to it.
    state.file_owners.remove_file(caller, file_id);
    state.file_shares.remove_file_everywhere(file_id);

    proof {
        assert(state.chunks() == after_chunks);
        assert forall|cid: u64| !state.chunks().contains_key((file_id, cid)) by {
            assert(!after_chunks.contains_key((file_id, cid)));
        }
        lemma_delete_preserves_inv(pre, *state, caller@, file_id);
    }
    DeleteFileResult::Success
}

/// The store invariant survives pruning a dangling owned-list entry.
proof fn lemma_delete_notfound_preserves_inv(pre: State, post: State, caller: Seq<u8>, file_id: u64)
    requires
        pre.inv(),
        !pre.files().contains_key(file_id),
        post.owned_ids(caller) == remove_id(pre.owned_ids(caller), file_id),
        forall|q: Seq<u8>| q != caller ==> post.owned_ids(q) == pre.owned_ids(q),
        post.file_owners.wf(),
        post.file_data == pre.file_data,
        post.file_contents == pre.file_contents,
        post.file_shares == pre.file_shares,
        post.username_to_principal == pre.username_to_principal,
        post.user_profiles == pre.user_profiles,
        post.spec_file_count() == pre.spec_file_count(),
    ensures
        post.inv(),
{
    lemma_remove_id_removes(pre.owned_ids(caller), file_id);
    assert(post.chunks() == pre.chunks());
    assert(post.files() == pre.files());
    assert forall|p: Seq<u8>, id: u64| #[trigger]
        post.owned_ids(p).contains(id) implies post.files().contains_key(id)
        && post.files()[id].metadata.requester_principal@ == p by {
        assert(pre.owned_ids(p).contains(id));
    }
    assert forall|id: u64| #[trigger] post.files().contains_key(id) implies post.owned_ids(
        post.files()[id].metadata.requester_principal@,
    ).contains(id) by {
        assert(pre.files().contains_key(id));
        let p = pre.files()[id].metadata.requester_principal@;
        assert(pre.owned_ids(p).contains(id));
        assert(id != file_id);
    }
    assert forall|p: Seq<u8>| (#[trigger] post.owned_ids(p)).no_duplicates() by {
        if p != caller {
            assert(post.owned_ids(p) == pre.owned_ids(p));
        }
    }
    assert forall|p: Seq<u8>| true implies #[trigger] post.shared_ids(p) == pre.shared_ids(p) by {}
    assert(post.chunks_wf());
    assert(post.shares_wf());
    assert(post.envelopes_wf());
}

/// Re-establishes the store invariant after a successful delete: the file,
/// its chunks, its ownership entry and every sharing reference are gone, and
/// everything else is exactly as before.
proof fn lemma_delete_preserves_inv(pre: State, post: State, caller: Seq<u8>, file_id: u64)
    requires
        pre.inv(),
        pre.owned_ids(caller).contains(file_id),
        pre.files().contains_key(file_id),
        !post.files().contains_key(file_id),
        post.files() == pre.files().remove(file_id),
        forall|cid: u64| !post.chunks().contains_key((file_id, cid)),
        forall|k: (u64, u64)|
            k.0 != file_id ==> post.chunks().contains_key(k) == pre.chunks().contains_key(k),
        forall|k: (u64, u64)|
            k.0 != file_id && pre.chunks().contains_key(k) ==> post.chunks()[k] == pre.chunks()[k],
        post.owned_ids(caller) == remove_id(pre.owned_ids(caller), file_id),
        forall|q: Seq<u8>| q != caller ==> post.owned_ids(q) == pre.owned_ids(q),
        forall|q: Seq<u8>| post.shared_ids(q) == remove_id(pre.shared_ids(q), file_id),
        post.file_owners.wf(),
        post.file_shares.wf(),
        post.username_to_principal == pre.username_to_principal,
        post.user_profiles == pre.user_profiles,
        post.spec_file_count() == pre.spec_file_count(),
    ensures
        post.inv(),
{
    lemma_remove_id_removes(pre.owned_ids(caller), file_id);
    // chunks_wf
    assert forall|k: (u64, u64)| #[trigger] post.chunks().contains_key(k) implies post.files()
        .contains_key(k.0) by {
        if k.0 == file_id {
            assert(k == (file_id, k.1));
            assert(!post.chunks().contains_key((file_id, k.1)));
        }
        assert(pre.chunks().contains_key(k));
        assert(pre.files().contains_key(k.0));
    }
    assert forall|id: u64| #[trigger] post.files().contains_key(id) implies content_chunks_ok(
        post.files()[id].content,
        post.chunks(),
        id,
    ) by {
        assert(id != file_id);
        assert(pre.files().contains_key(id));
        assert(post.files()[id] == pre.files()[id]);
        assert forall|cid: u64| post.chunks().contains_key((id, cid)) == pre.chunks().contains_key(
            (id, cid),
        ) by {}
        match pre.files()[id].content {
            FileContent::Pending { .. } => {},
            FileContent::Uploaded { num_chunks: n, .. } => {
                assert(crate::chunks::all_chunks_present(post.chunks(), id, n));
            },
            FileContent::PartiallyUploaded { num_chunks: n, .. } => {
                assert(!crate::chunks::all_chunks_present(pre.chunks(), id, n));
                let c = choose|c: u64| c < n && !pre.chunks().contains_key((id, c));
                assert(!post.chunks().contains_key((id, c)));
            },
        }
    }
    // owners_wf
    assert forall|p: Seq<u8>, id: u64| #[trigger]
        post.owned_ids(p).contains(id) implies post.files().contains_key(id)
        && post.files()[id].metadata.requester_principal@ == p by {
        if p == caller {
            assert(pre.owned_ids(caller).contains(id) && id != file_id);
        } else {
            assert(pre.owned_ids(p).contains(id));
            assert(id != file_id) by {
                if id == file_id {
                    assert(pre.files()[file_id].metadata.requester_principal@ == p);
                    assert(pre.owned_ids(caller).contains(file_id));
                    assert(pre.files()[file_id].metadata.requester_principal@ == caller);
                }
            }
        }
    }
    assert forall|id: u64| #[trigger] post.files().contains_key(id) implies post.owned_ids(
        post.files()[id].metadata.requester_principal@,
    ).contains(id) by {
        assert(id != file_id);
        assert(pre.files().contains_key(id));
        assert(post.files()[id] == pre.files()[id]);
        let p = pre.files()[id].metadata.requester_principal@;
        assert(pre.owned_ids(p).contains(id));
    }
    assert forall|p: Seq<u8>| (#[trigger] post.owned_ids(p)).no_duplicates() by {
        if p != caller {
            assert(post.owned_ids(p) == pre.owned_ids(p));
        }
    }
    // shares_wf
    assert forall|p: Seq<u8>, id: u64| #[trigger]
        post.shared_ids(p).contains(id) implies post.files().contains_key(id)
        && match content_envelope(post.files()[id].content) {
        Some(e) => principal_views(e.shared_with@).contains(p),
        None => false,
    } by {
        lemma_remove_id_removes(pre.shared_ids(p), file_id);
        assert(pre.shared_ids(p).contains(id) && id != file_id);
        assert(post.files()[id] == pre.files()[id]);
    }
    assert forall|id: u64| #[trigger]
        post.files().contains_key(id) implies match content_envelope(post.files()[id].content) {
        Some(e) => forall|j: int|
            0 <= j < e.shared_with@.len() ==> post.shared_ids(e.shared_with@[j]@).contains(id),
        None => true,
    } by {
        assert(id != file_id);
        assert(pre.files().contains_key(id));
        assert(post.files()[id] == pre.files()[id]);
        match content_envelope(pre.files()[id].content) {
            Some(e) => {
                assert forall|j: int| 0 <= j < e.shared_with@.len() implies post.shared_ids(
                    e.shared_with@[j]@,
                ).contains(id) by {
                    assert(pre.shared_ids(e.shared_with@[j]@).contains(id));
                    lemma_remove_id_removes(pre.shared_ids(e.shared_with@[j]@), file_id);
                }
            },
            None => {},
        }
    }
    assert forall|p: Seq<u8>| (#[trigger] post.shared_ids(p)).no_duplicates() by {
        lemma_remove_id_removes(pre.shared_ids(p), file_id);
    }
    // envelopes_wf
    assert forall|id: u64| #[trigger]
        post.files().contains_key(id) implies match content_envelope(post.files()[id].content) {
        Some(e) => e.owner_principal@ == post.files()[id].metadata.requester_principal@
            && principal_views(e.shared_with@).no_duplicates(),
        None => true,
    } by {
        assert(id != file_id);
        assert(pre.files().contains_key(id));
        assert(post.files()[id] == pre.files()[id]);
    }
    // ids_wf
    assert forall|id: u64| #[trigger] post.files().contains_key(id) implies id
        < post.spec_file_count() by {
        assert(pre.files().contains_key(id));
    }
}

} // verus!
