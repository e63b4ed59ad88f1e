use vstd::prelude::*;

use crate::principal::PrincipalId;
use crate::{content_chunks_ok, content_envelope, File, FileContent, FileMetadata, State};

verus! {

pub struct RegisterFileRequest {
    pub file_name: String,
    pub storage_provider: String,
    pub blob_id: Option<String>,
    pub requested_at: u64,
    pub uploaded_at: Option<u64>,
}

#[derive(Debug)]
pub struct RegisterFileResponse {
    pub file_id: u64,
}

/// Registers a file: allocates the next id, records its metadata with
/// `Pending` content and no chunk data, and adds the id to the caller's
/// owned list.  Succeeds for any caller.
pub fn register_file(caller: &PrincipalId, req: RegisterFileRequest, state: &mut State) -> (r:
    RegisterFileResponse)
    requires
        old(state).inv(),
        old(state).spec_file_count() < u64::MAX,
    ensures
        final(state).inv(),
        r.file_id == old(state).spec_file_count(),
        final(state).spec_file_count() == old(state).spec_file_count() + 1,
        final(state).files().contains_key(r.file_id),
        ({
            let f = final(state).files()[r.file_id];
            &&& f.metadata.file_name@ == req.file_name@
            &&& f.metadata.requester_principal@ == caller@
            &&& f.metadata.requested_at == req.requested_at
            &&& f.metadata.uploaded_at == req.uploaded_at
            &&& f.metadata.storage_provider@ == req.storage_provider@
            &&& f.metadata.blob_id == req.blob_id
            &&& f.metadata.is_encrypted == false
            &&& f.content is Pending
        }),
        forall|id: u64| id != r.file_id ==> final(state).files().contains_key(id) == old(
            state,
        ).files().contains_key(id),
        forall|id: u64|
            id != r.file_id && old(state).files().contains_key(id) ==> final(state).files()[id]
                == old(state).files()[id],
        final(state).chunks() == old(state).chunks(),
        final(state).owned_ids(caller@) == old(state).owned_ids(caller@).push(r.file_id),
        forall|q: Seq<u8>| q != caller@ ==> final(state).owned_ids(q) == old(state).owned_ids(q),
        forall|q: Seq<u8>| final(state).shared_ids(q) == old(state).shared_ids(q),
        final(state).username_to_principal == old(state).username_to_principal,
        final(state).user_profiles == old(state).user_profiles,
{
    let ghost pre = *old(state);
    let file_id = state.generate_file_id();
    let metadata = FileMetadata {
        file_name: req.file_name,
        requester_principal: caller.clone(),
        requested_at: req.requested_at,
        uploaded_at: req.uploaded_at,
        storage_provider: req.storage_provider,
        blob_id: req.blob_id,
        is_encrypted: false,
    };
    let file = File { metadata, content: FileContent::Pending { alias: String::new() } };
    let old_value = state.file_data.insert(file_id, file);
    proof {
        assert(old_value is None);
    }
    state.file_owners.add_file(caller, file_id);
    proof {
        lemma_register_preserves_inv(pre, *state, caller@, file_id);
    }
    RegisterFileResponse { file_id }
}

/// Re-establishes the store invariant after a registration: the new file is
/// `Pending` with no chunks, owned by exactly the caller.
proof fn lemma_register_preserves_inv(pre: State, post: State, caller: Seq<u8>, file_id: u64)
    requires
        pre.inv(),
        pre.spec_file_count() < u64::MAX,
        file_id == pre.spec_file_count(),
        post.spec_file_count() == pre.spec_file_count() + 1,
        post.files() == pre.files().insert(file_id, post.files()[file_id]),
        post.files().contains_key(file_id),
        post.files()[file_id].metadata.requester_principal@ == caller,
        post.files()[file_id].content is Pending,
        post.chunks() == pre.chunks(),
        post.owned_ids(caller) == pre.owned_ids(caller).push(file_id),
        forall|q: Seq<u8>| q != caller ==> post.owned_ids(q) == pre.owned_ids(q),
        forall|q: Seq<u8>| post.shared_ids(q) == pre.shared_ids(q),
        post.file_owners.wf(),
        post.file_shares == pre.file_shares,
        post.username_to_principal == pre.username_to_principal,
        post.user_profiles == pre.user_profiles,
    ensures
        post.inv(),
{
    assert(!pre.files().contains_key(file_id));
    // chunks_wf
    assert forall|k: (u64, u64)| #[trigger] post.chunks().contains_key(k) implies post.files()
        .contains_key(k.0) by {
        assert(pre.files().contains_key(k.0));
    }
    assert forall|id: u64| #[trigger] post.files().contains_key(id) implies content_chunks_ok(
        post.files()[id].content,
        post.chunks(),
        id,
    ) by {
        if id != file_id {
            assert(pre.files().contains_key(id));
            assert(post.files()[id] == pre.files()[id]);
        } else {
            assert forall|cid: u64| !post.chunks().contains_key((file_id, cid)) by {
                if post.chunks().contains_key((file_id, cid)) {
                    assert(pre.files().contains_key(file_id));
                }
            }
        }
    }
    // owners_wf
    assert forall|p: Seq<u8>, id: u64| #[trigger] post.owned_ids(p).contains(id) implies post.files()
        .contains_key(id) && post.files()[id].metadata.requester_principal@ == p by {
        if p == caller {
            if id != file_id {
                assert(pre.owned_ids(caller).contains(id));
            }
        } else {
            assert(pre.owned_ids(p).contains(id));
            assert(id != file_id);
        }
    }
    assert forall|id: u64| #[trigger] post.files().contains_key(id) implies post.owned_ids(
        post.files()[id].metadata.requester_principal@,
    ).contains(id) by {
        if id == file_id {
            let l = post.owned_ids(caller);
            assert(l[l.len() - 1] == file_id);
        } else {
            assert(pre.files().contains_key(id));
            let p = pre.files()[id].metadata.requester_principal@;
            assert(pre.owned_ids(p).contains(id));
            if p == caller {
                let l0 = pre.owned_ids(caller);
                let j = choose|j: int| 0 <= j < l0.len() && l0[j] == id;
                assert(post.owned_ids(caller)[j] == id);
            }
        }
    }
    assert forall|p: Seq<u8>| (#[trigger] post.owned_ids(p)).no_duplicates() by {
        if p == caller {
            let l0 = pre.owned_ids(caller);
            let l = post.owned_ids(caller);
            assert(!l0.contains(file_id)) by {
                if l0.contains(file_id) {
                    assert(pre.files().contains_key(file_id));
                }
            }
            assert forall|i: int, j: int| 0 <= i < j < l.len() implies l[i] != l[j] by {
                if j < l.len() - 1 {
                    assert(l[i] == l0[i] && l[j] == l0[j]);
                } else {
                    assert(l[j] == file_id && l[i] == l0[i]);
                    assert(l0.contains(l0[i]));
                }
            }
        }
    }
    // shares_wf
    assert forall|p: Seq<u8>, id: u64| #[trigger] post.shared_ids(p).contains(id) implies post.files()
        .contains_key(id) && match content_envelope(post.files()[id].content) {
        Some(e) => crate::vetkeys::principal_views(e.shared_with@).contains(p),
        None => false,
    } by {
        assert(pre.shared_ids(p).contains(id));
        assert(id != file_id);
        assert(post.files()[id] == pre.files()[id]);
    }
    assert forall|id: u64| #[trigger] post.files().contains_key(id) implies match content_envelope(
        post.files()[id].content,
    ) {
        Some(e) => forall|j: int|
            0 <= j < e.shared_with@.len() ==> post.shared_ids(e.shared_with@[j]@).contains(id),
        None => true,
    } by {
        if id != file_id {
            assert(pre.files().contains_key(id));
            assert(post.files()[id] == pre.files()[id]);
        }
    }
    // envelopes_wf
    assert forall|id: u64| #[trigger] post.files().contains_key(id) implies match content_envelope(
        post.files()[id].content,
    ) {
        Some(e) => e.owner_principal@ == post.files()[id].metadata.requester_principal@
            && crate::vetkeys::principal_views(e.shared_with@).no_duplicates(),
        None => true,
    } by {
        if id != file_id {
            assert(pre.files().contains_key(id));
            assert(post.files()[id] == pre.files()[id]);
        }
    }
}

} // verus!
