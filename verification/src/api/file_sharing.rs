use vstd::prelude::*;

use crate::index::{lemma_remove_id_removes, remove_id};
use crate::principal::{anonymous_bytes, PrincipalId};
use crate::users::{same_user, PublicUser};
use crate::vetkeys::{
    grant_one, grant_seq, lemma_revoke_removes, principal_views, remove_principal,
    remove_principal_views,
};
use crate::{
    content_chunks_ok, content_envelope, content_file_type, content_num_chunks, File, FileContent,
    FileSharingResponse, State,
};

verus! {

pub struct ShareFileRequest {
    pub file_id: u64,
    pub target_username: String,
}

pub struct UnshareFileRequest {
    pub file_id: u64,
    pub target_username: String,
}

pub struct GetSharedFilesResponse {
    pub owned_files: Vec<u64>,
    pub shared_files: Vec<u64>,
}

/// What a username-keyed share call returns, decided over the state before
/// the call.
pub open spec fn share_by_username_outcome(
    s: State,
    caller: Seq<u8>,
    file_id: u64,
    username: Seq<char>,
) -> FileSharingResponse {
    if caller == anonymous_bytes() {
        FileSharingResponse::NotAuthenticated
    } else if !s.owned_ids(caller).contains(file_id) {
        FileSharingResponse::PermissionError
    } else if s.username_to_principal.spec_get(username) is None {
        FileSharingResponse::UserNotFound
    } else if s.username_to_principal.spec_get(username)->0@ == caller {
        FileSharingResponse::InvalidInput
    } else if !s.files().contains_key(file_id) {
        FileSharingResponse::FileNotFound
    } else {
        match s.files()[file_id].content {
            FileContent::Pending { .. } => FileSharingResponse::PendingError,
            FileContent::PartiallyUploaded { encrypted_file_data: None, .. } => {
                FileSharingResponse::FileNotUploaded
            },
            _ => FileSharingResponse::Success,
        }
    }
}

/// Shares a file with the user registered under `target_username`.  The
/// caller must own the file, the target must exist in the identity directory
/// and differ from the caller, and the file's content must be sealed
/// already.  On success the target is granted access: the envelope's shared
/// set and the sharing index are both extended, idempotently.
pub fn share_file(caller: &PrincipalId, request: ShareFileRequest, state: &mut State) -> (r:
    FileSharingResponse)
    requires
        old(state).inv(),
    ensures
        final(state).inv(),
        r == share_by_username_outcome(
            *old(state),
            caller@,
            request.file_id,
            request.target_username@,
        ),
        r != FileSharingResponse::Success ==> *final(state) == *old(state),
        r == FileSharingResponse::Success ==> {
            let file_id = request.file_id;
            let t = old(state).username_to_principal.spec_get(request.target_username@)->0@;
            let f = final(state).files()[file_id];
            let pf = old(state).files()[file_id];
            let e = content_envelope(f.content)->0;
            let e0 = content_envelope(pf.content)->0;
            let ov = principal_views(e0.shared_with@);
            &&& final(state).files().contains_key(file_id)
            &&& forall|id: u64|
                id != file_id ==> final(state).files().contains_key(id) == old(
                    state,
                ).files().contains_key(id)
            &&& forall|id: u64|
                id != file_id && old(state).files().contains_key(id)
                    ==> final(state).files()[id] == old(state).files()[id]
            &&& f.metadata == pf.metadata
            &&& content_num_chunks(f.content) == content_num_chunks(pf.content)
            &&& content_file_type(f.content) == content_file_type(pf.content)
            &&& content_envelope(f.content) is Some
            &&& e.encrypted_content == e0.encrypted_content
            &&& e.owner_principal == e0.owner_principal
            &&& e.vet_keys_config == e0.vet_keys_config
            &&& principal_views(e.shared_with@) == grant_one(ov, t)
            &&& final(state).file_contents == old(state).file_contents
            &&& final(state).file_owners == old(state).file_owners
            &&& final(state).username_to_principal == old(state).username_to_principal
            &&& final(state).user_profiles == old(state).user_profiles
            &&& final(state).spec_file_count() == old(state).spec_file_count()
            &&& final(state).shared_ids(t) == if ov.contains(t) {
                old(state).shared_ids(t)
            } else {
                old(state).shared_ids(t).push(file_id)
            }
            &&& forall|q: Seq<u8>| #![trigger old(state).shared_ids(q)]
                q != t ==> final(state).shared_ids(q) == old(state).shared_ids(q)
        },
{
    if caller.is_anonymous() {
        return FileSharingResponse::NotAuthenticated;
    }
    if !state.file_owners.contains_file(caller, request.file_id) {
        return FileSharingResponse::PermissionError;
    }
    let target = match state.username_to_principal.get_ref(&request.target_username) {
        None => {
            return FileSharingResponse::UserNotFound;
        },
        Some(p) => p.clone(),
    };
    if target.eq(caller) {
        return FileSharingResponse::InvalidInput;
    }
    match state.file_data.get(&request.file_id) {
        None => {
            proof {
                assert(false);
            }
            return FileSharingResponse::FileNotFound;
        },
        Some(file) => {
            match &file.content {
                FileContent::Pending { .. } => {
                    return FileSharingResponse::PendingError;
                },
                FileContent::PartiallyUploaded { encrypted_file_data: None, .. } => {
                    return FileSharingResponse::FileNotUploaded;
                },
                _ => {},
            }
        },
    }
    let ghost pre = *old(state);
    let ghost ov = principal_views(
        content_envelope(pre.files()[request.file_id].content)->0.shared_with@,
    );
    let mut targets: Vec<PrincipalId> = Vec::new();
    targets.push(target);
    crate::api::share_file::grant_targets(state, request.file_id, &targets);
    proof {
        let t = targets@[0]@;
        let tv = principal_views(targets@);
        assert(tv =~= seq![t]);
        assert(tv.drop_last() =~= Seq::<Seq<u8>>::empty());
        assert(grant_seq(ov, tv.drop_last()) == ov);
        assert(tv.last() == t);
        assert(grant_seq(ov, tv) == grant_one(grant_seq(ov, tv.drop_last()), tv.last()));
        assert(grant_seq(ov, tv) == grant_one(ov, t));
        crate::vetkeys::lemma_grant_seq_contains(ov, tv, t);
        assert forall|q: Seq<u8>| #![trigger pre.shared_ids(q)] q != t implies state.shared_ids(q)
            == pre.shared_ids(q) by {
            crate::vetkeys::lemma_grant_seq_contains(ov, tv, q);
            assert(tv.contains(q) ==> q == t);
        }
        assert(state.shared_ids(t) == if ov.contains(t) {
            pre.shared_ids(t)
        } else {
            pre.shared_ids(t).push(request.file_id)
        });
    }
    FileSharingResponse::Success
}

/// What a username-keyed unshare call returns, decided over the state before
/// the call.
pub open spec fn unshare_outcome(
    s: State,
    caller: Seq<u8>,
    file_id: u64,
    username: Seq<char>,
) -> FileSharingResponse {
    if caller == anonymous_bytes() {
        FileSharingResponse::NotAuthenticated
    } else if !s.owned_ids(caller).contains(file_id) {
        FileSharingResponse::PermissionError
    } else if s.username_to_principal.spec_get(username) is None {
        FileSharingResponse::UserNotFound
    } else {
        FileSharingResponse::Success
    }
}

/// Withdraws a grant: the target is removed from the envelope's shared set
/// and the file id from the target's sharing-index list.  Removing a grant
/// that does not exist is a no-op success, not an error.
pub fn unshare_file(caller: &PrincipalId, request: UnshareFileRequest, state: &mut State) -> (r:
    FileSharingResponse)
    requires
        old(state).inv(),
    ensures
        final(state).inv(),
        r == unshare_outcome(*old(state), caller@, request.file_id, request.target_username@),
        r != FileSharingResponse::Success ==> *final(state) == *old(state),
        r == FileSharingResponse::Success ==> {
            let file_id = request.file_id;
            let t = old(state).username_to_principal.spec_get(request.target_username@)->0@;
            let f = final(state).files()[file_id];
            let pf = old(state).files()[file_id];
            &&& final(state).files().contains_key(file_id)
            &&& forall|id: u64|
                id != file_id ==> final(state).files().contains_key(id) == old(
                    state,
                ).files().contains_key(id)
            &&& forall|id: u64|
                id != file_id && old(state).files().contains_key(id)
                    ==> final(state).files()[id] == old(state).files()[id]
            &&& f.metadata == pf.metadata
            &&& content_num_chunks(f.content) == content_num_chunks(pf.content)
            &&& content_file_type(f.content) == content_file_type(pf.content)
            &&& (match (content_envelope(f.content), content_envelope(pf.content)) {
                (Some(e), Some(e0)) => {
                    &&& e.encrypted_content == e0.encrypted_content
                    &&& e.owner_principal == e0.owner_principal
                    &&& e.vet_keys_config == e0.vet_keys_config
                    &&& principal_views(e.shared_with@) == remove_principal_views(
                        principal_views(e0.shared_with@),
                        t,
                    )
                },
                (None, None) => true,
                _ => false,
            })
            &&& final(state).file_contents == old(state).file_contents
            &&& final(state).file_owners == old(state).file_owners
            &&& final(state).username_to_principal == old(state).username_to_principal
            &&& final(state).user_profiles == old(state).user_profiles
            &&& final(state).spec_file_count() == old(state).spec_file_count()
            &&& final(state).shared_ids(t) == remove_id(old(state).shared_ids(t), file_id)
            &&& forall|q: Seq<u8>| #![trigger old(state).shared_ids(q)]
                q != t ==> final(state).shared_ids(q) == old(state).shared_ids(q)
        },
{
    if caller.is_anonymous() {
        return FileSharingResponse::NotAuthenticated;
    }
    if !state.file_owners.contains_file(caller, request.file_id) {
        return FileSharingResponse::PermissionError;
    }
    let target = match state.username_to_principal.get_ref(&request.target_username) {
        None => {
            return FileSharingResponse::UserNotFound;
        },
        Some(p) => p.clone(),
    };
    revoke_target(state, request.file_id, &target);
    FileSharingResponse::Success
}

/// Removes `target` from the envelope of `file_id` and the file id from
/// `target`'s sharing list; a file without an envelope has no grants, so
/// nothing changes then.
fn revoke_target(state: &mut State, file_id: u64, target: &PrincipalId)
    requires
        old(state).inv(),
        old(state).files().contains_key(file_id),
    ensures
        final(state).inv(),
        final(state).files().contains_key(file_id),
        forall|id: u64|
            id != file_id ==> final(state).files().contains_key(id) == old(
                state,
            ).files().contains_key(id),
        forall|id: u64|
            id != file_id && old(state).files().contains_key(id)
                ==> final(state).files()[id] == old(state).files()[id],
        ({
            let f = final(state).files()[file_id];
            let pf = old(state).files()[file_id];
            &&& f.metadata == pf.metadata
            &&& content_num_chunks(f.content) == content_num_chunks(pf.content)
            &&& content_file_type(f.content) == content_file_type(pf.content)
            &&& (match (content_envelope(f.content), content_envelope(pf.content)) {
                (Some(e), Some(e0)) => {
                    &&& e.encrypted_content == e0.encrypted_content
                    &&& e.owner_principal == e0.owner_principal
                    &&& e.vet_keys_config == e0.vet_keys_config
                    &&& principal_views(e.shared_with@) == remove_principal_views(
                        principal_views(e0.shared_with@),
                        target@,
                    )
                },
                (None, None) => true,
                _ => false,
            })
        }),
        final(state).file_contents == old(state).file_contents,
        final(state).file_owners == old(state).file_owners,
        final(state).username_to_principal == old(state).username_to_principal,
        final(state).user_profiles == old(state).user_profiles,
        final(state).spec_file_count() == old(state).spec_file_count(),
        final(state).shared_ids(target@) == remove_id(old(state).shared_ids(target@), file_id),
        forall|q: Seq<u8>| #![trigger old(state).shared_ids(q)]
            q != target@ ==> final(state).shared_ids(q) == old(state).shared_ids(q),
{
    let ghost pre = *old(state);
    let has_envelope: bool = match state.file_data.get(&file_id) {
        None => {
            proof {
                assert(false);
            }
            false
        },
        Some(file) => match &file.content {
            FileContent::Pending { .. } => false,
            FileContent::PartiallyUploaded { encrypted_file_data: None, .. } => false,
            _ => true,
        },
    };
    if !has_envelope {
        proof {
            // A file without an envelope has no sharing entries, so the
            // removal below would find nothing anyway.
            assert(!pre.shared_ids(target@).contains(file_id)) by {
                if pre.shared_ids(target@).contains(file_id) {
                    assert(content_envelope(pre.files()[file_id].content) is Some);
                }
            }
            crate::index::lemma_remove_id_absent(pre.shared_ids(target@), file_id);
        }
        return ;
    }
    let file = match state.file_data.remove(&file_id) {
        Some(f) => f,
        None => {
            proof {
                assert(false);
            }
            return ;
        },
    };
    let metadata = file.metadata;
    let (num_chunks, file_type, mut env, was_uploaded) = match file.content {
        FileContent::Uploaded { num_chunks, file_type, encrypted_file_data } => (
            num_chunks,
            file_type,
            encrypted_file_data,
            true,
        ),
        FileContent::PartiallyUploaded {
            num_chunks,
            file_type,
            encrypted_file_data: Some(e),
        } => (num_chunks, file_type, e, false),
        _ => {
            proof {
                assert(false);
            }
            return ;
        },
    };
    let ghost ov = principal_views(env.shared_with@);
    remove_principal(&mut env.shared_with, target);
    state.file_shares.remove_file(target, file_id);

    let content = if was_uploaded {
        FileContent::Uploaded { num_chunks, file_type, encrypted_file_data: env }
    } else {
        FileContent::PartiallyUploaded { num_chunks, file_type, encrypted_file_data: Some(env) }
    };
    let old_value = state.file_data.insert(file_id, File { metadata, content });
    proof {
        assert(old_value is None);
        assert(final(state).files() =~= pre.files().insert(file_id, final(state).files()[file_id]));
        lemma_revoke_preserves_inv(pre, *state, file_id, target@, ov);
    }
}

/// Re-establishes the store invariant after a revocation: the target left
/// the envelope's shared set and its index list together, so they agree
/// again.
proof fn lemma_revoke_preserves_inv(
    pre: State,
    post: State,
    file_id: u64,
    t: Seq<u8>,
    ov: Seq<Seq<u8>>,
)
    requires
        pre.inv(),
        pre.files().contains_key(file_id),
        content_envelope(pre.files()[file_id].content) is Some,
        ov == principal_views(content_envelope(pre.files()[file_id].content)->0.shared_with@),
        post.files().contains_key(file_id),
        post.files() == pre.files().insert(file_id, post.files()[file_id]),
        ({
            let f = post.files()[file_id];
            let pf = pre.files()[file_id];
            let e = content_envelope(f.content)->0;
            &&& f.metadata == pf.metadata
            &&& (f.content is Uploaded <==> pf.content is Uploaded)
            &&& (f.content is PartiallyUploaded <==> pf.content is PartiallyUploaded)
            &&& content_num_chunks(f.content) == content_num_chunks(pf.content)
            &&& content_envelope(f.content) is Some
            &&& e.owner_principal == content_envelope(pf.content)->0.owner_principal
            &&& principal_views(e.shared_with@) == remove_principal_views(ov, t)
        }),
        post.file_contents == pre.file_contents,
        post.file_owners == pre.file_owners,
        post.username_to_principal == pre.username_to_principal,
        post.user_profiles == pre.user_profiles,
        post.spec_file_count() == pre.spec_file_count(),
        post.file_shares.wf(),
        post.shared_ids(t) == remove_id(pre.shared_ids(t), file_id),
        forall|q: Seq<u8>| #![trigger pre.shared_ids(q)]
            q != t ==> post.shared_ids(q) == pre.shared_ids(q),
    ensures
        post.inv(),
{
    let f = post.files()[file_id];
    let pf = pre.files()[file_id];
    let e = content_envelope(f.content)->0;
    let e0 = content_envelope(pf.content)->0;
    lemma_revoke_removes(ov, t);
    lemma_remove_id_removes(pre.shared_ids(t), file_id);
    assert(post.chunks() == pre.chunks());
    assert forall|q: Seq<u8>| true implies #[trigger] post.owned_ids(q) == pre.owned_ids(q) by {}
    // chunks_wf
    assert forall|k: (u64, u64)| #[trigger] post.chunks().contains_key(k) implies post.files()
        .contains_key(k.0) by {
        assert(pre.chunks().contains_key(k));
        assert(pre.files().contains_key(k.0));
    }
    assert forall|id: u64| #[trigger] post.files().contains_key(id) implies content_chunks_ok(
        post.files()[id].content,
        post.chunks(),
        id,
    ) by {
        assert(pre.files().contains_key(id));
        if id != file_id {
            assert(post.files()[id] == pre.files()[id]);
        } else {
            match pf.content {
                FileContent::Pending { .. } => {
                    assert(false);
                },
                FileContent::Uploaded { num_chunks: n, .. } => {
                    assert(content_num_chunks(f.content) == n);
                },
                FileContent::PartiallyUploaded { num_chunks: n, .. } => {
                    assert(content_num_chunks(f.content) == n);
                },
            }
        }
    }
    // owners_wf
    assert forall|p: Seq<u8>, id: u64| #[trigger]
        post.owned_ids(p).contains(id) implies post.files().contains_key(id)
        && post.files()[id].metadata.requester_principal@ == p by {
        assert(pre.owned_ids(p).contains(id));
        if id == file_id {
            assert(post.files()[id].metadata == pre.files()[id].metadata);
        } else {
            assert(post.files()[id] == pre.files()[id]);
        }
    }
    assert forall|id: u64| #[trigger] post.files().contains_key(id) implies post.owned_ids(
        post.files()[id].metadata.requester_principal@,
    ).contains(id) by {
        assert(pre.files().contains_key(id));
        if id == file_id {
            assert(post.files()[id].metadata == pre.files()[id].metadata);
        } else {
            assert(post.files()[id] == pre.files()[id]);
        }
    }
    // shares_wf
    assert forall|p: Seq<u8>, id: u64| #[trigger]
        post.shared_ids(p).contains(id) implies post.files().contains_key(id)
        && match content_envelope(post.files()[id].content) {
        Some(en) => principal_views(en.shared_with@).contains(p),
        None => false,
    } by {
        if p == t {
            assert(pre.shared_ids(t).contains(id) && id != file_id);
            assert(post.files()[id] == pre.files()[id]);
        } else {
            assert(pre.shared_ids(p).contains(id));
            if id == file_id {
                assert(principal_views(e0.shared_with@).contains(p));
                assert(ov.contains(p));
                assert(remove_principal_views(ov, t).contains(p));
            } else {
                assert(post.files()[id] == pre.files()[id]);
            }
        }
    }
    assert forall|id: u64| #[trigger]
        post.files().contains_key(id) implies match content_envelope(post.files()[id].content) {
        Some(en) => forall|j: int|
            0 <= j < en.shared_with@.len() ==> post.shared_ids(en.shared_with@[j]@).contains(id),
        None => true,
    } by {
        assert(pre.files().contains_key(id));
        if id != file_id {
            assert(post.files()[id] == pre.files()[id]);
            match content_envelope(pre.files()[id].content) {
                Some(en) => {
                    assert forall|j: int| 0 <= j < en.shared_with@.len() implies post.shared_ids(
                        en.shared_with@[j]@,
                    ).contains(id) by {
                        let q = en.shared_with@[j]@;
                        assert(pre.shared_ids(q).contains(id));
                        if q == t {
                            assert(id != file_id);
                        }
                    }
                },
                None => {},
            }
        } else {
            assert forall|j: int| 0 <= j < e.shared_with@.len() implies post.shared_ids(
                e.shared_with@[j]@,
            ).contains(id) by {
                let q = e.shared_with@[j]@;
                assert(principal_views(e.shared_with@)[j] == q);
                assert(remove_principal_views(ov, t).contains(q));
                assert(q != t);
                assert(ov.contains(q));
                let k = choose|k: int| 0 <= k < ov.len() && ov[k] == q;
                assert(e0.shared_with@[k]@ == q);
                assert(pre.shared_ids(q).contains(file_id));
            }
        }
    }
    assert forall|p: Seq<u8>| (#[trigger] post.shared_ids(p)).no_duplicates() by {
        if p != t {
            assert(post.shared_ids(p) == pre.shared_ids(p));
        }
    }
    // envelopes_wf
    assert forall|id: u64| #[trigger]
        post.files().contains_key(id) implies match content_envelope(post.files()[id].content) {
        Some(en) => en.owner_principal@ == post.files()[id].metadata.requester_principal@
            && principal_views(en.shared_with@).no_duplicates(),
        None => true,
    } by {
        assert(pre.files().contains_key(id));
        if id != file_id {
            assert(post.files()[id] == pre.files()[id]);
        } else {
            assert(principal_views(e0.shared_with@).no_duplicates());
            assert(post.files()[id].metadata == pre.files()[id].metadata);
        }
    }
    // ids_wf
    assert forall|id: u64| #[trigger] post.files().contains_key(id) implies id
        < post.spec_file_count() by {
        assert(pre.files().contains_key(id));
    }
}

/// The file ids the caller owns and the file ids shared with it, each list
/// read from the same snapshot.
pub fn get_shared_files(caller: &PrincipalId, state: &State) -> (r: GetSharedFilesResponse)
    ensures
        r.owned_files@ == state.owned_ids(caller@),
        r.shared_files@ == state.shared_ids(caller@),
{
    GetSharedFilesResponse {
        owned_files: state.file_owners.get_list(caller),
        shared_files: state.file_shares.get_list(caller),
    }
}

/// Whether `file_id` is shared with `user_principal`.
pub fn is_file_shared_with_user(state: &State, file_id: u64, user_principal: &PrincipalId) -> (r:
    bool)
    ensures
        r == state.shared_ids(user_principal@).contains(file_id),
{
    state.file_shares.contains_file(user_principal, file_id)
}

/// The profiles collected for a list of principals, in order, skipping
/// principals without a profile.
pub open spec fn shared_profiles(
    profiles: crate::index::PrincipalMap<PublicUser>,
    shared: Seq<PrincipalId>,
) -> Seq<PublicUser>
    decreases shared.len(),
{
    if shared.len() == 0 {
        Seq::empty()
    } else {
        let rest = shared_profiles(profiles, shared.drop_last());
        match profiles.spec_get(shared.last()@) {
            Some(u) => rest.push(u),
            None => rest,
        }
    }
}

/// The registered profiles of every user the file is shared with, in the
/// envelope's grant order.  A file without an envelope is shared with
/// nobody.
pub fn get_file_shared_users(state: &State, file_id: u64) -> (r: Vec<PublicUser>)
    ensures
        ({
            let spec_r = match state.files().contains_key(file_id) {
                true => match content_envelope(state.files()[file_id].content) {
                    Some(e) => shared_profiles(state.user_profiles, e.shared_with@),
                    None => Seq::<PublicUser>::empty(),
                },
                false => Seq::<PublicUser>::empty(),
            };
            &&& r@.len() == spec_r.len()
            &&& forall|i: int| 0 <= i < r@.len() ==> same_user(r@[i], spec_r[i])
        }),
{
    let mut out: Vec<PublicUser> = Vec::new();
    let file = match state.file_data.get(&file_id) {
        None => {
            return out;
        },
        Some(f) => f,
    };
    let shared: &Vec<PrincipalId> = match &file.content {
        FileContent::Pending { .. } => {
            return out;
        },
        FileContent::PartiallyUploaded { encrypted_file_data: None, .. } => {
            return out;
        },
        FileContent::Uploaded { encrypted_file_data, .. } => &encrypted_file_data.shared_with,
        FileContent::PartiallyUploaded { encrypted_file_data: Some(e), .. } => &e.shared_with,
    };
    let mut i: usize = 0;
    while i < shared.len()
        invariant
            i <= shared@.len(),
            out@.len() == shared_profiles(state.user_profiles, shared@.subrange(0, i as int)).len(),
            forall|j: int|
                0 <= j < out@.len() ==> same_user(
                    out@[j],
                    shared_profiles(state.user_profiles, shared@.subrange(0, i as int))[j],
                ),
        decreases shared@.len() - i,
    {
        let ghost prefix = shared@.subrange(0, i as int);
        match state.user_profiles.get_ref(&shared[i]) {
            Some(profile) => {
                out.push(profile.clone());
            },
            None => {},
        }
        proof {
            assert(shared@.subrange(0, i + 1 as int).drop_last() =~= prefix);
            assert(shared@.subrange(0, i + 1 as int).last() == shared@[i as int]);
        }
        i += 1;
    }
    proof {
        assert(shared@.subrange(0, shared@.len() as int) =~= shared@);
    }
    out
}

} // verus!
