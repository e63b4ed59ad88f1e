use vstd::prelude::*;

use crate::principal::PrincipalId;
use crate::vetkeys::{
    grant_one, grant_seq, lemma_grant_seq_contains, lemma_grant_seq_no_dup, principal_views,
};
use crate::{
    content_chunks_ok, content_envelope, content_file_type, content_num_chunks, File, FileContent,
    FileSharingResponse, State,
};

verus! {

pub struct ShareFileRequest {
    pub file_id: u64,
    pub shared_with: Vec<PrincipalId>,
}

/// What a share call returns, decided over the state before the call.
pub open spec fn share_outcome(s: State, caller: Seq<u8>, file_id: u64) -> FileSharingResponse {
    if !s.files().contains_key(file_id) {
        FileSharingResponse::FileNotFound
    } else if s.files()[file_id].metadata.requester_principal@ != caller {
        FileSharingResponse::PermissionError
    } else if content_envelope(s.files()[file_id].content) is None {
        FileSharingResponse::PendingError
    } else {
        FileSharingResponse::Success
    }
}

/// A sequence keeps its members when an element is pushed.
proof fn lemma_push_contains<A>(s: Seq<A>, x: A, y: A)
    ensures
        s.push(x).contains(y) == (s.contains(y) || y == x),
{
    let p = s.push(x);
    if s.contains(y) {
        let i = choose|i: int| 0 <= i < s.len() && s[i] == y;
        assert(p[i] == y);
        assert(p.contains(y));
    } else if y == x {
        assert(p[p.len() - 1] == y);
        assert(p.contains(y));
    } else {
        assert forall|i: int| 0 <= i < p.len() implies p[i] != y by {
            if i < s.len() {
                assert(p[i] == s[i]);
                assert(s.contains(s[i]) ==> !(s[i] == y));
            }
        }
    }
}

/// Extends the shared set of a file that carries an envelope: each target
/// not yet in the envelope's shared set is appended to it, and the file id
/// is recorded in that target's sharing-index list, so the envelope and the
/// index agree again at the end.
pub(crate) fn grant_targets(state: &mut State, file_id: u64, targets: &Vec<PrincipalId>)
    requires
        old(state).inv(),
        old(state).files().contains_key(file_id),
        content_envelope(old(state).files()[file_id].content) is Some,
    ensures
        final(state).inv(),
        final(state).files().contains_key(file_id),
        forall|id: u64|
            id != file_id ==> final(state).files().contains_key(id) == old(
                state,
            ).files().contains_key(id),
        forall|id: u64|
            id != file_id && old(state).files().contains_key(id)
                ==> final(state).files()[id] == old(state).files()[id],
        ({
            let f = final(state).files()[file_id];
            let pf = old(state).files()[file_id];
            let e = content_envelope(f.content)->0;
            let e0 = content_envelope(pf.content)->0;
            &&& f.metadata == pf.metadata
            &&& (f.content is Uploaded <==> pf.content is Uploaded)
            &&& (f.content is PartiallyUploaded <==> pf.content is PartiallyUploaded)
            &&& content_num_chunks(f.content) == content_num_chunks(pf.content)
            &&& content_file_type(f.content) == content_file_type(pf.content)
            &&& content_envelope(f.content) is Some
            &&& e.encrypted_content == e0.encrypted_content
            &&& e.owner_principal == e0.owner_principal
            &&& e.vet_keys_config == e0.vet_keys_config
            &&& principal_views(e.shared_with@) == grant_seq(
                principal_views(e0.shared_with@),
                principal_views(targets@),
            )
        }),
        final(state).file_contents == old(state).file_contents,
        final(state).file_owners == old(state).file_owners,
        final(state).username_to_principal == old(state).username_to_principal,
        final(state).user_profiles == old(state).user_profiles,
        final(state).spec_file_count() == old(state).spec_file_count(),
        ({
            let ov = principal_views(
                content_envelope(old(state).files()[file_id].content)->0.shared_with@,
            );
            let tv = principal_views(targets@);
            forall|q: Seq<u8>| #![trigger old(state).shared_ids(q)]
                final(state).shared_ids(q) == if grant_seq(ov, tv).contains(q) && !ov.contains(q) {
                    old(state).shared_ids(q).push(file_id)
                } else {
                    old(state).shared_ids(q)
                }
        }),
{
    let ghost pre = *old(state);
    let file = match state.file_data.remove(&file_id) {
        Some(f) => f,
        None => {
            proof {
                assert(false);
            }
            return ;
        },
    };
    let metadata = file.metadata;
    let (num_chunks, file_type, mut env, was_uploaded) = match file.content {
        FileContent::Uploaded { num_chunks, file_type, encrypted_file_data } => (
            num_chunks,
            file_type,
            encrypted_file_data,
            true,
        ),
        FileContent::PartiallyUploaded {
            num_chunks,
            file_type,
            encrypted_file_data: Some(e),
        } => (num_chunks, file_type, e, false),
        _ => {
            proof {
                assert(false);
            }
            return ;
        },
    };
    let ghost ov = principal_views(env.shared_with@);
    let ghost tv = principal_views(targets@);
    let ghost env0 = env;

    let mut i: usize = 0;
    while i < targets.len()
        invariant
            i <= targets@.len(),
            tv == principal_views(targets@),
            tv.len() == targets@.len(),
            ov == principal_views(env0.shared_with@),
            principal_views(env.shared_with@) == grant_seq(ov, tv.subrange(0, i as int)),
            env.encrypted_content == env0.encrypted_content,
            env.owner_principal == env0.owner_principal,
            env.vet_keys_config == env0.vet_keys_config,
            state.file_shares.wf(),
            state.files() == pre.files().remove(file_id),
            state.file_contents == pre.file_contents,
            state.file_owners == pre.file_owners,
            state.username_to_principal == pre.username_to_principal,
            state.user_profiles == pre.user_profiles,
            state.spec_file_count() == pre.spec_file_count(),
            forall|q: Seq<u8>| #![trigger pre.shared_ids(q)]
                state.shared_ids(q) == if principal_views(env.shared_with@).contains(q)
                    && !ov.contains(q) {
                    pre.shared_ids(q).push(file_id)
                } else {
                    pre.shared_ids(q)
                },
        decreases targets@.len() - i,
    {
        let ghost cv = principal_views(env.shared_with@);
        let ghost sh_before = state.file_shares;
        let t = &targets[i];
        if !crate::vetkeys::contains_principal(&env.shared_with, t) {
            proof {
                lemma_grant_seq_contains(ov, tv.subrange(0, i as int), t@);
                assert(!ov.contains(t@));
            }
            env.shared_with.push(t.clone());
            state.file_shares.add_file(t, file_id);
            proof {
                assert(principal_views(env.shared_with@) =~= cv.push(t@));
                assert forall|q: Seq<u8>| true implies state.shared_ids(q)
                    == if principal_views(env.shared_with@).contains(q) && !ov.contains(q) {
                    pre.shared_ids(q).push(file_id)
                } else {
                    pre.shared_ids(q)
                } by {
                    lemma_push_contains(cv, t@, q);
                    assert(sh_before.ids_of(q) == if cv.contains(q) && !ov.contains(q) {
                        pre.shared_ids(q).push(file_id)
                    } else {
                        pre.shared_ids(q)
                    });
                    if q == t@ {
                        assert(sh_before.ids_of(t@) == pre.shared_ids(t@));
                        assert(state.file_shares.ids_of(t@) == sh_before.ids_of(t@).push(file_id));
                    } else {
                        assert(state.file_shares.ids_of(q) == sh_before.ids_of(q));
                        assert(principal_views(env.shared_with@).contains(q) == cv.contains(q));
                    }
                }
            }
        }
        proof {
            assert(principal_views(env.shared_with@) == grant_one(cv, tv[i as int])) by {
                if cv.contains(tv[i as int]) {
                    assert(principal_views(env.shared_with@) == cv);
                }
            }
            assert(tv.subrange(0, i + 1 as int).drop_last() =~= tv.subrange(0, i as int));
            assert(tv.subrange(0, i + 1 as int).last() == tv[i as int]);
        }
        i += 1;
    }
    proof {
        assert(tv.subrange(0, tv.len() as int) =~= tv);
    }

    let content = if was_uploaded {
        FileContent::Uploaded { num_chunks, file_type, encrypted_file_data: env }
    } else {
        FileContent::PartiallyUploaded { num_chunks, file_type, encrypted_file_data: Some(env) }
    };
    let old_value = state.file_data.insert(file_id, File { metadata, content });
    proof {
        assert(old_value is None);
        assert(final(state).files() =~= pre.files().insert(file_id, final(state).files()[file_id]));
        lemma_grant_preserves_inv(pre, *state, file_id, ov, tv);
    }
}

/// Shares an already-stored file with a set of principals: the caller must
/// be the file's requester (its owner), and the file must carry an envelope,
/// so a `Pending` file cannot be shared.  On success the envelope's shared
/// set and the sharing index are both extended, idempotently.
pub fn share_file(
    state: &mut State,
    file_id: u64,
    caller: &PrincipalId,
    request: ShareFileRequest,
) -> (r: FileSharingResponse)
    requires
        old(state).inv(),
    ensures
        final(state).inv(),
        r == share_outcome(*old(state), caller@, file_id),
        r != FileSharingResponse::Success ==> *final(state) == *old(state),
        r == FileSharingResponse::Success ==> {
            let f = final(state).files()[file_id];
            let pf = old(state).files()[file_id];
            let e = content_envelope(f.content)->0;
            let e0 = content_envelope(pf.content)->0;
            let ov = principal_views(e0.shared_with@);
            let tv = principal_views(request.shared_with@);
            &&& final(state).files().contains_key(file_id)
            &&& forall|id: u64|
                id != file_id ==> final(state).files().contains_key(id) == old(
                    state,
                ).files().contains_key(id)
            &&& forall|id: u64|
                id != file_id && old(state).files().contains_key(id)
                    ==> final(state).files()[id] == old(state).files()[id]
            &&& f.metadata == pf.metadata
            &&& content_num_chunks(f.content) == content_num_chunks(pf.content)
            &&& content_file_type(f.content) == content_file_type(pf.content)
            &&& content_envelope(f.content) is Some
            &&& e.encrypted_content == e0.encrypted_content
            &&& e.owner_principal == e0.owner_principal
            &&& e.vet_keys_config == e0.vet_keys_config
            &&& principal_views(e.shared_with@) == grant_seq(ov, tv)
            &&& final(state).file_contents == old(state).file_contents
            &&& final(state).file_owners == old(state).file_owners
            &&& final(state).username_to_principal == old(state).username_to_principal
            &&& final(state).user_profiles == old(state).user_profiles
            &&& final(state).spec_file_count() == old(state).spec_file_count()
            &&& forall|q: Seq<u8>| #![trigger old(state).shared_ids(q)]
                final(state).shared_ids(q) == if grant_seq(ov, tv).contains(q) && !ov.contains(q) {
                    old(state).shared_ids(q).push(file_id)
                } else {
                    old(state).shared_ids(q)
                }
        },
{
    let proceed: bool = match state.file_data.get(&file_id) {
        None => {
            return FileSharingResponse::FileNotFound;
        },
        Some(file) => {
            if !file.metadata.requester_principal.eq(caller) {
                return FileSharingResponse::PermissionError;
            }
            match &file.content {
                FileContent::Uploaded { .. } => true,
                FileContent::PartiallyUploaded { encrypted_file_data: Some(_), .. } => true,
                _ => {
                    return FileSharingResponse::PendingError;
                },
            }
        },
    };
    if proceed {
        grant_targets(state, file_id, &request.shared_with);
    }
    FileSharingResponse::Success
}

/// Re-establishes the store invariant after a grant: the envelope's shared
/// set and the sharing index were extended together, so they agree again.
proof fn lemma_grant_preserves_inv(
    pre: State,
    post: State,
    file_id: u64,
    ov: Seq<Seq<u8>>,
    tv: Seq<Seq<u8>>,
)
    requires
        pre.inv(),
        pre.files().contains_key(file_id),
        content_envelope(pre.files()[file_id].content) is Some,
        ov == principal_views(content_envelope(pre.files()[file_id].content)->0.shared_with@),
        post.files().contains_key(file_id),
        post.files() == pre.files().insert(file_id, post.files()[file_id]),
        ({
            let f = post.files()[file_id];
            let pf = pre.files()[file_id];
            let e = content_envelope(f.content)->0;
            let e0 = content_envelope(pf.content)->0;
            &&& f.metadata == pf.metadata
            &&& (f.content is Uploaded <==> pf.content is Uploaded)
            &&& (f.content is PartiallyUploaded <==> pf.content is PartiallyUploaded)
            &&& content_num_chunks(f.content) == content_num_chunks(pf.content)
            &&& content_envelope(f.content) is Some
            &&& e.owner_principal == e0.owner_principal
            &&& principal_views(e.shared_with@) == grant_seq(ov, tv)
        }),
        post.file_contents == pre.file_contents,
        post.file_owners == pre.file_owners,
        post.username_to_principal == pre.username_to_principal,
        post.user_profiles == pre.user_profiles,
        post.spec_file_count() == pre.spec_file_count(),
        post.file_shares.wf(),
        forall|q: Seq<u8>|
            post.shared_ids(q) == if grant_seq(ov, tv).contains(q) && !ov.contains(q) {
                pre.shared_ids(q).push(file_id)
            } else {
                pre.shared_ids(q)
            },
    ensures
        post.inv(),
{
    let f = post.files()[file_id];
    let pf = pre.files()[file_id];
    let e = content_envelope(f.content)->0;
    let e0 = content_envelope(pf.content)->0;
    let gv = grant_seq(ov, tv);
    assert(post.chunks() == pre.chunks());
    assert forall|q: Seq<u8>| true implies #[trigger] post.owned_ids(q) == pre.owned_ids(q) by {}
    // chunks_wf
    assert forall|k: (u64, u64)| #[trigger] post.chunks().contains_key(k) implies post.files()
        .contains_key(k.0) by {
        assert(pre.chunks().contains_key(k));
        assert(pre.files().contains_key(k.0));
    }
    assert forall|id: u64| #[trigger] post.files().contains_key(id) implies content_chunks_ok(
        post.files()[id].content,
        post.chunks(),
        id,
    ) by {
        assert(pre.files().contains_key(id));
        if id != file_id {
            assert(post.files()[id] == pre.files()[id]);
        } else {
            match pf.content {
                FileContent::Pending { .. } => {
                    assert(false);
                },
                FileContent::Uploaded { num_chunks: n, .. } => {
                    assert(content_num_chunks(f.content) == n);
                },
                FileContent::PartiallyUploaded { num_chunks: n, .. } => {
                    assert(content_num_chunks(f.content) == n);
                },
            }
        }
    }
    // owners_wf
    assert forall|p: Seq<u8>, id: u64| #[trigger]
        post.owned_ids(p).contains(id) implies post.files().contains_key(id)
        && post.files()[id].metadata.requester_principal@ == p by {
        assert(pre.owned_ids(p).contains(id));
        if id == file_id {
            assert(post.files()[id].metadata == pre.files()[id].metadata);
        } else {
            assert(post.files()[id] == pre.files()[id]);
        }
    }
    assert forall|id: u64| #[trigger] post.files().contains_key(id) implies post.owned_ids(
        post.files()[id].metadata.requester_principal@,
    ).contains(id) by {
        assert(pre.files().contains_key(id));
        if id == file_id {
            assert(post.files()[id].metadata == pre.files()[id].metadata);
        } else {
            assert(post.files()[id] == pre.files()[id]);
        }
    }
    // shares_wf
    assert forall|p: Seq<u8>, id: u64| #[trigger]
        post.shared_ids(p).contains(id) implies post.files().contains_key(id)
        && match content_envelope(post.files()[id].content) {
        Some(en) => principal_views(en.shared_with@).contains(p),
        None => false,
    } by {
        lemma_grant_seq_contains(ov, tv, p);
        if gv.contains(p) && !ov.contains(p) {
            assert(post.shared_ids(p) == pre.shared_ids(p).push(file_id));
            lemma_push_contains(pre.shared_ids(p), file_id, id);
            if id == file_id {
                assert(principal_views(e.shared_with@).contains(p));
            } else {
                assert(pre.shared_ids(p).contains(id));
                assert(post.files()[id] == pre.files()[id]);
            }
        } else {
            assert(post.shared_ids(p) == pre.shared_ids(p));
            assert(pre.shared_ids(p).contains(id));
            if id == file_id {
                assert(principal_views(e0.shared_with@).contains(p));
                assert(ov.contains(p));
                assert(gv.contains(p));
            } else {
                assert(post.files()[id] == pre.files()[id]);
            }
        }
    }
    assert forall|id: u64| #[trigger]
        post.files().contains_key(id) implies match content_envelope(post.files()[id].content) {
        Some(en) => forall|j: int|
            0 <= j < en.shared_with@.len() ==> post.shared_ids(en.shared_with@[j]@).contains(id),
        None => true,
    } by {
        assert(pre.files().contains_key(id));
        if id != file_id {
            assert(post.files()[id] == pre.files()[id]);
            match content_envelope(pre.files()[id].content) {
                Some(en) => {
                    assert forall|j: int| 0 <= j < en.shared_with@.len() implies post.shared_ids(
                        en.shared_with@[j]@,
                    ).contains(id) by {
                        let q = en.shared_with@[j]@;
                        assert(pre.shared_ids(q).contains(id));
                        if gv.contains(q) && !ov.contains(q) {
                            lemma_push_contains(pre.shared_ids(q), file_id, id);
                        }
                    }
                },
                None => {},
            }
        } else {
            assert forall|j: int| 0 <= j < e.shared_with@.len() implies post.shared_ids(
                e.shared_with@[j]@,
            ).contains(id) by {
                let q = e.shared_with@[j]@;
                assert(principal_views(e.shared_with@)[j] == q);
                assert(gv.contains(q));
                if ov.contains(q) {
                    assert(principal_views(e0.shared_with@).contains(q));
                    let k = choose|k: int|
                        0 <= k < principal_views(e0.shared_with@).len() && principal_views(
                            e0.shared_with@,
                        )[k] == q;
                    assert(e0.shared_with@[k]@ == q);
                    assert(pre.shared_ids(q).contains(file_id));
                    if gv.contains(q) && !ov.contains(q) {
                    } else {
                        assert(post.shared_ids(q) == pre.shared_ids(q));
                    }
                } else {
                    assert(post.shared_ids(q) == pre.shared_ids(q).push(file_id));
                    lemma_push_contains(pre.shared_ids(q), file_id, file_id);
                }
            }
        }
    }
    assert forall|p: Seq<u8>| (#[trigger] post.shared_ids(p)).no_duplicates() by {
        if gv.contains(p) && !ov.contains(p) {
            assert(post.shared_ids(p) == pre.shared_ids(p).push(file_id));
            assert(!pre.shared_ids(p).contains(file_id)) by {
                if pre.shared_ids(p).contains(file_id) {
                    assert(principal_views(e0.shared_with@).contains(p));
                }
            }
            let l0 = pre.shared_ids(p);
            let l = l0.push(file_id);
            assert forall|x: int, y: int| 0 <= x < y < l.len() implies l[x] != l[y] by {
                if y < l.len() - 1 {
                    assert(l[x] == l0[x] && l[y] == l0[y]);
                } else {
                    assert(l[y] == file_id && l[x] == l0[x]);
                    assert(l0.contains(l0[x]));
                }
            }
        } else {
            assert(post.shared_ids(p) == pre.shared_ids(p));
        }
    }
    // envelopes_wf
    assert forall|id: u64| #[trigger]
        post.files().contains_key(id) implies match content_envelope(post.files()[id].content) {
        Some(en) => en.owner_principal@ == post.files()[id].metadata.requester_principal@
            && principal_views(en.shared_with@).no_duplicates(),
        None => true,
    } by {
        assert(pre.files().contains_key(id));
        if id != file_id {
            assert(post.files()[id] == pre.files()[id]);
        } else {
            assert(principal_views(e0.shared_with@).no_duplicates());
            lemma_grant_seq_no_dup(ov, tv);
            assert(post.files()[id].metadata == pre.files()[id].metadata);
        }
    }
    // ids_wf
    assert forall|id: u64| #[trigger] post.files().contains_key(id) implies id
        < post.spec_file_count() by {
        assert(pre.files().contains_key(id));
    }
}

} // verus!
