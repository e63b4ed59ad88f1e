use vstd::prelude::*;

use crate::principal::{anonymous_bytes, PrincipalId};
use crate::{FileContent, FileStatus, PublicFileMetadata, State};

verus! {

/// What the summary of one listed file must hold: the file's id and name,
/// empty group fields, and a status that mirrors the content state, with the
/// upload timestamp falling back to the request timestamp.
pub open spec fn summary_ok(m: PublicFileMetadata, s: State, id: u64) -> bool {
    let f = s.files()[id];
    &&& m.file_id == id
    &&& m.file_name@ == f.metadata.file_name@
    &&& m.group_name@ == Seq::<char>::empty()
    &&& m.group_alias is None
    &&& match f.content {
        FileContent::Pending { alias } => match m.file_status {
            FileStatus::Pending { alias: a, requested_at: t } => a@ == alias@ && t
                == f.metadata.requested_at,
            _ => false,
        },
        FileContent::PartiallyUploaded { .. } => m.file_status is PartiallyUploaded,
        FileContent::Uploaded { .. } => match m.file_status {
            FileStatus::Uploaded { uploaded_at } => uploaded_at == match f.metadata.uploaded_at {
                Some(u) => u,
                None => f.metadata.requested_at,
            },
            _ => false,
        },
    }
}

/// Lists the caller's files: one summary for each owned file id, in the
/// order the ownership index records them.  Only an authenticated caller may
/// list files.
pub fn list_files(caller: &PrincipalId, state: &State) -> (r: Vec<PublicFileMetadata>)
    requires
        state.inv(),
        caller@ != anonymous_bytes(),
    ensures
        r@.len() == state.owned_ids(caller@).len(),
        forall|i: int|
            0 <= i < r@.len() ==> #[trigger] summary_ok(r@[i], *state, state.owned_ids(caller@)[i]),
{
    let owned = state.file_owners.get_list(caller);
    let mut out: Vec<PublicFileMetadata> = Vec::new();
    let mut i: usize = 0;
    while i < owned.len()
        invariant
            state.inv(),
            i <= owned@.len(),
            owned@ == state.owned_ids(caller@),
            out@.len() == i,
            forall|j: int|
                0 <= j < i ==> #[trigger] summary_ok(out@[j], *state, state.owned_ids(caller@)[j]),
        decreases owned@.len() - i,
    {
        let file_id = owned[i];
        proof {
            assert(state.owned_ids(caller@).contains(file_id));
        }
        let file = match state.file_data.get(&file_id) {
            None => {
                proof {
                    assert(false);
                }
                return out;
            },
            Some(f) => f,
        };
        let file_status = match &file.content {
            FileContent::Pending { alias } => FileStatus::Pending {
                alias: alias.clone(),
                requested_at: file.metadata.requested_at,
            },
            FileContent::PartiallyUploaded { .. } => FileStatus::PartiallyUploaded,
            FileContent::Uploaded { .. } => FileStatus::Uploaded {
                uploaded_at: match &file.metadata.uploaded_at {
                    Some(u) => *u,
                    None => file.metadata.requested_at,
                },
            },
        };
        out.push(
            PublicFileMetadata {
                file_id,
                file_name: file.metadata.file_name.clone(),
                group_name: String::new(),
                group_alias: None,
                file_status,
            },
        );
        i += 1;
    }
    out
}

} // verus!
