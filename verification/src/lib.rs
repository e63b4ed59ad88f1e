//! A per-user encrypted file store: clients register files, upload content in
//! one or more chunks, and later share, download, or delete them.
//!
//! The store is made of a file registry with a chunked-upload state machine
//! (`Pending` to `PartiallyUploaded` to `Uploaded`, never backwards), an
//! ownership and sharing index consulted before every read, write, or delete,
//! and an encryption manager that binds every stored file to per-principal
//! key material, so that unsealing is only possible for the owner and
//! explicitly shared principals.

pub mod api;
pub mod chunks;
pub mod index;
pub mod principal;
pub mod users;
pub mod vetkeys;

use std::collections::BTreeMap;

use crate::chunks::all_chunks_present;
use crate::chunks::ChunkStore;
use crate::index::PrincipalMap;
use crate::principal::PrincipalId;
use crate::users::PublicUser;
use crate::users::StringMap;
use crate::vetkeys::principal_views;
use crate::vetkeys::EncryptedFileData;

use vstd::prelude::*;

verus! {

pub struct FileInfo {
    pub file_id: u64,
    pub file_name: String,
    pub alias: String,
}

#[derive(Debug)]
pub struct FileMetadata {
    pub file_name: String,
    pub requester_principal: PrincipalId,
    pub requested_at: u64,
    pub uploaded_at: Option<u64>,
    pub storage_provider: String,
    pub blob_id: Option<String>,
    pub is_encrypted: bool,
}

#[derive(Debug, PartialEq)]
pub enum FileStatus {
    Pending { alias: String, requested_at: u64 },
    PartiallyUploaded,
    Uploaded { uploaded_at: u64 },
}

pub struct PublicFileMetadata {
    pub file_id: u64,
    pub file_name: String,
    pub group_name: String,
    pub group_alias: Option<String>,
    pub file_status: FileStatus,
}

#[derive(Debug)]
pub struct File {
    pub metadata: FileMetadata,
    pub content: FileContent,
}

/// The content state of a file; it only ever moves forward, from `Pending`
/// through `PartiallyUploaded` to `Uploaded`.
#[derive(Debug)]
pub enum FileContent {
    Pending { alias: String },
    Uploaded { num_chunks: u64, file_type: String, encrypted_file_data: EncryptedFileData },
    PartiallyUploaded {
        num_chunks: u64,
        file_type: String,
        encrypted_file_data: Option<EncryptedFileData>,
    },
}

#[derive(Debug, PartialEq)]
pub struct FileData {
    pub contents: Vec<u8>,
    pub file_type: String,
    pub num_chunks: u64,
}

#[derive(Debug, PartialEq)]
pub enum FileDownloadResponse {
    NotFoundFile,
    NotUploadedFile,
    PermissionError,
    DecryptionError,
    FoundFile(FileData),
}

#[derive(Clone, Copy, Debug, PartialEq, Eq, Structural)]
pub enum UploadFileError {
    NotRequested,
    AlreadyUploaded,
    NotAuthenticated,
    ChunkAlreadyUploaded,
    ChunkOutOfRange,
    EncryptionFailed,
}

#[derive(Clone, Copy, Debug, PartialEq, Eq, Structural)]
pub enum FileSharingResponse {
    PendingError,
    PermissionError,
    EncryptionError,
    Success,
    NotAuthenticated,
    FileNotFound,
    FileNotUploaded,
    UserNotFound,
    InvalidInput,
}

pub struct UploadFileRequest {
    pub file_id: u64,
    pub file_content: Vec<u8>,
    pub file_type: String,
    pub num_chunks: u64,
}

pub struct UploadFileContinueRequest {
    pub file_id: u64,
    pub chunk_id: u64,
    pub contents: Vec<u8>,
}

// ---------------------------------------------------------------------------
// Spec views of the content state.
// ---------------------------------------------------------------------------

pub open spec fn content_num_chunks(c: FileContent) -> u64 {
    match c {
        FileContent::Pending { .. } => 0,
        FileContent::Uploaded { num_chunks, .. } => num_chunks,
        FileContent::PartiallyUploaded { num_chunks, .. } => num_chunks,
    }
}

pub open spec fn content_envelope(c: FileContent) -> Option<EncryptedFileData> {
    match c {
        FileContent::Pending { .. } => None,
        FileContent::Uploaded { encrypted_file_data, .. } => Some(encrypted_file_data),
        FileContent::PartiallyUploaded { encrypted_file_data, .. } => encrypted_file_data,
    }
}

/// The declared content type of the file, if the upload has begun.
pub open spec fn content_file_type(c: FileContent) -> Option<Seq<char>> {
    match c {
        FileContent::Pending { .. } => None,
        FileContent::Uploaded { file_type, .. } => Some(file_type@),
        FileContent::PartiallyUploaded { file_type, .. } => Some(file_type@),
    }
}

/// How a file's content state constrains the chunk store: a `Pending` file
/// has no chunks, an `Uploaded` file has exactly the chunks `0..num_chunks`,
/// and a `PartiallyUploaded` file has only chunks below `num_chunks` and not
/// all of them.
pub open spec fn content_chunks_ok(
    c: FileContent,
    chunks: Map<(u64, u64), Seq<u8>>,
    id: u64,
) -> bool {
    match c {
        FileContent::Pending { .. } => forall|cid: u64| !chunks.contains_key((id, cid)),
        FileContent::Uploaded { num_chunks, .. } => {
            &&& forall|cid: u64| #[trigger] chunks.contains_key((id, cid)) ==> cid < num_chunks
            &&& all_chunks_present(chunks, id, num_chunks)
        },
        FileContent::PartiallyUploaded { num_chunks, .. } => {
            &&& forall|cid: u64| #[trigger] chunks.contains_key((id, cid)) ==> cid < num_chunks
            &&& !all_chunks_present(chunks, id, num_chunks)
        },
    }
}

// ---------------------------------------------------------------------------
// The application state.
// ---------------------------------------------------------------------------

/// The whole mutable state of the store, built once by the host and passed by
/// reference into every operation.  The host serializes mutations, so each
/// operation sees and leaves a consistent snapshot.
pub struct State {
    /// How many file ids have been handed out; the next file gets this id.
    pub file_count: u64,
    /// File id to metadata and content state.
    pub file_data: BTreeMap<u64, File>,
    /// Raw chunk payloads, keyed by (file id, chunk index).
    pub file_contents: ChunkStore,
    /// Principal to the file ids it owns.
    pub file_owners: PrincipalMap<Vec<u64>>,
    /// Principal to the file ids shared with it.
    pub file_shares: PrincipalMap<Vec<u64>>,
    /// The identity directory: username to principal.
    pub username_to_principal: StringMap<PrincipalId>,
    /// Principal to its public profile.
    pub user_profiles: PrincipalMap<PublicUser>,
}

impl State {
    pub open spec fn spec_file_count(self) -> u64 {
        self.file_count
    }

    pub open spec fn files(self) -> Map<u64, File> {
        self.file_data@
    }

    pub open spec fn chunks(self) -> Map<(u64, u64), Seq<u8>> {
        self.file_contents@
    }

    /// The file ids owned by `p`, in insertion order.
    pub open spec fn owned_ids(self, p: Seq<u8>) -> Seq<u64> {
        self.file_owners.ids_of(p)
    }

    /// The file ids shared with `p`, in grant order.
    pub open spec fn shared_ids(self, p: Seq<u8>) -> Seq<u64> {
        self.file_shares.ids_of(p)
    }

    /// Every chunk belongs to a live file, and each file's chunks match its
    /// content state.
    pub open spec fn chunks_wf(self) -> bool {
        &&& forall|k: (u64, u64)| #[trigger]
            self.chunks().contains_key(k) ==> self.files().contains_key(k.0)
        &&& forall|id: u64| #[trigger]
            self.files().contains_key(id) ==> content_chunks_ok(
                self.files()[id].content,
                self.chunks(),
                id,
            )
    }

    /// The ownership index and the registry agree: a file id stands in a
    /// principal's owned list exactly when the file exists and names that
    /// principal as its requester.  Owned lists hold no duplicates, so a file
    /// id is owned by one principal at most, once.
    pub open spec fn owners_wf(self) -> bool {
        &&& self.file_owners.wf()
        &&& forall|p: Seq<u8>, id: u64| #[trigger]
            self.owned_ids(p).contains(id) ==> self.files().contains_key(id)
                && self.files()[id].metadata.requester_principal@ == p
        &&& forall|id: u64| #[trigger]
            self.files().contains_key(id) ==> self.owned_ids(
                self.files()[id].metadata.requester_principal@,
            ).contains(id)
        &&& forall|p: Seq<u8>| (#[trigger] self.owned_ids(p)).no_duplicates()
    }

    /// The sharing index and the envelopes agree: a file id stands in a
    /// principal's shared list exactly when the file exists, carries an
    /// envelope, and that envelope's shared set holds the principal.
    pub open spec fn shares_wf(self) -> bool {
        &&& self.file_shares.wf()
        &&& forall|p: Seq<u8>, id: u64| #[trigger]
            self.shared_ids(p).contains(id) ==> self.files().contains_key(id)
                && match content_envelope(self.files()[id].content) {
                Some(e) => principal_views(e.shared_with@).contains(p),
                None => false,
            }
        &&& forall|id: u64| #[trigger]
            self.files().contains_key(id) ==> match content_envelope(self.files()[id].content) {
                Some(e) => forall|j: int|
                    0 <= j < e.shared_with@.len() ==> self.shared_ids(e.shared_with@[j]@).contains(
                        id,
                    ),
                None => true,
            }
        &&& forall|p: Seq<u8>| (#[trigger] self.shared_ids(p)).no_duplicates()
    }

    /// Every envelope names the file's requester as its owner, and its shared
    /// set holds each principal at most once.
    pub open spec fn envelopes_wf(self) -> bool {
        forall|id: u64| #[trigger]
            self.files().contains_key(id) ==> match content_envelope(self.files()[id].content) {
                Some(e) => e.owner_principal@ == self.files()[id].metadata.requester_principal@
                    && principal_views(e.shared_with@).no_duplicates(),
                None => true,
            }
    }

    /// File ids are handed out by the counter and never reused.
    pub open spec fn ids_wf(self) -> bool {
        forall|id: u64| #[trigger] self.files().contains_key(id) ==> id < self.spec_file_count()
    }

    pub open spec fn directory_wf(self) -> bool {
        &&& self.username_to_principal.wf()
        &&& self.user_profiles.wf()
    }

    /// The invariant of the store, established at construction and preserved
    /// by every operation.
    pub open spec fn inv(self) -> bool {
        &&& self.chunks_wf()
        &&& self.owners_wf()
        &&& self.shares_wf()
        &&& self.envelopes_wf()
        &&& self.ids_wf()
        &&& self.directory_wf()
    }

    /// Hands out the next file id and advances the counter.
    pub(crate) fn generate_file_id(&mut self) -> (r: u64)
        requires
            old(self).spec_file_count() < u64::MAX,
        ensures
            r == old(self).spec_file_count(),
            final(self).spec_file_count() == old(self).spec_file_count() + 1,
            final(self).file_data == old(self).file_data,
            final(self).file_contents == old(self).file_contents,
            final(self).file_owners == old(self).file_owners,
            final(self).file_shares == old(self).file_shares,
            final(self).username_to_principal == old(self).username_to_principal,
            final(self).user_profiles == old(self).user_profiles,
    {
        let file_id = self.file_count;
        self.file_count += 1;
        file_id
    }

    /// The id the next successful registration or upload will be assigned.
    pub fn next_file_id(&self) -> (r: u64)
        ensures
            r == self.spec_file_count(),
    {
        self.file_count
    }

    fn new(_rand_seed: &[u8]) -> (r: State)
        ensures
            r.inv(),
            r.spec_file_count() == 0,
            forall|id: u64| !r.files().contains_key(id),
            forall|k: (u64, u64)| !r.chunks().contains_key(k),
            forall|p: Seq<u8>| r.owned_ids(p) == Seq::<u64>::empty(),
            forall|p: Seq<u8>| r.shared_ids(p) == Seq::<u64>::empty(),
            forall|name: Seq<char>| r.username_to_principal.spec_get(name) is None,
            forall|p: Seq<u8>| r.user_profiles.spec_get(p) is None,
    {
        let r = State {
            file_count: 0,
            file_data: BTreeMap::new(),
            file_contents: ChunkStore::new(),
            file_owners: PrincipalMap::new(),
            file_shares: PrincipalMap::new(),
            username_to_principal: StringMap::new(),
            user_profiles: PrincipalMap::new(),
        };
        r
    }
}

impl Default for State {
    fn default() -> (r: State)
        ensures
            r.inv(),
            r.spec_file_count() == 0,
            forall|id: u64| !r.files().contains_key(id),
            forall|k: (u64, u64)| !r.chunks().contains_key(k),
            forall|p: Seq<u8>| r.owned_ids(p) == Seq::<u64>::empty(),
            forall|p: Seq<u8>| r.shared_ids(p) == Seq::<u64>::empty(),
            forall|name: Seq<char>| r.username_to_principal.spec_get(name) is None,
            forall|p: Seq<u8>| r.user_profiles.spec_get(p) is None,
    {
        let seed: Vec<u8> = Vec::new();
        State::new(seed.as_slice())
    }
}

/// In every reachable state the content state and the chunk store agree: a
/// `Pending` file has no chunks; once an upload has begun, the stored chunk
/// indices all lie below `num_chunks`, and the state is `Uploaded` exactly
/// when every index below `num_chunks` is present.
pub proof fn lemma_uploaded_iff_chunks_complete(s: State, id: u64)
    requires
        s.inv(),
        s.files().contains_key(id),
    ensures
        s.files()[id].content is Pending ==> forall|cid: u64|
            !s.chunks().contains_key((id, cid)),
        !(s.files()[id].content is Pending) ==> forall|cid: u64| #[trigger]
            s.chunks().contains_key((id, cid)) ==> cid < content_num_chunks(
                s.files()[id].content,
            ),
        !(s.files()[id].content is Pending) ==> (s.files()[id].content is Uploaded
            <==> all_chunks_present(s.chunks(), id, content_num_chunks(s.files()[id].content))),
{
    assert(content_chunks_ok(s.files()[id].content, s.chunks(), id));
}

// ---------------------------------------------------------------------------
// The clock and small helpers.
// ---------------------------------------------------------------------------

/// The timestamp the library stamps into metadata.
pub open spec fn spec_get_time() -> u64 {
    12345
}

/// The deterministic timestamp source of the library; the host's real clock
/// stays at the boundary.
pub fn get_time() -> (t: u64)
    ensures
        t == spec_get_time(),
{
    12345
}

/// Ceiling of `dividend / divisor`: the number of fixed-size slots needed to
/// hold `dividend` items when each slot holds `divisor` of them.
pub open spec fn spec_ceil_division(dividend: int, divisor: int) -> int {
    if dividend % divisor == 0 {
        dividend / divisor
    } else {
        dividend / divisor + 1
    }
}

pub fn ceil_division(dividend: usize, divisor: usize) -> (r: usize)
    requires
        divisor > 0,
    ensures
        r == spec_ceil_division(dividend as int, divisor as int),
{
    if dividend % divisor == 0 {
        dividend / divisor
    } else {
        assert(divisor >= 2) by {
            if divisor == 1 {
                assert(dividend as int % 1 == 0);
            }
        };
        assert(dividend as int / divisor as int <= dividend as int / 2) by (nonlinear_arith)
            requires
                divisor >= 2,
        ;
        dividend / divisor + 1
    }
}

} // verus!
