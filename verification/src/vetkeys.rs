use vstd::prelude::*;

use crate::principal::PrincipalId;

verus! {

// ---------------------------------------------------------------------------
// Wire shapes exchanged with the key-derivation gateway.
//
// The gateway itself is an external service; the calls to it live outside the
// library.  The library only defines the request/response payloads and the
// key material they carry, as plain values.
// ---------------------------------------------------------------------------

pub struct VetkdPublicKeyRequest {
    pub canister_id: Option<PrincipalId>,
    pub derivation_path: Vec<Vec<u8>>,
    pub key_id: VetkdSystemKeyId,
}

pub struct VetkdPublicKeyResponse {
    pub public_key: Vec<u8>,
}

pub struct VetkdDeriveKeyRequest {
    pub public_key_derivation_path: Vec<Vec<u8>>,
    pub key_id: VetkdSystemKeyId,
    pub encryption_public_key: Vec<u8>,
    pub derivation_id: Vec<u8>,
}

pub struct VetkdDeriveKeyResponse {
    pub derived_key: Vec<u8>,
}

#[derive(Clone, Debug)]
pub enum VetkdSystemKeyId {
    Bls12381G1,
}

pub struct VetKeyInfo {
    pub public_key: Vec<u8>,
    pub derived_key: Vec<u8>,
    pub encryption_key: Vec<u8>,
}

// ---------------------------------------------------------------------------
// The sealed envelope and its access-control metadata.
// ---------------------------------------------------------------------------

/// The key-derivation parameters an envelope was produced with: a derivation
/// identifier unique to the (file, owner) pair, the name of the gateway key,
/// and the ephemeral encryption public key used for transport.
#[derive(Clone, Debug, PartialEq)]
pub struct VetKeysConfig {
    pub derivation_id: Vec<u8>,
    pub key_name: String,
    pub encryption_public_key: Vec<u8>,
}

/// The sealed form of a file's bytes: the encrypted content, the owning
/// principal, the set of principals the file is shared with (each appears at
/// most once), and the derivation parameters used to seal it.
#[derive(Clone, Debug, PartialEq)]
pub struct EncryptedFileData {
    pub encrypted_content: Vec<u8>,
    pub owner_principal: PrincipalId,
    pub shared_with: Vec<PrincipalId>,
    pub vet_keys_config: VetKeysConfig,
}

#[derive(Clone, Copy, Debug, PartialEq, Eq, Structural)]
pub enum VetKeysError {
    PermissionDenied,
    EncryptionFailed,
    DecryptionFailed,
}

// ---------------------------------------------------------------------------
// Specification-level model of the cipher and the access-control set.
// ---------------------------------------------------------------------------

/// The stream cipher used to seal and unseal content: each byte of `data` is
/// combined with the key byte at the same position, the key repeating
/// cyclically.  An empty key yields an empty result.
pub open spec fn xor_bytes(data: Seq<u8>, key: Seq<u8>) -> Seq<u8> {
    if key.len() == 0 {
        Seq::empty()
    } else {
        Seq::new(data.len(), |i: int| data[i] ^ key[i % key.len() as int])
    }
}

/// The identity bytes of each principal in a list, in order.
pub open spec fn principal_views(s: Seq<PrincipalId>) -> Seq<Seq<u8>> {
    s.map(|i: int, p: PrincipalId| p@)
}

/// Whether `requester` may unseal the envelope: it is the owner, or it is in
/// the shared set.
pub open spec fn can_access(e: EncryptedFileData, requester: Seq<u8>) -> bool {
    ||| e.owner_principal@ == requester
    ||| principal_views(e.shared_with@).contains(requester)
}

/// The shared set after granting access to `p`: unchanged if `p` is already
/// present, extended by `p` at the end otherwise.
pub open spec fn grant_one(s: Seq<Seq<u8>>, p: Seq<u8>) -> Seq<Seq<u8>> {
    if s.contains(p) {
        s
    } else {
        s.push(p)
    }
}

/// The shared set after granting access to each principal of `ps` in order.
pub open spec fn grant_seq(s: Seq<Seq<u8>>, ps: Seq<Seq<u8>>) -> Seq<Seq<u8>>
    decreases ps.len(),
{
    if ps.len() == 0 {
        s
    } else {
        grant_one(grant_seq(s, ps.drop_last()), ps.last())
    }
}

/// The shared set after revoking access from `p`: every occurrence of `p` is
/// removed, the order of the rest is kept.
pub open spec fn remove_principal_views(s: Seq<Seq<u8>>, p: Seq<u8>) -> Seq<Seq<u8>>
    decreases s.len(),
{
    if s.len() == 0 {
        Seq::empty()
    } else {
        let rest = remove_principal_views(s.drop_last(), p);
        if s.last() == p {
            rest
        } else {
            rest.push(s.last())
        }
    }
}

/// The derivation identifier of a (file, owner) pair: the fixed-width byte
/// representation of the file id followed by the owner's identity bytes.
pub open spec fn spec_derivation_id(file_id: u64, owner: Seq<u8>) -> Seq<u8> {
    vstd::bytes::spec_u64_to_le_bytes(file_id) + owner
}

/// The name of the gateway key the manager derives under.
pub open spec fn spec_key_name() -> Seq<char> {
    "insecure_test_key_1"@
}

// ---------------------------------------------------------------------------
// Laws of the model.
// ---------------------------------------------------------------------------

/// Applying the cipher twice with the same non-empty key returns the
/// original data: unsealing a sealed envelope with the key material it was
/// sealed with yields the plaintext back.
pub proof fn lemma_xor_involution(data: Seq<u8>, key: Seq<u8>)
    requires
        key.len() > 0,
    ensures
        xor_bytes(xor_bytes(data, key), key) == data,
{
    let once = xor_bytes(data, key);
    let twice = xor_bytes(once, key);
    assert forall|i: int| 0 <= i < data.len() implies twice[i] == data[i] by {
        let k = key[i % key.len() as int];
        let d = data[i];
        assert((d ^ k) ^ k == d) by (bit_vector);
    }
    assert(twice =~= data);
}

/// An envelope sealed from `plaintext` with `key` can always be unsealed by
/// its owner, and unsealing it returns `plaintext` exactly.
pub proof fn lemma_seal_unseal_roundtrip(e: EncryptedFileData, plaintext: Seq<u8>, key: Seq<u8>)
    requires
        key.len() > 0,
        e.encrypted_content@ == xor_bytes(plaintext, key),
    ensures
        can_access(e, e.owner_principal@),
        xor_bytes(e.encrypted_content@, key) == plaintext,
{
    lemma_xor_involution(plaintext, key);
}

/// Granting access twice to the same principal is the same as granting it
/// once, and afterwards the principal stands in the shared set exactly once.
pub proof fn lemma_grant_idempotent(s: Seq<Seq<u8>>, p: Seq<u8>)
    requires
        s.no_duplicates(),
    ensures
        grant_one(grant_one(s, p), p) == grant_one(s, p),
        grant_one(s, p).contains(p),
        grant_one(s, p).no_duplicates(),
{
    if !s.contains(p) {
        let g = s.push(p);
        assert(g[g.len() - 1] == p);
        assert forall|i: int, j: int| 0 <= i < j < g.len() implies g[i] != g[j] by {
            if j < g.len() - 1 {
                assert(g[i] == s[i] && g[j] == s[j]);
            } else {
                assert(g[j] == p && g[i] == s[i]);
                assert(!s.contains(p));
            }
        }
    }
}

/// A principal is in the shared set after a series of grants exactly when
/// it was there before or is one of the granted principals.
pub proof fn lemma_grant_seq_contains(s: Seq<Seq<u8>>, ps: Seq<Seq<u8>>, q: Seq<u8>)
    ensures
        grant_seq(s, ps).contains(q) == (s.contains(q) || ps.contains(q)),
    decreases ps.len(),
{
    if ps.len() == 0 {
        assert(!ps.contains(q));
    } else {
        let d = ps.drop_last();
        lemma_grant_seq_contains(s, d, q);
        let g = grant_seq(s, d);
        let g1 = grant_one(g, ps.last());
        assert(g1.contains(q) == (g.contains(q) || q == ps.last())) by {
            if g.contains(ps.last()) {
                if q == ps.last() {
                    assert(g1.contains(q));
                }
            } else {
                let p = g.push(ps.last());
                if g.contains(q) {
                    let i = choose|i: int| 0 <= i < g.len() && g[i] == q;
                    assert(p[i] == q);
                    assert(p.contains(q));
                } else if q == ps.last() {
                    assert(p[p.len() - 1] == q);
                    assert(p.contains(q));
                } else {
                    assert forall|i: int| 0 <= i < p.len() implies p[i] != q by {
                        if i < g.len() {
                            assert(p[i] == g[i]);
                            assert(g.contains(g[i]) ==> !(g[i] == q));
                        }
                    }
                }
            }
        }
        assert(ps.contains(q) == (d.contains(q) || q == ps.last())) by {
            if ps.contains(q) {
                let i = choose|i: int| 0 <= i < ps.len() && ps[i] == q;
                if i < ps.len() - 1 {
                    assert(d[i] == q);
                    assert(d.contains(q));
                }
            }
            if d.contains(q) {
                let i = choose|i: int| 0 <= i < d.len() && d[i] == q;
                assert(ps[i] == q);
                assert(ps.contains(q));
            }
            if q == ps.last() {
                assert(ps.contains(q));
            }
        }
    }
}

/// A series of grants keeps the shared set free of duplicates.
pub proof fn lemma_grant_seq_no_dup(s: Seq<Seq<u8>>, ps: Seq<Seq<u8>>)
    requires
        s.no_duplicates(),
    ensures
        grant_seq(s, ps).no_duplicates(),
    decreases ps.len(),
{
    if ps.len() > 0 {
        lemma_grant_seq_no_dup(s, ps.drop_last());
        lemma_grant_idempotent(grant_seq(s, ps.drop_last()), ps.last());
    }
}

/// Revoking a principal that is not in the shared set leaves it unchanged.
pub proof fn lemma_revoke_absent(s: Seq<Seq<u8>>, p: Seq<u8>)
    requires
        !s.contains(p),
    ensures
        remove_principal_views(s, p) == s,
    decreases s.len(),
{
    if s.len() > 0 {
        assert forall|i: int| 0 <= i < s.drop_last().len() implies s.drop_last()[i] != p by {
            assert(s[i] == s.drop_last()[i]);
        }
        lemma_revoke_absent(s.drop_last(), p);
        assert(s.last() != p);
        assert(remove_principal_views(s, p) =~= s);
    } else {
        assert(remove_principal_views(s, p) =~= s);
    }
}

/// After revoking `p`, `p` is gone and every other principal's membership is
/// unchanged; revoking preserves the at-most-once property of the set.
pub proof fn lemma_revoke_removes(s: Seq<Seq<u8>>, p: Seq<u8>)
    ensures
        !remove_principal_views(s, p).contains(p),
        forall|q: Seq<u8>| q != p ==> remove_principal_views(s, p).contains(q) == s.contains(q),
        s.no_duplicates() ==> remove_principal_views(s, p).no_duplicates(),
    decreases s.len(),
{
    let r = remove_principal_views(s, p);
    if s.len() == 0 {
        assert forall|q: Seq<u8>| q != p implies r.contains(q) == s.contains(q) by {
            assert(!r.contains(q));
            assert(!s.contains(q));
        }
    } else {
        let d = s.drop_last();
        let rest = remove_principal_views(d, p);
        lemma_revoke_removes(d, p);
        if s.last() == p {
            assert(r == rest);
            assert forall|q: Seq<u8>| q != p implies r.contains(q) == s.contains(q) by {
                if s.contains(q) {
                    let i = choose|i: int| 0 <= i < s.len() && s[i] == q;
                    assert(i < s.len() - 1);
                    assert(d[i] == q);
                    assert(d.contains(q));
                } else {
                    assert forall|i: int| 0 <= i < d.len() implies d[i] != q by {
                        assert(s[i] == d[i]);
                    }
                    assert(!d.contains(q));
                }
            }
        } else {
            assert(r == rest.push(s.last()));
            assert forall|i: int| 0 <= i < r.len() implies r[i] != p by {
                if i < rest.len() {
                    assert(r[i] == rest[i]);
                    assert(rest.contains(rest[i]) ==> !(rest[i] == p));
                } else {
                    assert(r[i] == s.last());
                }
            }
            assert(!r.contains(p));
            assert forall|q: Seq<u8>| q != p implies r.contains(q) == s.contains(q) by {
                if r.contains(q) {
                    let i = choose|i: int| 0 <= i < r.len() && r[i] == q;
                    if i < rest.len() {
                        assert(rest.contains(q));
                        assert(d.contains(q));
                        let j = choose|j: int| 0 <= j < d.len() && d[j] == q;
                        assert(s[j] == q);
                    } else {
                        assert(s[s.len() - 1] == q);
                    }
                    assert(s.contains(q));
                } else {
                    if s.contains(q) {
                        let i = choose|i: int| 0 <= i < s.len() && s[i] == q;
                        if i < s.len() - 1 {
                            assert(d[i] == q);
                            assert(d.contains(q));
                            assert(rest.contains(q));
                            let j = choose|j: int| 0 <= j < rest.len() && rest[j] == q;
                            assert(r[j] == q);
                            assert(r.contains(q));
                        } else {
                            assert(r[r.len() - 1] == q);
                            assert(r.contains(q));
                        }
                        assert(false);
                    }
                }
            }
            if s.no_duplicates() {
                assert(d.no_duplicates()) by {
                    assert forall|i: int, j: int| 0 <= i < j < d.len() implies d[i] != d[j] by {
                        assert(s[i] == d[i] && s[j] == d[j]);
                    }
                }
                assert(!d.contains(s.last())) by {
                    if d.contains(s.last()) {
                        let i = choose|i: int| 0 <= i < d.len() && d[i] == s.last();
                        assert(s[i] == s[s.len() - 1]);
                        assert(false);
                    }
                }
                assert(!rest.contains(s.last()));
                assert forall|i: int, j: int| 0 <= i < j < r.len() implies r[i] != r[j] by {
                    if j < rest.len() {
                        assert(r[i] == rest[i] && r[j] == rest[j]);
                    } else {
                        assert(r[j] == s.last() && r[i] == rest[i]);
                        assert(rest.contains(rest[i]));
                    }
                }
            }
        }
    }
}

/// Distinct (file id, owner) pairs always get distinct derivation
/// identifiers: key derivation is collision-free across files and owners.
pub proof fn lemma_derivation_id_injective(f1: u64, o1: Seq<u8>, f2: u64, o2: Seq<u8>)
    requires
        spec_derivation_id(f1, o1) == spec_derivation_id(f2, o2),
    ensures
        f1 == f2,
        o1 == o2,
{
    vstd::bytes::lemma_auto_spec_u64_to_from_le_bytes();
    let b1 = vstd::bytes::spec_u64_to_le_bytes(f1);
    let b2 = vstd::bytes::spec_u64_to_le_bytes(f2);
    let d = spec_derivation_id(f1, o1);
    assert(b1 =~= d.subrange(0, 8)) by {
        assert(forall|i: int| 0 <= i < 8 ==> d[i] == b1[i]);
    }
    assert(b2 =~= d.subrange(0, 8)) by {
        assert(forall|i: int| 0 <= i < 8 ==> d[i] == b2[i]);
    }
    assert(vstd::bytes::spec_u64_from_le_bytes(b1) == vstd::bytes::spec_u64_from_le_bytes(b2));
    assert(o1 =~= o2) by {
        assert(o1.len() == d.len() - 8 && o2.len() == d.len() - 8);
        assert(forall|i: int| 0 <= i < o1.len() ==> o1[i] == d[i + 8] && o2[i] == d[i + 8]);
    }
}

// ---------------------------------------------------------------------------
// Executable cipher.
// ---------------------------------------------------------------------------

pub struct VetKeyService;

impl VetKeyService {
    /// Applies the repeating-key cipher to `data`.
    pub fn xor_encrypt(data: &[u8], key: &[u8]) -> (r: Vec<u8>)
        ensures
            r@ == xor_bytes(data@, key@),
    {
        let mut out: Vec<u8> = Vec::new();
        if key.len() == 0 {
            proof {
                assert(out@ =~= xor_bytes(data@, key@));
            }
            return out;
        }
        let mut i: usize = 0;
        while i < data.len()
            invariant
                key.len() > 0,
                i <= data.len(),
                out@.len() == i,
                forall|j: int| 0 <= j < i ==> out@[j] == data@[j] ^ key@[j % key@.len() as int],
            decreases data.len() - i,
        {
            out.push(data[i] ^ key[i % key.len()]);
            i += 1;
        }
        proof {
            assert(out@ =~= xor_bytes(data@, key@));
        }
        out
    }

    /// The cipher is symmetric, so decryption is one more application.
    pub fn xor_decrypt(data: &[u8], key: &[u8]) -> (r: Vec<u8>)
        ensures
            r@ == xor_bytes(data@, key@),
    {
        Self::xor_encrypt(data, key)
    }
}

/// The fixed-width byte representation of `file_id` followed by the owner's
/// identity bytes; distinct (file, owner) pairs give distinct results.
pub fn derivation_id_for(file_id: u64, owner: &PrincipalId) -> (r: Vec<u8>)
    ensures
        r@ == spec_derivation_id(file_id, owner@),
{
    let mut r = vstd::bytes::u64_to_le_bytes(file_id);
    let bytes = owner.as_bytes();
    let mut i: usize = 0;
    while i < bytes.len()
        invariant
            i <= bytes.len(),
            r@ == vstd::bytes::spec_u64_to_le_bytes(file_id) + bytes@.subrange(0, i as int),
        decreases bytes.len() - i,
    {
        r.push(bytes[i]);
        proof {
            assert(r@ =~= vstd::bytes::spec_u64_to_le_bytes(file_id) + bytes@.subrange(
                0,
                i + 1 as int,
            ));
        }
        i += 1;
    }
    proof {
        assert(bytes@.subrange(0, bytes@.len() as int) =~= bytes@);
    }
    r
}

// ---------------------------------------------------------------------------
// The encryption manager.
// ---------------------------------------------------------------------------

/// Seals plaintext into envelopes, unseals them for authorized readers, and
/// mutates the shared-principal set of an envelope on the owner's demand.
///
/// The manager itself never talks to the key-derivation gateway: the caller
/// fetches the key material for an envelope's derivation identifier at the
/// boundary and hands it in, and every operation here is a total function of
/// its arguments.
pub struct VetKeysManager {
    pub key_name: String,
}

impl VetKeysManager {
    pub fn new() -> (r: VetKeysManager)
        ensures
            r.key_name@ == spec_key_name(),
    {
        VetKeysManager { key_name: "insecure_test_key_1".to_owned() }
    }

    /// Seals `plaintext` for `owner`, shared with `shared_with`, using the
    /// key material the gateway returned for this (file, owner) pair.  Empty
    /// key material means the gateway failed; nothing is produced then.
    pub fn seal_file(
        &self,
        plaintext: &Vec<u8>,
        file_id: u64,
        owner: &PrincipalId,
        shared_with: Vec<PrincipalId>,
        key_material: &Vec<u8>,
    ) -> (r: Result<EncryptedFileData, VetKeysError>)
        ensures
            key_material@.len() == 0 <==> r == Err::<EncryptedFileData, VetKeysError>(
                VetKeysError::EncryptionFailed,
            ),
            key_material@.len() > 0 ==> r is Ok && {
                let e = r->Ok_0;
                &&& e.encrypted_content@ == xor_bytes(plaintext@, key_material@)
                &&& e.owner_principal@ == owner@
                &&& e.shared_with == shared_with
                &&& e.vet_keys_config.derivation_id@ == spec_derivation_id(file_id, owner@)
                &&& e.vet_keys_config.key_name@ == self.key_name@
                &&& e.vet_keys_config.encryption_public_key@ == Seq::<u8>::empty()
            },
    {
        if key_material.len() == 0 {
            return Err(VetKeysError::EncryptionFailed);
        }
        let encrypted_content = VetKeyService::xor_encrypt(plaintext.as_slice(), key_material.as_slice());
        let config = VetKeysConfig {
            derivation_id: derivation_id_for(file_id, owner),
            key_name: self.key_name.clone(),
            encryption_public_key: Vec::new(),
        };
        Ok(
            EncryptedFileData {
                encrypted_content,
                owner_principal: owner.clone(),
                shared_with,
                vet_keys_config: config,
            },
        )
    }

    /// Unseals an envelope for `requester`.  The access check comes first,
    /// before any cryptographic work: a requester that is neither the owner
    /// nor in the shared set is refused whatever key material it brings.
    /// Empty key material means the gateway failed.
    pub fn decrypt_file(
        &self,
        envelope: &EncryptedFileData,
        requester: &PrincipalId,
        key_material: &Vec<u8>,
    ) -> (r: Result<Vec<u8>, VetKeysError>)
        ensures
            !can_access(*envelope, requester@) ==> r == Err::<Vec<u8>, VetKeysError>(
                VetKeysError::PermissionDenied,
            ),
            can_access(*envelope, requester@) && key_material@.len() == 0 ==> r == Err::<
                Vec<u8>,
                VetKeysError,
            >(VetKeysError::DecryptionFailed),
            can_access(*envelope, requester@) && key_material@.len() > 0 ==> r is Ok
                && r->Ok_0@ == xor_bytes(envelope.encrypted_content@, key_material@),
    {
        let allowed = if requester.eq(&envelope.owner_principal) {
            true
        } else {
            contains_principal(&envelope.shared_with, requester)
        };
        if !allowed {
            return Err(VetKeysError::PermissionDenied);
        }
        if key_material.len() == 0 {
            return Err(VetKeysError::DecryptionFailed);
        }
        Ok(
            VetKeyService::xor_decrypt(
                envelope.encrypted_content.as_slice(),
                key_material.as_slice(),
            ),
        )
    }

    /// Extends the envelope's shared set with each of `new_principals`, in
    /// order, skipping those already present.  Only the owner may do this;
    /// anyone else is refused and the envelope is untouched.
    pub fn share_file(
        &self,
        envelope: &mut EncryptedFileData,
        new_principals: &Vec<PrincipalId>,
        caller: &PrincipalId,
    ) -> (r: Result<(), VetKeysError>)
        ensures
            caller@ != old(envelope).owner_principal@ ==> r == Err::<(), VetKeysError>(
                VetKeysError::PermissionDenied,
            ) && *final(envelope) == *old(envelope),
            caller@ == old(envelope).owner_principal@ ==> r == Ok::<(), VetKeysError>(()) && {
                &&& principal_views(final(envelope).shared_with@) == grant_seq(
                    principal_views(old(envelope).shared_with@),
                    principal_views(new_principals@),
                )
                &&& final(envelope).encrypted_content == old(envelope).encrypted_content
                &&& final(envelope).owner_principal == old(envelope).owner_principal
                &&& final(envelope).vet_keys_config == old(envelope).vet_keys_config
            },
    {
        if !caller.eq(&envelope.owner_principal) {
            return Err(VetKeysError::PermissionDenied);
        }
        let ghost orig: Seq<Seq<u8>> = principal_views(envelope.shared_with@);
        let ghost ps: Seq<Seq<u8>> = principal_views(new_principals@);
        let mut i: usize = 0;
        while i < new_principals.len()
            invariant
                i <= new_principals.len(),
                ps == principal_views(new_principals@),
                ps.len() == new_principals@.len(),
                principal_views(envelope.shared_with@) == grant_seq(orig, ps.subrange(0, i as int)),
                envelope.encrypted_content == old(envelope).encrypted_content,
                envelope.owner_principal == old(envelope).owner_principal,
                envelope.vet_keys_config == old(envelope).vet_keys_config,
            decreases new_principals.len() - i,
        {
            let ghost before: Seq<Seq<u8>> = principal_views(envelope.shared_with@);
            let p = &new_principals[i];
            if !contains_principal(&envelope.shared_with, p) {
                envelope.shared_with.push(p.clone());
                proof {
                    assert(principal_views(envelope.shared_with@) =~= before.push(p@));
                }
            }
            proof {
                assert(principal_views(envelope.shared_with@) == grant_one(before, ps[i as int]));
                assert(ps.subrange(0, i + 1 as int).drop_last() =~= ps.subrange(0, i as int));
                assert(ps.subrange(0, i + 1 as int).last() == ps[i as int]);
            }
            i += 1;
        }
        proof {
            assert(ps.subrange(0, ps.len() as int) =~= ps);
        }
        Ok(())
    }

    /// Removes each of `principals` from the envelope's shared set.  Only the
    /// owner may do this.  Removing a principal that is not in the set is a
    /// no-op, not an error.
    pub fn unshare_file(
        &self,
        envelope: &mut EncryptedFileData,
        principals: &Vec<PrincipalId>,
        caller: &PrincipalId,
    ) -> (r: Result<(), VetKeysError>)
        ensures
            caller@ != old(envelope).owner_principal@ ==> r == Err::<(), VetKeysError>(
                VetKeysError::PermissionDenied,
            ) && *final(envelope) == *old(envelope),
            caller@ == old(envelope).owner_principal@ ==> r == Ok::<(), VetKeysError>(()) && {
                &&& principal_views(final(envelope).shared_with@) == revoke_seq(
                    principal_views(old(envelope).shared_with@),
                    principal_views(principals@),
                )
                &&& final(envelope).encrypted_content == old(envelope).encrypted_content
                &&& final(envelope).owner_principal == old(envelope).owner_principal
                &&& final(envelope).vet_keys_config == old(envelope).vet_keys_config
            },
    {
        if !caller.eq(&envelope.owner_principal) {
            return Err(VetKeysError::PermissionDenied);
        }
        let ghost orig: Seq<Seq<u8>> = principal_views(envelope.shared_with@);
        let ghost ps: Seq<Seq<u8>> = principal_views(principals@);
        let mut i: usize = 0;
        while i < principals.len()
            invariant
                i <= principals.len(),
                ps == principal_views(principals@),
                ps.len() == principals@.len(),
                principal_views(envelope.shared_with@) == revoke_seq(orig, ps.subrange(0, i as int)),
                envelope.encrypted_content == old(envelope).encrypted_content,
                envelope.owner_principal == old(envelope).owner_principal,
                envelope.vet_keys_config == old(envelope).vet_keys_config,
            decreases principals.len() - i,
        {
            let ghost before: Seq<Seq<u8>> = principal_views(envelope.shared_with@);
            remove_principal(&mut envelope.shared_with, &principals[i]);
            proof {
                assert(ps.subrange(0, i + 1 as int).drop_last() =~= ps.subrange(0, i as int));
                assert(ps.subrange(0, i + 1 as int).last() == ps[i as int]);
            }
            i += 1;
        }
        proof {
            assert(ps.subrange(0, ps.len() as int) =~= ps);
        }
        Ok(())
    }
}

/// The shared set after revoking each principal of `ps` in order.
pub open spec fn revoke_seq(s: Seq<Seq<u8>>, ps: Seq<Seq<u8>>) -> Seq<Seq<u8>>
    decreases ps.len(),
{
    if ps.len() == 0 {
        s
    } else {
        remove_principal_views(revoke_seq(s, ps.drop_last()), ps.last())
    }
}

/// Whether `p`'s identity bytes occur in `v`.
pub fn contains_principal(v: &Vec<PrincipalId>, p: &PrincipalId) -> (r: bool)
    ensures
        r == principal_views(v@).contains(p@),
{
    let mut i: usize = 0;
    while i < v.len()
        invariant
            i <= v.len(),
            forall|j: int| 0 <= j < i ==> v@[j]@ != p@,
        decreases v.len() - i,
    {
        if v[i].eq(p) {
            proof {
                assert(principal_views(v@)[i as int] == p@);
            }
            return true;
        }
        i += 1;
    }
    proof {
        assert forall|j: int| 0 <= j < principal_views(v@).len() implies principal_views(v@)[j]
            != p@ by {
            assert(v@[j]@ != p@);
        }
    }
    false
}

/// Removes every occurrence of `p` from `v`, keeping the order of the rest.
pub(crate) fn remove_principal(v: &mut Vec<PrincipalId>, p: &PrincipalId)
    ensures
        principal_views(final(v)@) == remove_principal_views(principal_views(old(v)@), p@),
{
    let ghost orig: Seq<Seq<u8>> = principal_views(old(v)@);
    let mut out: Vec<PrincipalId> = Vec::new();
    let mut i: usize = 0;
    while i < v.len()
        invariant
            i <= v.len(),
            v@ == old(v)@,
            orig == principal_views(old(v)@),
            orig.len() == v@.len(),
            principal_views(out@) == remove_principal_views(orig.subrange(0, i as int), p@),
        decreases v.len() - i,
    {
        let ghost before: Seq<Seq<u8>> = principal_views(out@);
        if !v[i].eq(p) {
            let item = v[i].clone();
            out.push(item);
            proof {
                assert(principal_views(out@) =~= before.push(orig[i as int]));
            }
        }
        proof {
            assert(orig.subrange(0, i + 1 as int).drop_last() =~= orig.subrange(0, i as int));
            assert(orig.subrange(0, i + 1 as int).last() == orig[i as int]);
        }
        i += 1;
    }
    proof {
        assert(orig.subrange(0, orig.len() as int) =~= orig);
    }
    *v = out;
}

} // verus!
