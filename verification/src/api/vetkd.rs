use vstd::prelude::*;

use crate::principal::PrincipalId;
use crate::State;

verus! {

// Request shapes handed to the key-derivation gateway at the boundary.

#[derive(Clone, Debug)]
pub enum VetkdCurve {
    Bls12381G2,
}

#[derive(Clone, Debug)]
pub struct VetkdPublicKeyArgsKeyId {
    pub name: String,
    pub curve: VetkdCurve,
}

#[derive(Clone, Debug)]
pub struct VetkdDeriveEncryptedKeyArgsKeyId {
    pub name: String,
    pub curve: VetkdCurve,
}

/// The identity bytes a key-derivation request must be bound to: the file's
/// owner when a file id is named (so shared readers derive under the owner's
/// identity), the caller itself otherwise.  An unknown file id yields
/// nothing.
pub fn vetkd_derivation_principal(
    state: &State,
    caller: &PrincipalId,
    file_id: Option<u64>,
) -> (r: Option<Vec<u8>>)
    ensures
        match file_id {
            None => r is Some && r->0@ == caller@,
            Some(id) => {
                if state.files().contains_key(id) {
                    r is Some && r->0@ == state.files()[id].metadata.requester_principal@
                } else {
                    r is None
                }
            },
        },
{
    match file_id {
        None => {
            let p = caller.clone();
            let mut bytes: Vec<u8> = Vec::new();
            let src = p.as_bytes();
            let mut i: usize = 0;
            while i < src.len()
                invariant
                    i <= src@.len(),
                    bytes@ == src@.subrange(0, i as int),
                    src@ == caller@,
                decreases src@.len() - i,
            {
                bytes.push(src[i]);
                proof {
                    assert(bytes@ =~= src@.subrange(0, i + 1 as int));
                }
                i += 1;
            }
            proof {
                assert(bytes@ =~= caller@);
            }
            Some(bytes)
        },
        Some(id) => match state.file_data.get(&id) {
            None => None,
            Some(file) => {
                let p = file.metadata.requester_principal.clone();
                let src = p.as_bytes();
                let mut bytes: Vec<u8> = Vec::new();
                let mut i: usize = 0;
                while i < src.len()
                    invariant
                        i <= src@.len(),
                        bytes@ == src@.subrange(0, i as int),
                        src@ == state.files()[id].metadata.requester_principal@,
                    decreases src@.len() - i,
                {
                    bytes.push(src[i]);
                    proof {
                        assert(bytes@ =~= src@.subrange(0, i + 1 as int));
                    }
                    i += 1;
                }
                proof {
                    assert(bytes@ =~= state.files()[id].metadata.requester_principal@);
                }
                Some(bytes)
            },
        },
    }
}

} // verus!
