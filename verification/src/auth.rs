//! The authorization gate, run before every mutation, and the choice of
//! who becomes a record's owner at creation.

use vstd::prelude::*;

verus! {

use crate::error::Error;
use crate::records::Identity;

/// Who becomes the owner of a freshly created record.
#[derive(Clone, Copy, Debug, PartialEq, Eq, Structural)]
pub enum CreateMode {
    /// The caller funds the record and owns it itself.
    SelfService,
    /// A distinguished issuing identity becomes the owner; other parties
    /// interact with the record later under their own identities.
    AdminIssued,
}

/// The identity that a creation under the given mode records as owner.
pub open spec fn creation_owner_of(mode: CreateMode, caller: Seq<u8>, issuer: Seq<u8>) -> Seq<u8> {
    match mode {
        CreateMode::SelfService => caller,
        CreateMode::AdminIssued => issuer,
    }
}

/// Picks the owner of a record created under `mode`: the caller itself in
/// self-service deployments, the issuing identity in admin-issued ones.
pub fn creation_owner(mode: CreateMode, caller: &Identity, issuer: &Identity) -> (r: Identity)
    ensures
        r@ == creation_owner_of(mode, caller@, issuer@),
{
    match mode {
        CreateMode::SelfService => caller.clone(),
        CreateMode::AdminIssued => issuer.clone(),
    }
}

/// Compares two byte vectors.
pub fn bytes_eq(a: &Vec<u8>, b: &Vec<u8>) -> (r: bool)
    ensures
        r == (a@ == b@),
{
    if a.len() != b.len() {
        return false;
    }
    let mut i: usize = 0;
    while i < a.len()
        invariant
            a@.len() == b@.len(),
            i <= a@.len(),
            forall|j: int| 0 <= j < i ==> a@[j] == b@[j],
        decreases a@.len() - i,
    {
        if a[i] != b[i] {
            return false;
        }
        i = i + 1;
    }
    proof {
        assert(a@ =~= b@);
    }
    true
}

/// Compares two identities.
pub fn identity_eq(a: &Identity, b: &Identity) -> (r: bool)
    ensures
        r == (a@ == b@),
{
    bytes_eq(&a.bytes, &b.bytes)
}

/// The authorization gate: permits a mutation exactly when the caller's
/// proven identity is the record's recorded owner.  Verifying the proof
/// itself (signatures, credentials) is the host runtime's job; this gate
/// compares the already-validated identity against the stored owner.
pub fn authorize(caller_proof: &Identity, record_owner: &Identity) -> (r: Result<(), Error>)
    ensures
        r == (if caller_proof@ == record_owner@ {
            Ok::<(), Error>(())
        } else {
            Err::<(), Error>(Error::Unauthorized)
        }),
{
    if identity_eq(caller_proof, record_owner) {
        Ok(())
    } else {
        Err(Error::Unauthorized)
    }
}

} // verus!
