//! Telegram's authorization key.
//!
//! This library does not provide the means to generate a valid key,
//! because doing so relies on (de-)serializing Telegram types.  It only
//! derives the key's identity values — two 8-byte digests of the key —
//! and the handshake's new-nonce hash.

use sha1::{Digest, Sha1};
use vstd::prelude::*;

verus! {

/// The SHA-1 digest of a byte sequence, a function of the bytes alone.
pub uninterp spec fn sha1_of(data: Seq<u8>) -> Seq<u8>;

/// Relies on `sha1::Sha1` through the `Digest` interface: the SHA-1
/// digest of the bytes, 20 bytes long as the result type shows.
#[verifier::external_body]
fn sha1_digest(data: &Vec<u8>) -> (r: [u8; 20])
    ensures
        r@ == sha1_of(data@),
{
    let mut hasher = Sha1::new();
    hasher.update(data.as_slice());
    hasher.finalize().into()
}

/// An authorization key: 256 secret bytes plus the two 8-byte values
/// derived from its digest.  Equality and identity go solely by `id`.
#[derive(Clone, Eq)]
pub struct AuthKey {
    /// The raw key bytes.
    pub data: [u8; 256],
    /// Bytes 0 to 8 of the key's SHA-1 digest, used in the handshake.
    pub aux_hash: [u8; 8],
    /// Bytes 12 to 20 of the key's SHA-1 digest: the key's identity.
    pub id: [u8; 8],
}

impl PartialEq for AuthKey {
    fn eq(&self, other: &Self) -> (r: bool) {
        let mut i: usize = 0;
        while i < 8
            invariant
                i <= 8,
                forall|j: int| 0 <= j < i ==> self.id@[j] == other.id@[j],
            decreases 8 - i,
        {
            if self.id[i] != other.id[i] {
                return false;
            }
            i = i + 1;
        }
        proof {
            assert(self.id@ =~= other.id@);
        }
        true
    }
}

impl vstd::std_specs::cmp::PartialEqSpecImpl for AuthKey {
    open spec fn obeys_eq_spec() -> bool {
        true
    }

    open spec fn eq_spec(&self, other: &AuthKey) -> bool {
        self.id@ == other.id@
    }
}

impl AuthKey {
    /// Whether the derived fields are the ones the key's digest gives.
    pub open spec fn wf(self) -> bool {
        &&& self.aux_hash@ == sha1_of(self.data@).subrange(0, 8)
        &&& self.id@ == sha1_of(self.data@).subrange(12, 20)
    }

    /// Creates a new authorization key and derives its identity values.
    pub fn from_bytes(data: [u8; 256]) -> (r: AuthKey)
        ensures
            r.data == data,
            r.wf(),
    {
        let mut dv: Vec<u8> = Vec::new();
        dv.extend_from_slice(data.as_slice());
        proof {
            assert(dv@ =~= data@);
        }
        let sha = sha1_digest(&dv);
        let mut aux_hash: [u8; 8] = [0; 8];
        let mut id: [u8; 8] = [0; 8];
        let mut i: usize = 0;
        while i < 8
            invariant
                i <= 8,
                sha@ == sha1_of(data@),
                forall|j: int| 0 <= j < i ==> aux_hash@[j] == sha@[j],
                forall|j: int| 0 <= j < i ==> id@[j] == sha@[12 + j],
            decreases 8 - i,
        {
            aux_hash[i] = sha[i];
            id[i] = sha[12 + i];
            i = i + 1;
        }
        proof {
            assert(aux_hash@ =~= sha1_of(data@).subrange(0, 8));
            assert(id@ =~= sha1_of(data@).subrange(12, 20));
        }
        AuthKey { data, aux_hash, id }
    }

    /// Returns a shared reference to the underlying data.
    pub fn as_bytes(&self) -> (r: &[u8; 256])
        ensures
            r == self.data,
    {
        &self.data
    }

    /// Consumes the `AuthKey`, returning the underlying data.
    pub fn into_bytes(self) -> (r: [u8; 256])
        ensures
            r == self.data,
    {
        self.data
    }

    /// The 64 lower-order bits of the SHA-1 hash of the authorization key.
    pub fn id(&self) -> (r: &[u8; 8])
        ensures
            r == self.id,
    {
        &self.id
    }

    /// Calculates the new nonce hash based on the current attributes:
    /// bytes 4 to 20 of the digest of the nonce, the round number and
    /// the key's auxiliary hash.
    pub fn calc_new_nonce_hash(&self, new_nonce: &[u8; 32], number: u8) -> (r: [u8; 16])
        ensures
            r@ == sha1_of(new_nonce@ + seq![number] + self.aux_hash@).subrange(4, 20),
    {
        let mut buffer: Vec<u8> = Vec::new();
        buffer.extend_from_slice(new_nonce.as_slice());
        buffer.push(number);
        buffer.extend_from_slice(self.aux_hash.as_slice());
        proof {
            assert(buffer@ =~= new_nonce@ + seq![number] + self.aux_hash@);
        }
        let sha = sha1_digest(&buffer);
        let mut out: [u8; 16] = [0; 16];
        let mut i: usize = 0;
        while i < 16
            invariant
                i <= 16,
                sha@ == sha1_of(new_nonce@ + seq![number] + self.aux_hash@),
                forall|j: int| 0 <= j < i ==> out@[j] == sha@[4 + j],
            decreases 16 - i,
        {
            out[i] = sha[4 + i];
            i = i + 1;
        }
        proof {
            assert(out@ =~= sha1_of(new_nonce@ + seq![number] + self.aux_hash@).subrange(4, 20));
        }
        out
    }
}

} // verus!
