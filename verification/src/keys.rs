//! Value types for the cryptographic key material that the registry
//! carries.  The registry never interprets key bytes; the cryptographic
//! collaborator produces and consumes them.  Each kind of key has the fixed
//! size of the underlying primitive.

use vstd::prelude::*;

verus! {

/// Size in bytes of a public messaging-encryption key.
pub const PUBLICKEYBYTES: usize = 32;

/// Size in bytes of a secret messaging-encryption key.
pub const SECRETKEYBYTES: usize = 32;

/// Size in bytes of a public signing key.
pub const SIGNPUBLICKEYBYTES: usize = 32;

/// Public half of a messaging-encryption keypair.
#[derive(Debug, PartialEq, Eq)]
pub struct PublicKey(pub Vec<u8>);

/// Secret half of a messaging-encryption keypair.  It never leaves the
/// registrant's own configuration.
#[derive(Debug, PartialEq, Eq)]
pub struct SecretKey(pub Vec<u8>);

/// Public signing key of a record owner.
#[derive(Debug, PartialEq, Eq)]
pub struct SignPublicKey(pub Vec<u8>);

impl View for PublicKey {
    type V = Seq<u8>;

    open spec fn view(&self) -> Seq<u8> {
        self.0@
    }
}

impl View for SecretKey {
    type V = Seq<u8>;

    open spec fn view(&self) -> Seq<u8> {
        self.0@
    }
}

impl View for SignPublicKey {
    type V = Seq<u8>;

    open spec fn view(&self) -> Seq<u8> {
        self.0@
    }
}

impl DeepView for PublicKey {
    type V = Seq<u8>;

    open spec fn deep_view(&self) -> Seq<u8> {
        self@
    }
}

impl DeepView for SecretKey {
    type V = Seq<u8>;

    open spec fn deep_view(&self) -> Seq<u8> {
        self@
    }
}

impl DeepView for SignPublicKey {
    type V = Seq<u8>;

    open spec fn deep_view(&self) -> Seq<u8> {
        self@
    }
}

impl PublicKey {
    /// The key has the size of the underlying primitive.
    pub open spec fn wf(&self) -> bool {
        self@.len() == PUBLICKEYBYTES
    }
}

impl SecretKey {
    /// The key has the size of the underlying primitive.
    pub open spec fn wf(&self) -> bool {
        self@.len() == SECRETKEYBYTES
    }
}

impl SignPublicKey {
    /// The key has the size of the underlying primitive.
    pub open spec fn wf(&self) -> bool {
        self@.len() == SIGNPUBLICKEYBYTES
    }
}

impl Clone for PublicKey {
    fn clone(&self) -> (r: Self)
        ensures
            r@ == self@,
    {
        PublicKey(clone_bytes(&self.0))
    }
}

impl Clone for SecretKey {
    fn clone(&self) -> (r: Self)
        ensures
            r@ == self@,
    {
        SecretKey(clone_bytes(&self.0))
    }
}

impl Clone for SignPublicKey {
    fn clone(&self) -> (r: Self)
        ensures
            r@ == self@,
    {
        SignPublicKey(clone_bytes(&self.0))
    }
}

/// Copies a byte vector.
pub fn clone_bytes(v: &Vec<u8>) -> (r: Vec<u8>)
    ensures
        r@ == v@,
{
    vstd::slice::slice_to_vec(v.as_slice())
}

/// Copies a vector of signing keys.
pub fn clone_sign_keys(v: &Vec<SignPublicKey>) -> (r: Vec<SignPublicKey>)
    ensures
        r.deep_view() == v.deep_view(),
{
    let mut out: Vec<SignPublicKey> = Vec::new();
    let mut i: usize = 0;
    while i < v.len()
        invariant
            i <= v.len(),
            out.len() == i,
            forall|j: int| 0 <= j < i ==> out.deep_view()[j] == v.deep_view()[j],
        decreases v.len() - i,
    {
        out.push(v[i].clone());
        i = i + 1;
    }
    proof {
        assert(out.deep_view() =~= v.deep_view());
    }
    out
}

} // verus!
