//! Value types exchanged with the storage collaborators: the key of a
//! stored directory (where a service points), and the versioned, owner-bound
//! record that houses a published name.  The registry treats both as plain
//! values; fetching, signing and publishing them is the collaborators' work.

use vstd::prelude::*;
use crate::codec::{
    dec_bool, dec_bytes, dec_u64, enc_bool, enc_bytes, enc_u64, lemma_dec_enc_bool,
    lemma_dec_enc_bytes, lemma_dec_enc_u64, lemma_enc_dec_bool, lemma_enc_dec_bytes,
    lemma_enc_dec_u64, put_bool, put_bytes, put_u64, read_bool, read_bytes, read_u64,
};
use crate::keys::{clone_bytes, clone_sign_keys, SignPublicKey};

verus! {

/// Visibility of a stored directory.
#[derive(Clone, Copy, Debug, PartialEq, Eq, Structural)]
pub enum AccessLevel {
    /// Readable by its owner only.
    Private,
    /// Readable by everyone.
    Public,
}

/// Mathematical value of a [`DirectoryKey`].
pub struct DirectoryKeyV {
    /// Storage address of the directory.
    pub id: Seq<u8>,
    /// Type tag under which the directory is stored.
    pub type_tag: u64,
    /// Whether the directory keeps version history.
    pub versioned: bool,
    /// Visibility of the directory.
    pub access_level: AccessLevel,
}

/// Location of a stored directory: the opaque handle a service resolves to.
/// The registry never interprets its fields.
#[derive(Debug, PartialEq, Eq)]
pub struct DirectoryKey {
    id: Vec<u8>,
    type_tag: u64,
    versioned: bool,
    access_level: AccessLevel,
}

impl View for DirectoryKey {
    type V = DirectoryKeyV;

    closed spec fn view(&self) -> DirectoryKeyV {
        DirectoryKeyV {
            id: self.id@,
            type_tag: self.type_tag,
            versioned: self.versioned,
            access_level: self.access_level,
        }
    }
}

impl DeepView for DirectoryKey {
    type V = DirectoryKeyV;

    open spec fn deep_view(&self) -> DirectoryKeyV {
        self@
    }
}

impl Clone for DirectoryKey {
    fn clone(&self) -> (r: Self)
        ensures
            r@ == self@,
    {
        DirectoryKey {
            id: clone_bytes(&self.id),
            type_tag: self.type_tag,
            versioned: self.versioned,
            access_level: self.access_level,
        }
    }
}

impl DirectoryKey {
    /// Builds the location of a stored directory from its parts.
    pub fn new(id: Vec<u8>, type_tag: u64, versioned: bool, access_level: AccessLevel) -> (r:
        DirectoryKey)
        ensures
            r@ == (DirectoryKeyV { id: id@, type_tag, versioned, access_level }),
    {
        DirectoryKey { id, type_tag, versioned, access_level }
    }

    /// Storage address of the directory.
    pub fn get_id(&self) -> (r: &Vec<u8>)
        ensures
            r@ == self@.id,
    {
        &self.id
    }

    /// Type tag under which the directory is stored.
    pub fn get_type_tag(&self) -> (r: u64)
        ensures
            r == self@.type_tag,
    {
        self.type_tag
    }

    /// Whether the directory keeps version history.
    pub fn is_versioned(&self) -> (r: bool)
        ensures
            r == self@.versioned,
    {
        self.versioned
    }

    /// Visibility of the directory.
    pub fn get_access_level(&self) -> (r: AccessLevel)
        ensures
            r == self@.access_level,
    {
        self.access_level
    }
}

/// Encoding of a directory location: address, tag, the two flags.
pub open spec fn enc_dir_key(k: DirectoryKeyV) -> Seq<u8> {
    enc_bytes(k.id) + enc_u64(k.type_tag) + enc_bool(k.versioned) + enc_bool(
        k.access_level == AccessLevel::Public,
    )
}

/// Decoding of a directory location from a prefix.
pub open spec fn dec_dir_key(b: Seq<u8>) -> Option<(DirectoryKeyV, Seq<u8>)> {
    match dec_bytes(b) {
        None => None,
        Some((id, b1)) => match dec_u64(b1) {
            None => None,
            Some((type_tag, b2)) => match dec_bool(b2) {
                None => None,
                Some((versioned, b3)) => match dec_bool(b3) {
                    None => None,
                    Some((public, b4)) => Some(
                        (
                            DirectoryKeyV {
                                id,
                                type_tag,
                                versioned,
                                access_level: if public {
                                    AccessLevel::Public
                                } else {
                                    AccessLevel::Private
                                },
                            },
                            b4,
                        ),
                    ),
                },
            },
        },
    }
}

/// A directory location followed by anything decodes to it and the rest.
pub proof fn lemma_dec_enc_dir_key(k: DirectoryKeyV, rest: Seq<u8>)
    requires
        k.id.len() <= u64::MAX,
    ensures
        dec_dir_key(enc_dir_key(k) + rest) == Some((k, rest)),
{
    let public = k.access_level == AccessLevel::Public;
    let t1 = enc_u64(k.type_tag) + (enc_bool(k.versioned) + (enc_bool(public) + rest));
    assert(enc_dir_key(k) + rest =~= enc_bytes(k.id) + t1);
    lemma_dec_enc_bytes(k.id, t1);
    lemma_dec_enc_u64(k.type_tag, enc_bool(k.versioned) + (enc_bool(public) + rest));
    lemma_dec_enc_bool(k.versioned, enc_bool(public) + rest);
    lemma_dec_enc_bool(public, rest);
}

/// What a directory-location decoder consumed was the encoding of its result.
pub proof fn lemma_enc_dec_dir_key(b: Seq<u8>)
    requires
        dec_dir_key(b) is Some,
    ensures
        enc_dir_key(dec_dir_key(b)->Some_0.0) + dec_dir_key(b)->Some_0.1 == b,
        dec_dir_key(b)->Some_0.0.id.len() <= u64::MAX,
{
    lemma_enc_dec_bytes(b);
    let (id, b1) = dec_bytes(b)->Some_0;
    lemma_enc_dec_u64(b1);
    let (type_tag, b2) = dec_u64(b1)->Some_0;
    lemma_enc_dec_bool(b2);
    let (versioned, b3) = dec_bool(b2)->Some_0;
    lemma_enc_dec_bool(b3);
    let (public, b4) = dec_bool(b3)->Some_0;
    let k = dec_dir_key(b)->Some_0.0;
    assert(enc_bool(k.access_level == AccessLevel::Public) == enc_bool(public));
    assert(enc_dir_key(k) + b4 =~= b);
}

/// Writes a directory location.
pub fn put_dir_key(out: &mut Vec<u8>, k: &DirectoryKey)
    ensures
        final(out)@ == old(out)@ + enc_dir_key(k@),
        k@.id.len() <= u64::MAX,
{
    let id_len = k.get_id().len();
    proof {
        assert(k@.id.len() == id_len);
    }
    put_bytes(out, k.get_id().as_slice());
    put_u64(out, k.get_type_tag());
    put_bool(out, k.is_versioned());
    let public = match k.get_access_level() {
        AccessLevel::Public => true,
        AccessLevel::Private => false,
    };
    put_bool(out, public);
    proof {
        assert(final(out)@ =~= old(out)@ + enc_dir_key(k@));
    }
}

/// Reads a directory location.
pub fn read_dir_key<'a>(b: &'a [u8]) -> (r: Option<(DirectoryKey, &'a [u8])>)
    ensures
        match r {
            Some(p) => dec_dir_key(b@) == Some((p.0@, p.1@)),
            None => dec_dir_key(b@) is None,
        },
{
    match read_bytes(b) {
        None => None,
        Some((id, b1)) => match read_u64(b1) {
            None => None,
            Some((type_tag, b2)) => match read_bool(b2) {
                None => None,
                Some((versioned, b3)) => match read_bool(b3) {
                    None => None,
                    Some((public, b4)) => {
                        let access_level = if public {
                            AccessLevel::Public
                        } else {
                            AccessLevel::Private
                        };
                        Some((DirectoryKey::new(id, type_tag, versioned, access_level), b4))
                    },
                },
            },
        },
    }
}

/// Mathematical value of a [`StructuredData`].
pub struct StructuredDataV {
    /// Type tag under which the record is stored.
    pub type_tag: u64,
    /// The name the record's content address is derived from.
    pub identifier: Seq<char>,
    /// Version of the record; a mutation must supply the prior version
    /// plus one.
    pub version: u64,
    /// Payload of the record; empty marks a deleted name.
    pub data: Seq<u8>,
    /// Signing keys of the record's owners.
    pub owner_keys: Seq<Seq<u8>>,
    /// Signing keys of the record's previous owners.
    pub previous_owner_keys: Seq<Seq<u8>>,
}

/// A versioned record as exchanged with the record-store collaborator: the
/// registry builds one for every mutation and reads fetched ones.  The
/// collaborator derives the content address from the identifier, signs the
/// record and publishes it.
#[derive(Debug, PartialEq, Eq)]
pub struct StructuredData {
    type_tag: u64,
    identifier: String,
    version: u64,
    data: Vec<u8>,
    owner_keys: Vec<SignPublicKey>,
    previous_owner_keys: Vec<SignPublicKey>,
}

impl View for StructuredData {
    type V = StructuredDataV;

    closed spec fn view(&self) -> StructuredDataV {
        StructuredDataV {
            type_tag: self.type_tag,
            identifier: self.identifier@,
            version: self.version,
            data: self.data@,
            owner_keys: self.owner_keys.deep_view(),
            previous_owner_keys: self.previous_owner_keys.deep_view(),
        }
    }
}

impl StructuredData {
    /// Builds a versioned record from its parts.
    pub fn new(
        type_tag: u64,
        identifier: String,
        version: u64,
        data: Vec<u8>,
        owner_keys: Vec<SignPublicKey>,
        previous_owner_keys: Vec<SignPublicKey>,
    ) -> (r: StructuredData)
        ensures
            r@ == (StructuredDataV {
                type_tag,
                identifier: identifier@,
                version,
                data: data@,
                owner_keys: owner_keys.deep_view(),
                previous_owner_keys: previous_owner_keys.deep_view(),
            }),
    {
        StructuredData { type_tag, identifier, version, data, owner_keys, previous_owner_keys }
    }

    /// Type tag under which the record is stored.
    pub fn get_type_tag(&self) -> (r: u64)
        ensures
            r == self@.type_tag,
    {
        self.type_tag
    }

    /// The name the record's content address is derived from.
    pub fn get_identifier(&self) -> (r: &String)
        ensures
            r@ == self@.identifier,
    {
        &self.identifier
    }

    /// Version of the record.
    pub fn get_version(&self) -> (r: u64)
        ensures
            r == self@.version,
    {
        self.version
    }

    /// Payload of the record.
    pub fn get_data(&self) -> (r: &Vec<u8>)
        ensures
            r@ == self@.data,
    {
        &self.data
    }

    /// Signing keys of the record's owners.
    pub fn get_owner_keys(&self) -> (r: &Vec<SignPublicKey>)
        ensures
            r.deep_view() == self@.owner_keys,
    {
        &self.owner_keys
    }

    /// Signing keys of the record's previous owners.
    pub fn get_previous_owner_keys(&self) -> (r: &Vec<SignPublicKey>)
        ensures
            r.deep_view() == self@.previous_owner_keys,
    {
        &self.previous_owner_keys
    }
}

impl Clone for StructuredData {
    fn clone(&self) -> (r: Self)
        ensures
            r@ == self@,
    {
        StructuredData {
            type_tag: self.type_tag,
            identifier: self.identifier.clone(),
            version: self.version,
            data: clone_bytes(&self.data),
            owner_keys: clone_sign_keys(&self.owner_keys),
            previous_owner_keys: clone_sign_keys(&self.previous_owner_keys),
        }
    }
}

/// What the record-store collaborator hands back for a fetch: a versioned
/// record, or data of some other kind.
pub enum FetchedData {
    /// A versioned record.
    StructuredData(StructuredData),
    /// Data of any other kind.
    Other,
}

} // verus!
