//! The registrant's private configuration: one entry per claimed long name,
//! holding the messaging keypair for that name.  The entries persist in a
//! single file held by the file-storage collaborator; this module decides
//! what the file holds, while reading and writing it is the caller's work.

use vstd::prelude::*;
use vstd::seq::Seq;
use vstd::utf8::encode_utf8;
use crate::codec::{
    dec_fixed, dec_str, dec_u64, enc_str, enc_u64, lemma_dec_enc_fixed, lemma_dec_enc_str,
    lemma_dec_enc_u64, lemma_enc_dec_fixed, lemma_enc_dec_str, lemma_enc_dec_u64, put_str, put_u64,
    read_fixed, read_str, read_u64, SCHEMA_TAG,
};
use crate::errors::{DnsError, NfsError};
use crate::keys::{PublicKey, SecretKey, PUBLICKEYBYTES, SECRETKEYBYTES};

verus! {

/// Mathematical value of a [`DnsConfiguation`] entry.
pub struct DnsConfiguationV {
    /// The claimed long name.
    pub long_name: Seq<char>,
    /// Public and secret halves of the messaging keypair.
    pub encryption_keypair: (Seq<u8>, Seq<u8>),
}

/// One entry of the registrant's private configuration: a claimed long name
/// with the messaging keypair it was registered under.
#[derive(Debug, PartialEq, Eq)]
pub struct DnsConfiguation {
    /// The claimed long name.
    pub long_name: String,
    /// Public and secret halves of the messaging keypair.  The secret half
    /// never leaves the configuration.
    pub encryption_keypair: (PublicKey, SecretKey),
}

impl View for DnsConfiguation {
    type V = DnsConfiguationV;

    open spec fn view(&self) -> DnsConfiguationV {
        DnsConfiguationV {
            long_name: self.long_name@,
            encryption_keypair: (self.encryption_keypair.0@, self.encryption_keypair.1@),
        }
    }
}

impl DeepView for DnsConfiguation {
    type V = DnsConfiguationV;

    open spec fn deep_view(&self) -> DnsConfiguationV {
        self@
    }
}

impl Clone for DnsConfiguation {
    fn clone(&self) -> (r: Self)
        ensures
            r@ == self@,
    {
        DnsConfiguation {
            long_name: self.long_name.clone(),
            encryption_keypair: (self.encryption_keypair.0.clone(), self.encryption_keypair.1.clone()),
        }
    }
}

impl DnsConfiguation {
    /// Serialises one entry.  A well-formed entry decodes back to itself.
    pub fn encode(&self) -> (r: Vec<u8>)
        ensures
            r@ == enc_config_entry(self@),
            config_entry_wf(self@) ==> dec_config_entry(r@) == Some(
                (self@, Seq::<u8>::empty()),
            ),
    {
        let mut out: Vec<u8> = Vec::new();
        put_config_entry(&mut out, self);
        proof {
            assert(out@ =~= enc_config_entry(self@));
            if config_entry_wf(self@) {
                lemma_dec_enc_config_entry(self@, Seq::<u8>::empty());
                assert(enc_config_entry(self@) + Seq::<u8>::empty() =~= enc_config_entry(self@));
            }
        }
        out
    }

    /// Deserialises one entry from the front of the given bytes, handing
    /// back what follows it.
    pub fn decode<'a>(data: &'a [u8]) -> (r: Option<(DnsConfiguation, &'a [u8])>)
        ensures
            match r {
                Some(p) => dec_config_entry(data@) == Some((p.0@, p.1@)),
                None => dec_config_entry(data@) is None,
            },
    {
        read_config_entry(data)
    }
}

/// The keypair of an entry has the sizes of the underlying primitive.
pub open spec fn config_entry_wf(e: DnsConfiguationV) -> bool {
    &&& e.encryption_keypair.0.len() == PUBLICKEYBYTES
    &&& e.encryption_keypair.1.len() == SECRETKEYBYTES
}

/// The entry can be written: well-formed, with a name whose encoding fits
/// behind a length prefix.  Every entry built from run-time strings fits.
pub open spec fn config_entry_encodable(e: DnsConfiguationV) -> bool {
    &&& config_entry_wf(e)
    &&& encode_utf8(e.long_name).len() <= u64::MAX
}

/// Every entry of the sequence can be written.
pub open spec fn config_entries_encodable(s: Seq<DnsConfiguationV>) -> bool {
    forall|i: int| 0 <= i < s.len() ==> config_entry_encodable(#[trigger] s[i])
}

// ---------------------------------------------------------------------------
// The configuration file format: schema tag, entry count, then each entry as
// its name followed by the fixed-size halves of its keypair.
// ---------------------------------------------------------------------------

/// Encoding of one entry.
pub open spec fn enc_config_entry(e: DnsConfiguationV) -> Seq<u8> {
    enc_str(e.long_name) + e.encryption_keypair.0 + e.encryption_keypair.1
}

/// Decoding of one entry from a prefix.
pub open spec fn dec_config_entry(b: Seq<u8>) -> Option<(DnsConfiguationV, Seq<u8>)> {
    match dec_str(b) {
        None => None,
        Some((long_name, b1)) => match dec_fixed(b1, PUBLICKEYBYTES as nat) {
            None => None,
            Some((pub_key, b2)) => match dec_fixed(b2, SECRETKEYBYTES as nat) {
                None => None,
                Some((sec_key, b3)) => Some(
                    (DnsConfiguationV { long_name, encryption_keypair: (pub_key, sec_key) }, b3),
                ),
            },
        },
    }
}

/// Encoding of a sequence of entries, in order.
pub open spec fn enc_config_entries(s: Seq<DnsConfiguationV>) -> Seq<u8>
    decreases s.len(),
{
    if s.len() == 0 {
        Seq::empty()
    } else {
        enc_config_entry(s[0]) + enc_config_entries(s.drop_first())
    }
}

/// Decoding of a known number of entries from a prefix.
pub open spec fn dec_config_entries(b: Seq<u8>, n: nat) -> Option<(Seq<DnsConfiguationV>, Seq<u8>)>
    decreases n,
{
    if n == 0 {
        Some((Seq::empty(), b))
    } else {
        match dec_config_entry(b) {
            None => None,
            Some((e, r)) => match dec_config_entries(r, (n - 1) as nat) {
                None => None,
                Some((es, r2)) => Some((seq![e] + es, r2)),
            },
        }
    }
}

/// Encoding of the whole configuration file.
pub open spec fn enc_config_file(s: Seq<DnsConfiguationV>) -> Seq<u8> {
    enc_u64(SCHEMA_TAG) + enc_u64(s.len() as u64) + enc_config_entries(s)
}

/// Decoding of the whole configuration file.  The file decodes only when
/// the schema tag matches and nothing follows the last entry.
pub open spec fn dec_config_file(b: Seq<u8>) -> Option<Seq<DnsConfiguationV>> {
    match dec_u64(b) {
        None => None,
        Some((tag, b1)) => if tag != SCHEMA_TAG {
            None
        } else {
            match dec_u64(b1) {
                None => None,
                Some((n, b2)) => match dec_config_entries(b2, n as nat) {
                    None => None,
                    Some((es, r)) => if r.len() == 0 {
                        Some(es)
                    } else {
                        None
                    },
                },
            }
        },
    }
}

// ---------------------------------------------------------------------------
// Round trips of the entry format.
// ---------------------------------------------------------------------------

/// An entry followed by anything decodes to it and the rest.
pub proof fn lemma_dec_enc_config_entry(e: DnsConfiguationV, rest: Seq<u8>)
    requires
        config_entry_encodable(e),
    ensures
        dec_config_entry(enc_config_entry(e) + rest) == Some((e, rest)),
{
    let pk = e.encryption_keypair.0;
    let sk = e.encryption_keypair.1;
    assert(enc_config_entry(e) + rest =~= enc_str(e.long_name) + (pk + (sk + rest)));
    lemma_dec_enc_str(e.long_name, pk + (sk + rest));
    lemma_dec_enc_fixed(pk, sk + rest);
    lemma_dec_enc_fixed(sk, rest);
}

/// What an entry decoder consumed was the encoding of its result.
pub proof fn lemma_enc_dec_config_entry(b: Seq<u8>)
    requires
        dec_config_entry(b) is Some,
    ensures
        enc_config_entry(dec_config_entry(b)->Some_0.0) + dec_config_entry(b)->Some_0.1 == b,
        config_entry_encodable(dec_config_entry(b)->Some_0.0),
{
    lemma_enc_dec_str(b);
    let (long_name, b1) = dec_str(b)->Some_0;
    lemma_enc_dec_fixed(b1, PUBLICKEYBYTES as nat);
    let (pk, b2) = dec_fixed(b1, PUBLICKEYBYTES as nat)->Some_0;
    lemma_enc_dec_fixed(b2, SECRETKEYBYTES as nat);
    let (sk, b3) = dec_fixed(b2, SECRETKEYBYTES as nat)->Some_0;
    let e = dec_config_entry(b)->Some_0.0;
    assert(enc_config_entry(e) + b3 =~= b);
}

/// A sequence of entries followed by anything decodes to it and the rest.
pub proof fn lemma_dec_enc_config_entries(s: Seq<DnsConfiguationV>, rest: Seq<u8>)
    requires
        config_entries_encodable(s),
    ensures
        dec_config_entries(enc_config_entries(s) + rest, s.len()) == Some((s, rest)),
    decreases s.len(),
{
    if s.len() == 0 {
        assert(enc_config_entries(s) + rest =~= rest);
    } else {
        let e = s[0];
        let tail = s.drop_first();
        assert(enc_config_entries(s) + rest =~= enc_config_entry(e) + (enc_config_entries(tail)
            + rest));
        lemma_dec_enc_config_entry(e, enc_config_entries(tail) + rest);
        lemma_dec_enc_config_entries(tail, rest);
        assert(seq![e] + tail =~= s);
    }
}

/// What an entry-sequence decoder consumed was the encoding of its result.
pub proof fn lemma_enc_dec_config_entries(b: Seq<u8>, n: nat)
    requires
        dec_config_entries(b, n) is Some,
    ensures
        enc_config_entries(dec_config_entries(b, n)->Some_0.0) + dec_config_entries(b, n)->Some_0.1
            == b,
        dec_config_entries(b, n)->Some_0.0.len() == n,
        config_entries_encodable(dec_config_entries(b, n)->Some_0.0),
    decreases n,
{
    if n == 0 {
        assert(enc_config_entries(Seq::<DnsConfiguationV>::empty()) + b =~= b);
    } else {
        lemma_enc_dec_config_entry(b);
        let (e, r) = dec_config_entry(b)->Some_0;
        lemma_enc_dec_config_entries(r, (n - 1) as nat);
        let (es, r2) = dec_config_entries(r, (n - 1) as nat)->Some_0;
        let whole = seq![e] + es;
        assert(whole.drop_first() =~= es);
        assert(enc_config_entries(whole) + r2 =~= b);
        assert(config_entries_encodable(whole)) by {
            assert(forall|i: int|
                0 <= i < whole.len() ==> #[trigger] whole[i] == if i == 0 {
                    e
                } else {
                    es[i - 1]
                });
        }
    }
}

/// Saving entries and loading them back reproduces them element for
/// element, order preserved.
pub proof fn lemma_config_file_round_trip(s: Seq<DnsConfiguationV>)
    requires
        config_entries_encodable(s),
        s.len() <= u64::MAX,
    ensures
        dec_config_file(enc_config_file(s)) == Some(s),
{
    let n = s.len() as u64;
    let body = enc_config_entries(s);
    assert(enc_config_file(s) =~= enc_u64(SCHEMA_TAG) + (enc_u64(n) + body));
    lemma_dec_enc_u64(SCHEMA_TAG, enc_u64(n) + body);
    lemma_dec_enc_u64(n, body);
    assert(body + Seq::<u8>::empty() =~= body);
    lemma_dec_enc_config_entries(s, Seq::<u8>::empty());
}

/// Writing back what a configuration file decoded to reproduces the file
/// byte for byte: saving a loaded store changes nothing.
pub proof fn lemma_config_file_canonical(b: Seq<u8>)
    requires
        dec_config_file(b) is Some,
    ensures
        enc_config_file(dec_config_file(b)->Some_0) == b,
        config_entries_encodable(dec_config_file(b)->Some_0),
        dec_config_file(b)->Some_0.len() <= u64::MAX,
{
    lemma_enc_dec_u64(b);
    let (tag, b1) = dec_u64(b)->Some_0;
    lemma_enc_dec_u64(b1);
    let (n, b2) = dec_u64(b1)->Some_0;
    lemma_enc_dec_config_entries(b2, n as nat);
    let (es, r) = dec_config_entries(b2, n as nat)->Some_0;
    assert(enc_config_file(es) + r =~= b);
    assert(enc_config_file(es) =~= b);
}

// ---------------------------------------------------------------------------
// The three configuration-store operations.  The caller performs the file
// collaborator's part: creating, reading and overwriting the backing file.
// ---------------------------------------------------------------------------

/// Decides the outcome of ensuring that the backing file exists, from the
/// file collaborator's answer to the create call: creation is idempotent,
/// so a file that is already present counts as success, and any other
/// collaborator failure is surfaced unchanged.
pub fn initialise_dns_configuaration(create_result: Result<(), NfsError>) -> (r: Result<
    (),
    DnsError,
>)
    ensures
        match create_result {
            Ok(_) => r is Ok,
            Err(e) => if e == NfsError::AlreadyExists {
                r is Ok
            } else {
                r == Err::<(), DnsError>(DnsError::NfsError(e))
            },
        },
{
    match create_result {
        Ok(_) => Ok(()),
        Err(NfsError::AlreadyExists) => Ok(()),
        Err(error) => Err(DnsError::NfsError(error)),
    }
}

/// Decodes the configuration entries from the content of the backing file.
/// A missing file is an error, an empty file holds no entries yet, and any
/// other content must decode under the file format.
pub fn get_dns_configuaration_data(file_content: Option<&Vec<u8>>) -> (r: Result<
    Vec<DnsConfiguation>,
    DnsError,
>)
    ensures
        match r {
            Ok(entries) => {
                &&& file_content is Some
                &&& {
                    let content = file_content->Some_0@;
                    if content.len() == 0 {
                        entries.deep_view() == Seq::<DnsConfiguationV>::empty()
                    } else {
                        dec_config_file(content) == Some(entries.deep_view())
                    }
                }
            },
            Err(e) => {
                &&& e == DnsError::DnsConfigFileNotFoundOrCorrupted
                &&& match file_content {
                    None => true,
                    Some(content) => content@.len() != 0 && dec_config_file(content@) is None,
                }
            },
        },
{
    let content = match file_content {
        None => {
            return Err(DnsError::DnsConfigFileNotFoundOrCorrupted);
        },
        Some(content) => content,
    };
    if content.len() == 0 {
        let entries: Vec<DnsConfiguation> = Vec::new();
        proof {
            assert(entries.deep_view() =~= Seq::<DnsConfiguationV>::empty());
        }
        return Ok(entries);
    }
    match decode_config_file(content.as_slice()) {
        Some(entries) => Ok(entries),
        None => Err(DnsError::DnsConfigFileNotFoundOrCorrupted),
    }
}

/// Serialises the full entry sequence as the new content of the backing
/// file, which the caller overwrites in a single call to the collaborator.
pub fn write_dns_configuaration_data(config: &Vec<DnsConfiguation>) -> (r: Vec<u8>)
    ensures
        r@ == enc_config_file(config.deep_view()),
        config_entries_encodable(config.deep_view()) ==> dec_config_file(r@) == Some(
            config.deep_view(),
        ),
{
    let mut out: Vec<u8> = Vec::new();
    put_u64(&mut out, SCHEMA_TAG);
    put_u64(&mut out, config.len() as u64);
    let mut i: usize = 0;
    while i < config.len()
        invariant
            i <= config.len(),
            out@ == enc_u64(SCHEMA_TAG) + enc_u64(config.deep_view().len() as u64)
                + enc_config_entries(config.deep_view().take(i as int)),
        decreases config.len() - i,
    {
        let ghost prefix = config.deep_view().take(i as int);
        put_config_entry(&mut out, &config[i]);
        proof {
            lemma_enc_config_entries_push(prefix, config.deep_view()[i as int]);
            assert(prefix.push(config.deep_view()[i as int]) =~= config.deep_view().take(
                i as int + 1,
            ));
        }
        i = i + 1;
    }
    proof {
        assert(config.deep_view().take(config.len() as int) =~= config.deep_view());
        assert(out@ =~= enc_config_file(config.deep_view()));
        if config_entries_encodable(config.deep_view()) {
            lemma_config_file_round_trip(config.deep_view());
        }
    }
    out
}

/// Appending one entry to an encoded sequence encodes the pushed sequence.
proof fn lemma_enc_config_entries_push(s: Seq<DnsConfiguationV>, e: DnsConfiguationV)
    ensures
        enc_config_entries(s.push(e)) == enc_config_entries(s) + enc_config_entry(e),
    decreases s.len(),
{
    if s.len() == 0 {
        assert(s.push(e).drop_first() =~= Seq::<DnsConfiguationV>::empty());
        assert(s.push(e)[0] == e);
        assert(enc_config_entries(s.push(e)) == enc_config_entry(e) + enc_config_entries(
            Seq::<DnsConfiguationV>::empty(),
        ));
        assert(enc_config_entries(s.push(e)) =~= enc_config_entries(s) + enc_config_entry(e));
    } else {
        assert(s.push(e).drop_first() =~= s.drop_first().push(e));
        assert(s.push(e)[0] == s[0]);
        lemma_enc_config_entries_push(s.drop_first(), e);
        assert(enc_config_entries(s.push(e)) == enc_config_entry(s[0]) + enc_config_entries(
            s.drop_first().push(e),
        ));
        assert(enc_config_entries(s.push(e)) =~= enc_config_entries(s) + enc_config_entry(e));
    }
}

/// Writes one entry.
fn put_config_entry(out: &mut Vec<u8>, e: &DnsConfiguation)
    ensures
        final(out)@ == old(out)@ + enc_config_entry(e@),
        encode_utf8(e@.long_name).len() <= u64::MAX,
{
    put_str(out, e.long_name.as_str());
    let mut pk = crate::keys::clone_bytes(&e.encryption_keypair.0.0);
    out.append(&mut pk);
    let mut sk = crate::keys::clone_bytes(&e.encryption_keypair.1.0);
    out.append(&mut sk);
    proof {
        assert(final(out)@ =~= old(out)@ + enc_config_entry(e@));
    }
}


/// Reads one entry.
fn read_config_entry<'a>(b: &'a [u8]) -> (r: Option<(DnsConfiguation, &'a [u8])>)
    ensures
        match r {
            Some(p) => dec_config_entry(b@) == Some((p.0@, p.1@)),
            None => dec_config_entry(b@) is None,
        },
{
    match read_str(b) {
        None => None,
        Some((long_name, b1)) => match read_fixed(b1, PUBLICKEYBYTES) {
            None => None,
            Some((pk, b2)) => match read_fixed(b2, SECRETKEYBYTES) {
                None => None,
                Some((sk, b3)) => Some(
                    (
                        DnsConfiguation {
                            long_name,
                            encryption_keypair: (PublicKey(pk), SecretKey(sk)),
                        },
                        b3,
                    ),
                ),
            },
        },
    }
}

/// Decodes a whole configuration file.
fn decode_config_file(b: &[u8]) -> (r: Option<Vec<DnsConfiguation>>)
    ensures
        match r {
            Some(entries) => dec_config_file(b@) == Some(entries.deep_view()),
            None => dec_config_file(b@) is None,
        },
{
    let (tag, b1) = match read_u64(b) {
        None => {
            return None;
        },
        Some(p) => p,
    };
    if tag != SCHEMA_TAG {
        return None;
    }
    let (n, b2) = match read_u64(b1) {
        None => {
            return None;
        },
        Some(p) => p,
    };
    let mut entries: Vec<DnsConfiguation> = Vec::new();
    let mut cur: &[u8] = b2;
    let mut i: u64 = 0;
    while i < n
        invariant
            i <= n,
            entries.deep_view().len() == i,
            dec_config_entries(b2@, n as nat) == match dec_config_entries(
                cur@,
                (n - i) as nat,
            ) {
                Some(p) => Some((entries.deep_view() + p.0, p.1)),
                None => None::<(Seq<DnsConfiguationV>, Seq<u8>)>,
            },
            dec_config_file(b@) == match dec_config_entries(b2@, n as nat) {
                Some(p) => if p.1.len() == 0 {
                    Some(p.0)
                } else {
                    None::<Seq<DnsConfiguationV>>
                },
                None => None::<Seq<DnsConfiguationV>>,
            },
        decreases n - i,
    {
        let (e, rest) = match read_config_entry(cur) {
            None => {
                proof {
                    assert(dec_config_entries(cur@, (n - i) as nat) is None);
                    assert(dec_config_entries(b2@, n as nat) is None);
                }
                return None;
            },
            Some(p) => p,
        };
        let ghost old_entries = entries.deep_view();
        entries.push(e);
        proof {
            assert(entries.deep_view() =~= old_entries.push(e@));
            if dec_config_entries(rest@, (n - i - 1) as nat) is Some {
                let (es, r2) = dec_config_entries(rest@, (n - i - 1) as nat)->Some_0;
                assert(dec_config_entries(cur@, (n - i) as nat) == Some((seq![e@] + es, r2)));
                assert(old_entries + (seq![e@] + es) =~= old_entries.push(e@) + es);
            }
        }
        cur = rest;
        i = i + 1;
    }
    proof {
        assert(dec_config_entries(cur@, 0) == Some((Seq::<DnsConfiguationV>::empty(), cur@)));
        assert(entries.deep_view() + Seq::<DnsConfiguationV>::empty() =~= entries.deep_view());
    }
    if cur.len() == 0 {
        Some(entries)
    } else {
        None
    }
}

} // verus!
