//! The wire format shared by the configuration file and the public name
//! record: a schema-versioned sequence of length-prefixed fields.
//!
//! Every number is eight bytes little endian.  A byte field is its length
//! followed by its bytes; a text field is a byte field holding UTF-8; a
//! flag is one byte, zero or one.  Decoding is exact: a decoder accepts a
//! byte sequence if and only if it is the encoding of some value, so
//! encoding and decoding are mutually inverse.

use vstd::prelude::*;
use vstd::bytes::*;
use vstd::seq::Seq;
use vstd::slice::{slice_index_get, slice_subrange, slice_to_vec};
use vstd::utf8::{decode_utf8, encode_utf8, valid_utf8};
use vstd::utf8::{decode_utf8_encode_utf8, encode_utf8_decode_utf8, encode_utf8_valid_utf8};

verus! {

/// Version tag that opens every encoded document of this crate.
pub const SCHEMA_TAG: u64 = 100001;

// ---------------------------------------------------------------------------
// The format, as functions on sequences: each encoder appends to nothing,
// each decoder consumes a prefix and returns the value with the rest.
// ---------------------------------------------------------------------------

/// Encoding of a number.
pub open spec fn enc_u64(x: u64) -> Seq<u8> {
    spec_u64_to_le_bytes(x)
}

/// Decoding of a number from a prefix.
pub open spec fn dec_u64(b: Seq<u8>) -> Option<(u64, Seq<u8>)> {
    if b.len() >= 8 {
        Some((spec_u64_from_le_bytes(b.take(8)), b.skip(8)))
    } else {
        None
    }
}

/// Encoding of a byte field: length, then the bytes.
pub open spec fn enc_bytes(d: Seq<u8>) -> Seq<u8> {
    enc_u64(d.len() as u64) + d
}

/// Decoding of a byte field from a prefix.
pub open spec fn dec_bytes(b: Seq<u8>) -> Option<(Seq<u8>, Seq<u8>)> {
    match dec_u64(b) {
        Some((n, r)) => if r.len() >= n {
            Some((r.take(n as int), r.skip(n as int)))
        } else {
            None
        },
        None => None,
    }
}

/// Encoding of a text field: a byte field holding UTF-8.
pub open spec fn enc_str(s: Seq<char>) -> Seq<u8> {
    enc_bytes(encode_utf8(s))
}

/// Decoding of a text field from a prefix.
pub open spec fn dec_str(b: Seq<u8>) -> Option<(Seq<char>, Seq<u8>)> {
    match dec_bytes(b) {
        Some((d, r)) => if valid_utf8(d) {
            Some((decode_utf8(d), r))
        } else {
            None
        },
        None => None,
    }
}

/// Decoding of a field of known width, such as a key of fixed size: the
/// field carries no length of its own.
pub open spec fn dec_fixed(b: Seq<u8>, n: nat) -> Option<(Seq<u8>, Seq<u8>)> {
    if b.len() >= n {
        Some((b.take(n as int), b.skip(n as int)))
    } else {
        None
    }
}

/// Encoding of a flag: one byte, zero or one.
pub open spec fn enc_bool(v: bool) -> Seq<u8> {
    seq![if v { 1u8 } else { 0u8 }]
}

/// Decoding of a flag from a prefix.
pub open spec fn dec_bool(b: Seq<u8>) -> Option<(bool, Seq<u8>)> {
    if b.len() >= 1 && (b[0] == 0u8 || b[0] == 1u8) {
        Some((b[0] == 1u8, b.skip(1)))
    } else {
        None
    }
}

// ---------------------------------------------------------------------------
// Each primitive decoder inverts its encoder (soundness of `load(save(X))`),
// and each encoder reproduces what its decoder consumed (so a decodable
// document is the encoding of its value, byte for byte).
// ---------------------------------------------------------------------------

/// A number followed by anything decodes to that number and the rest.
pub proof fn lemma_dec_enc_u64(x: u64, rest: Seq<u8>)
    ensures
        dec_u64(enc_u64(x) + rest) == Some((x, rest)),
{
    lemma_auto_spec_u64_to_from_le_bytes();
    assert((enc_u64(x) + rest).take(8) =~= enc_u64(x));
    assert((enc_u64(x) + rest).skip(8) =~= rest);
}

/// What a number decoder consumed was the encoding of its result.
pub proof fn lemma_enc_dec_u64(b: Seq<u8>)
    requires
        dec_u64(b) is Some,
    ensures
        enc_u64(dec_u64(b)->Some_0.0) + dec_u64(b)->Some_0.1 == b,
{
    lemma_auto_spec_u64_to_from_le_bytes();
    assert(enc_u64(spec_u64_from_le_bytes(b.take(8))) + b.skip(8) =~= b);
}

/// A byte field followed by anything decodes to those bytes and the rest.
pub proof fn lemma_dec_enc_bytes(d: Seq<u8>, rest: Seq<u8>)
    requires
        d.len() <= u64::MAX,
    ensures
        dec_bytes(enc_bytes(d) + rest) == Some((d, rest)),
{
    let n = d.len() as u64;
    assert(enc_bytes(d) + rest =~= enc_u64(n) + (d + rest));
    lemma_dec_enc_u64(n, d + rest);
    assert((d + rest).take(n as int) =~= d);
    assert((d + rest).skip(n as int) =~= rest);
}

/// What a byte-field decoder consumed was the encoding of its result.
pub proof fn lemma_enc_dec_bytes(b: Seq<u8>)
    requires
        dec_bytes(b) is Some,
    ensures
        enc_bytes(dec_bytes(b)->Some_0.0) + dec_bytes(b)->Some_0.1 == b,
        dec_bytes(b)->Some_0.0.len() <= u64::MAX,
{
    lemma_enc_dec_u64(b);
    let (n, rr) = dec_u64(b)->Some_0;
    let d = rr.take(n as int);
    let r = rr.skip(n as int);
    assert(d + r =~= rr);
    assert(enc_bytes(d) + r =~= b);
}

/// A text field followed by anything decodes to that text and the rest.
pub proof fn lemma_dec_enc_str(s: Seq<char>, rest: Seq<u8>)
    requires
        encode_utf8(s).len() <= u64::MAX,
    ensures
        dec_str(enc_str(s) + rest) == Some((s, rest)),
{
    lemma_dec_enc_bytes(encode_utf8(s), rest);
    encode_utf8_valid_utf8(s);
    encode_utf8_decode_utf8(s);
}

/// What a text-field decoder consumed was the encoding of its result.
pub proof fn lemma_enc_dec_str(b: Seq<u8>)
    requires
        dec_str(b) is Some,
    ensures
        enc_str(dec_str(b)->Some_0.0) + dec_str(b)->Some_0.1 == b,
        encode_utf8(dec_str(b)->Some_0.0).len() <= u64::MAX,
{
    lemma_enc_dec_bytes(b);
    let (d, r) = dec_bytes(b)->Some_0;
    decode_utf8_encode_utf8(d);
}

/// A field of known width followed by anything decodes to it and the rest.
pub proof fn lemma_dec_enc_fixed(d: Seq<u8>, rest: Seq<u8>)
    ensures
        dec_fixed(d + rest, d.len()) == Some((d, rest)),
{
    assert((d + rest).take(d.len() as int) =~= d);
    assert((d + rest).skip(d.len() as int) =~= rest);
}

/// What a known-width decoder consumed was the field itself.
pub proof fn lemma_enc_dec_fixed(b: Seq<u8>, n: nat)
    requires
        dec_fixed(b, n) is Some,
    ensures
        dec_fixed(b, n)->Some_0.0 + dec_fixed(b, n)->Some_0.1 == b,
        dec_fixed(b, n)->Some_0.0.len() == n,
{
    assert(dec_fixed(b, n)->Some_0.0 + dec_fixed(b, n)->Some_0.1 =~= b);
}

/// A flag followed by anything decodes to that flag and the rest.
pub proof fn lemma_dec_enc_bool(v: bool, rest: Seq<u8>)
    ensures
        dec_bool(enc_bool(v) + rest) == Some((v, rest)),
{
    assert((enc_bool(v) + rest).skip(1) =~= rest);
}

/// What a flag decoder consumed was the encoding of its result.
pub proof fn lemma_enc_dec_bool(b: Seq<u8>)
    requires
        dec_bool(b) is Some,
    ensures
        enc_bool(dec_bool(b)->Some_0.0) + dec_bool(b)->Some_0.1 == b,
{
    assert(enc_bool(dec_bool(b)->Some_0.0) + dec_bool(b)->Some_0.1 =~= b);
}

// ---------------------------------------------------------------------------
// Executable writers: each appends one field to an output buffer.
// ---------------------------------------------------------------------------

/// Appends a number.
pub fn put_u64(out: &mut Vec<u8>, x: u64)
    ensures
        final(out)@ == old(out)@ + enc_u64(x),
{
    let mut bs = u64_to_le_bytes(x);
    out.append(&mut bs);
}

/// Appends a byte field.
pub fn put_bytes(out: &mut Vec<u8>, d: &[u8])
    ensures
        final(out)@ == old(out)@ + enc_bytes(d@),
{
    put_u64(out, d.len() as u64);
    let mut dv = slice_to_vec(d);
    out.append(&mut dv);
    proof {
        assert(final(out)@ =~= old(out)@ + enc_bytes(d@));
    }
}

/// Appends a text field.
pub fn put_str(out: &mut Vec<u8>, s: &str)
    ensures
        final(out)@ == old(out)@ + enc_str(s@),
        encode_utf8(s@).len() <= u64::MAX,
{
    let bs = s.as_bytes_vec();
    let n = bs.len();
    proof {
        assert(encode_utf8(s@).len() == n);
    }
    put_bytes(out, bs.as_slice());
}

/// Appends a flag.
pub fn put_bool(out: &mut Vec<u8>, v: bool)
    ensures
        final(out)@ == old(out)@ + enc_bool(v),
{
    if v {
        out.push(1u8);
    } else {
        out.push(0u8);
    }
    proof {
        assert(final(out)@ =~= old(out)@ + enc_bool(v));
    }
}

// ---------------------------------------------------------------------------
// Executable readers: each consumes one field from the front of its input
// and returns the value with the remaining input, or nothing where the
// input does not start with such a field.
// ---------------------------------------------------------------------------

/// Reads a number.
pub fn read_u64<'a>(b: &'a [u8]) -> (r: Option<(u64, &'a [u8])>)
    ensures
        match r {
            Some(p) => dec_u64(b@) == Some((p.0, p.1@)),
            None => dec_u64(b@) is None,
        },
{
    if b.len() >= 8 {
        let head = slice_subrange(b, 0, 8);
        let x = u64_from_le_bytes(head);
        let rest = slice_subrange(b, 8, b.len());
        proof {
            assert(head@ =~= b@.take(8));
            assert(rest@ =~= b@.skip(8));
        }
        Some((x, rest))
    } else {
        None
    }
}

/// Reads a byte field.
pub fn read_bytes<'a>(b: &'a [u8]) -> (r: Option<(Vec<u8>, &'a [u8])>)
    ensures
        match r {
            Some(p) => dec_bytes(b@) == Some((p.0@, p.1@)),
            None => dec_bytes(b@) is None,
        },
{
    match read_u64(b) {
        None => None,
        Some((n, r1)) => {
            if n <= r1.len() as u64 {
                let n_us = n as usize;
                let d = slice_to_vec(slice_subrange(r1, 0, n_us));
                let rest = slice_subrange(r1, n_us, r1.len());
                proof {
                    assert(d@ =~= r1@.take(n as int));
                    assert(rest@ =~= r1@.skip(n as int));
                }
                Some((d, rest))
            } else {
                None
            }
        },
    }
}

/// Reads a field of known width.
pub fn read_fixed<'a>(b: &'a [u8], n: usize) -> (r: Option<(Vec<u8>, &'a [u8])>)
    ensures
        match r {
            Some(p) => dec_fixed(b@, n as nat) == Some((p.0@, p.1@)),
            None => dec_fixed(b@, n as nat) is None,
        },
{
    if b.len() >= n {
        let d = slice_to_vec(slice_subrange(b, 0, n));
        let rest = slice_subrange(b, n, b.len());
        proof {
            assert(d@ =~= b@.take(n as int));
            assert(rest@ =~= b@.skip(n as int));
        }
        Some((d, rest))
    } else {
        None
    }
}

/// Reads a text field.
pub fn read_str<'a>(b: &'a [u8]) -> (r: Option<(String, &'a [u8])>)
    ensures
        match r {
            Some(p) => dec_str(b@) == Some((p.0@, p.1@)),
            None => dec_str(b@) is None,
        },
{
    match read_bytes(b) {
        None => None,
        Some((d, rest)) => match string_from_utf8(d) {
            Ok(s) => Some((s, rest)),
            Err(_) => None,
        },
    }
}

/// Reads a flag.
pub fn read_bool<'a>(b: &'a [u8]) -> (r: Option<(bool, &'a [u8])>)
    ensures
        match r {
            Some(p) => dec_bool(b@) == Some((p.0, p.1@)),
            None => dec_bool(b@) is None,
        },
{
    if b.len() >= 1 {
        let byte = *slice_index_get(b, 0);
        if byte == 0u8 || byte == 1u8 {
            let rest = slice_subrange(b, 1, b.len());
            proof {
                assert(rest@ =~= b@.skip(1));
            }
            Some((byte == 1u8, rest))
        } else {
            None
        }
    } else {
        None
    }
}

/// Relies on `String::from_utf8`: it returns the string read from the given
/// bytes exactly when they are a valid UTF-8 encoding, and fails otherwise.
#[verifier::external_body]
fn string_from_utf8(bytes: Vec<u8>) -> (r: Result<String, ()>)
    ensures
        match r {
            Ok(s) => valid_utf8(bytes@) && s@ == decode_utf8(bytes@),
            Err(_) => !valid_utf8(bytes@),
        },
{
    match String::from_utf8(bytes) {
        Ok(s) => Ok(s),
        Err(_) => Err(()),
    }
}

} // verus!
