//! The public name record: the payload of the versioned record published
//! under a claimed long name.  It carries the name, the public messaging
//! key, and the named services with the storage location each resolves to.

use vstd::prelude::*;
use vstd::seq::Seq;
use vstd::utf8::encode_utf8;
use crate::codec::{
    dec_fixed, dec_str, dec_u64, enc_str, enc_u64, lemma_dec_enc_fixed, lemma_dec_enc_str,
    lemma_dec_enc_u64, lemma_enc_dec_fixed, lemma_enc_dec_str, lemma_enc_dec_u64, put_str, put_u64,
    read_fixed, read_str, read_u64, SCHEMA_TAG,
};
use crate::errors::DnsError;
use crate::keys::{clone_bytes, PublicKey, PUBLICKEYBYTES};
use crate::storage::{
    dec_dir_key, enc_dir_key, lemma_dec_enc_dir_key, lemma_enc_dec_dir_key, put_dir_key,
    read_dir_key, DirectoryKey, DirectoryKeyV,
};

verus! {

/// One named service: its label and the storage location it resolves to.
pub type ServiceV = (Seq<char>, DirectoryKeyV);

// ---------------------------------------------------------------------------
// The service list as a mathematical object: lookup by label (first match),
// removal of a label, uniqueness of labels.
// ---------------------------------------------------------------------------

/// The location under the first service with the given label, if any.
pub open spec fn svc_lookup(s: Seq<ServiceV>, name: Seq<char>) -> Option<DirectoryKeyV>
    decreases s.len(),
{
    if s.len() == 0 {
        None
    } else if s[0].0 == name {
        Some(s[0].1)
    } else {
        svc_lookup(s.drop_first(), name)
    }
}

/// Whether some service carries the given label.
pub open spec fn svc_contains(s: Seq<ServiceV>, name: Seq<char>) -> bool {
    svc_lookup(s, name) is Some
}

/// The list with the first service of the given label removed.
pub open spec fn svc_remove(s: Seq<ServiceV>, name: Seq<char>) -> Seq<ServiceV>
    decreases s.len(),
{
    if s.len() == 0 {
        s
    } else if s[0].0 == name {
        s.drop_first()
    } else {
        seq![s[0]] + svc_remove(s.drop_first(), name)
    }
}

/// The labels of the services, in order.
pub open spec fn svc_names(s: Seq<ServiceV>) -> Seq<Seq<char>> {
    s.map_values(|p: ServiceV| p.0)
}

/// No two services carry the same label.
pub open spec fn svc_unique(s: Seq<ServiceV>) -> bool {
    forall|i: int, j: int| 0 <= i < j < s.len() ==> (#[trigger] s[i]).0 != (#[trigger] s[j]).0
}

/// A service appended under a fresh label is found under that label, and
/// every other label still resolves as before.
pub proof fn lemma_svc_lookup_push(s: Seq<ServiceV>, e: ServiceV, name: Seq<char>)
    ensures
        svc_lookup(s.push(e), name) == if svc_lookup(s, name) is Some {
            svc_lookup(s, name)
        } else if e.0 == name {
            Some(e.1)
        } else {
            None::<DirectoryKeyV>
        },
    decreases s.len(),
{
    if s.len() == 0 {
        assert(s.push(e)[0] == e);
        assert(s.push(e).drop_first() =~= Seq::<ServiceV>::empty());
    } else {
        assert(s.push(e)[0] == s[0]);
        assert(s.push(e).drop_first() =~= s.drop_first().push(e));
        lemma_svc_lookup_push(s.drop_first(), e, name);
    }
}

/// Appending under a fresh label keeps the labels unique.
pub proof fn lemma_svc_unique_push(s: Seq<ServiceV>, e: ServiceV)
    requires
        svc_unique(s),
        !svc_contains(s, e.0),
    ensures
        svc_unique(s.push(e)),
{
    lemma_svc_lookup_not_contains(s, e.0);
    assert forall|i: int, j: int| 0 <= i < j < s.push(e).len() implies (#[trigger] s.push(e)[i]).0
        != (#[trigger] s.push(e)[j]).0 by {
        if j == s.len() {
            assert(s.push(e)[i] == s[i]);
        }
    }
}

/// A label that no service carries differs from every service's label.
pub proof fn lemma_svc_lookup_not_contains(s: Seq<ServiceV>, name: Seq<char>)
    requires
        !svc_contains(s, name),
    ensures
        forall|i: int| 0 <= i < s.len() ==> (#[trigger] s[i]).0 != name,
    decreases s.len(),
{
    if s.len() > 0 {
        lemma_svc_lookup_not_contains(s.drop_first(), name);
        assert(forall|i: int|
            1 <= i < s.len() ==> (#[trigger] s[i]).0 == s.drop_first()[i - 1].0);
    }
}

/// A label that some service carries indexes a service with that label.
pub proof fn lemma_svc_lookup_contains(s: Seq<ServiceV>, name: Seq<char>)
    requires
        svc_contains(s, name),
    ensures
        exists|i: int|
            0 <= i < s.len() && (#[trigger] s[i]).0 == name && s[i].1 == svc_lookup(
                s,
                name,
            )->Some_0,
    decreases s.len(),
{
    if s[0].0 == name {
        assert(s[0].0 == name && s[0].1 == svc_lookup(s, name)->Some_0);
    } else {
        lemma_svc_lookup_contains(s.drop_first(), name);
        let i = choose|i: int|
            0 <= i < s.drop_first().len() && (#[trigger] s.drop_first()[i]).0 == name
                && s.drop_first()[i].1 == svc_lookup(s.drop_first(), name)->Some_0;
        assert(s[i + 1] == s.drop_first()[i]);
    }
}

/// A service just added resolves to exactly the location it was added
/// with, and a second addition under the same label is rejected: after an
/// addition under a fresh label appends its pair, that label resolves to
/// the given location, so the record now carries it.
pub proof fn lemma_added_service_resolves(s: Seq<ServiceV>, name: Seq<char>, loc: DirectoryKeyV)
    requires
        !svc_contains(s, name),
    ensures
        svc_lookup(s.push((name, loc)), name) == Some(loc),
        svc_contains(s.push((name, loc)), name),
{
    lemma_svc_lookup_push(s, (name, loc), name);
}

/// The first service with a label resolves the label.
pub proof fn lemma_svc_lookup_at(s: Seq<ServiceV>, name: Seq<char>, j: int)
    requires
        0 <= j < s.len(),
        s[j].0 == name,
        forall|k: int| 0 <= k < j ==> (#[trigger] s[k]).0 != name,
    ensures
        svc_lookup(s, name) == Some(s[j].1),
    decreases s.len(),
{
    if j > 0 {
        let t = s.drop_first();
        assert(forall|k: int| 0 <= k < j - 1 ==> (#[trigger] t[k]).0 == s[k + 1].0);
        lemma_svc_lookup_at(t, name, j - 1);
    }
}

/// Removing the first service of a label removes it at its index.
pub proof fn lemma_svc_remove_at(s: Seq<ServiceV>, name: Seq<char>, j: int)
    requires
        0 <= j < s.len(),
        s[j].0 == name,
        forall|k: int| 0 <= k < j ==> (#[trigger] s[k]).0 != name,
    ensures
        svc_remove(s, name) == s.remove(j),
    decreases s.len(),
{
    if j == 0 {
        assert(svc_remove(s, name) == s.drop_first());
        assert(s.remove(0) =~= s.drop_first());
    } else {
        let t = s.drop_first();
        assert(t[j - 1].0 == name);
        assert(forall|k: int| 0 <= k < j - 1 ==> (#[trigger] t[k]).0 == s[k + 1].0);
        lemma_svc_remove_at(t, name, j - 1);
        assert(seq![s[0]] + t.remove(j - 1) =~= s.remove(j));
    }
}

/// After removing a label from a unique list, that label resolves to
/// nothing, every other label resolves as before, and labels stay unique.
pub proof fn lemma_svc_remove_lookup(s: Seq<ServiceV>, name: Seq<char>)
    requires
        svc_unique(s),
    ensures
        !svc_contains(svc_remove(s, name), name),
        svc_unique(svc_remove(s, name)),
        forall|other: Seq<char>|
            other != name ==> #[trigger] svc_lookup(svc_remove(s, name), other) == svc_lookup(
                s,
                other,
            ),
    decreases s.len(),
{
    if s.len() == 0 {
    } else if s[0].0 == name {
        let t = s.drop_first();
        assert(svc_remove(s, name) == t);
        assert(forall|i: int| 0 <= i < t.len() ==> (#[trigger] t[i]).0 == s[i + 1].0);
        if svc_contains(t, name) {
            lemma_svc_lookup_contains(t, name);
            assert(false);
        }
        assert forall|other: Seq<char>| other != name implies #[trigger] svc_lookup(
            svc_remove(s, name),
            other,
        ) == svc_lookup(s, other) by {
            assert(svc_lookup(s, other) == svc_lookup(t, other));
        }
    } else {
        let t = s.drop_first();
        assert(forall|i: int, j: int|
            0 <= i < j < t.len() ==> (#[trigger] t[i]).0 != (#[trigger] t[j]).0) by {
            assert(forall|i: int| 0 <= i < t.len() ==> (#[trigger] t[i]).0 == s[i + 1].0);
        }
        lemma_svc_remove_lookup(t, name);
        let rem = seq![s[0]] + svc_remove(t, name);
        assert(svc_remove(s, name) == rem);
        assert(rem[0] == s[0]);
        assert(rem.drop_first() =~= svc_remove(t, name));
        assert(svc_lookup(rem, name) == svc_lookup(svc_remove(t, name), name));
        assert forall|other: Seq<char>| other != name implies #[trigger] svc_lookup(
            svc_remove(s, name),
            other,
        ) == svc_lookup(s, other) by {
            if rem[0].0 == other {
                assert(svc_lookup(rem, other) == Some(rem[0].1));
                assert(svc_lookup(s, other) == Some(s[0].1));
            } else {
                assert(svc_lookup(rem, other) == svc_lookup(svc_remove(t, name), other));
                assert(svc_lookup(svc_remove(t, name), other) == svc_lookup(t, other));
                assert(svc_lookup(s, other) == svc_lookup(t, other));
            }
        }
        assert forall|i: int, j: int| 0 <= i < j < rem.len() implies (#[trigger] rem[i]).0 != (
        #[trigger] rem[j]).0 by {
            if i == 0 {
                lemma_svc_remove_is_subset(t, name, j - 1);
                let k = choose|k: int|
                    0 <= k < t.len() && #[trigger] t[k] == svc_remove(t, name)[j - 1];
                assert(s[k + 1] == t[k]);
                assert(rem[j] == svc_remove(t, name)[j - 1]);
            } else {
                assert(rem[i] == svc_remove(t, name)[i - 1]);
                assert(rem[j] == svc_remove(t, name)[j - 1]);
            }
        }
    }
}

/// Every service of the trimmed list stands in the list before removal.
pub proof fn lemma_svc_remove_is_subset(s: Seq<ServiceV>, name: Seq<char>, i: int)
    requires
        0 <= i < svc_remove(s, name).len(),
    ensures
        exists|k: int| 0 <= k < s.len() && #[trigger] s[k] == svc_remove(s, name)[i],
    decreases s.len(),
{
    if s.len() == 0 {
    } else if s[0].0 == name {
        assert(s[i + 1] == svc_remove(s, name)[i]);
    } else {
        let rem = seq![s[0]] + svc_remove(s.drop_first(), name);
        if i == 0 {
            assert(s[0] == rem[0]);
        } else {
            lemma_svc_remove_is_subset(s.drop_first(), name, i - 1);
            let k = choose|k: int|
                0 <= k < s.drop_first().len() && #[trigger] s.drop_first()[k] == svc_remove(
                    s.drop_first(),
                    name,
                )[i - 1];
            assert(s[k + 1] == rem[i]);
        }
    }
}

// ---------------------------------------------------------------------------
// The record itself.
// ---------------------------------------------------------------------------

/// Mathematical value of a [`Dns`] record.
pub struct DnsV {
    /// The claimed long name; immutable once the record is created.
    pub long_name: Seq<char>,
    /// Public half of the owner's messaging keypair.
    pub encryption_key: Seq<u8>,
    /// The named services, labels unique, in insertion order.
    pub services: Seq<ServiceV>,
}

/// The public name record.
#[derive(Debug, PartialEq, Eq)]
pub struct Dns {
    /// The claimed long name; immutable once the record is created.
    pub long_name: String,
    /// Public half of the owner's messaging keypair.
    pub encryption_key: PublicKey,
    /// The named services, labels unique, in insertion order.
    pub services: Vec<(String, DirectoryKey)>,
}

impl View for Dns {
    type V = DnsV;

    open spec fn view(&self) -> DnsV {
        DnsV {
            long_name: self.long_name@,
            encryption_key: self.encryption_key@,
            services: self.services.deep_view(),
        }
    }
}

impl Dns {
    /// The messaging key has the size of the underlying primitive, and no
    /// two services carry the same label.
    pub open spec fn wf(&self) -> bool {
        dns_wf(self@)
    }
}

/// The messaging key has the size of the underlying primitive, and no two
/// services carry the same label.
pub open spec fn dns_wf(d: DnsV) -> bool {
    &&& d.encryption_key.len() == PUBLICKEYBYTES
    &&& svc_unique(d.services)
}

/// The record can be written: well formed, with every text and address
/// fitting behind a length prefix.  Every record built from run-time values
/// fits.
pub open spec fn dns_encodable(d: DnsV) -> bool {
    &&& dns_wf(d)
    &&& encode_utf8(d.long_name).len() <= u64::MAX
    &&& d.services.len() <= u64::MAX
    &&& forall|i: int|
        0 <= i < d.services.len() ==> encode_utf8((#[trigger] d.services[i]).0).len() <= u64::MAX
            && d.services[i].1.id.len() <= u64::MAX
}

// ---------------------------------------------------------------------------
// The record format: schema tag, name, fixed-size messaging key, service
// count, then each service as its label followed by its location.
// ---------------------------------------------------------------------------

/// Encoding of one service.
pub open spec fn enc_service(p: ServiceV) -> Seq<u8> {
    enc_str(p.0) + enc_dir_key(p.1)
}

/// Decoding of one service from a prefix.
pub open spec fn dec_service(b: Seq<u8>) -> Option<(ServiceV, Seq<u8>)> {
    match dec_str(b) {
        None => None,
        Some((name, b1)) => match dec_dir_key(b1) {
            None => None,
            Some((key, b2)) => Some(((name, key), b2)),
        },
    }
}

/// Encoding of a sequence of services, in order.
pub open spec fn enc_services(s: Seq<ServiceV>) -> Seq<u8>
    decreases s.len(),
{
    if s.len() == 0 {
        Seq::empty()
    } else {
        enc_service(s[0]) + enc_services(s.drop_first())
    }
}

/// Decoding of a known number of services from a prefix.
pub open spec fn dec_services(b: Seq<u8>, n: nat) -> Option<(Seq<ServiceV>, Seq<u8>)>
    decreases n,
{
    if n == 0 {
        Some((Seq::empty(), b))
    } else {
        match dec_service(b) {
            None => None,
            Some((p, r)) => match dec_services(r, (n - 1) as nat) {
                None => None,
                Some((ps, r2)) => Some((seq![p] + ps, r2)),
            },
        }
    }
}

/// Encoding of the whole record.
pub open spec fn enc_dns(d: DnsV) -> Seq<u8> {
    enc_u64(SCHEMA_TAG) + enc_str(d.long_name) + d.encryption_key + enc_u64(
        d.services.len() as u64,
    ) + enc_services(d.services)
}

/// Decoding of the whole record.  The bytes decode only when the schema tag
/// matches, the service labels are unique, and nothing follows the last
/// service.
pub open spec fn dec_dns(b: Seq<u8>) -> Option<DnsV> {
    match dec_u64(b) {
        None => None,
        Some((tag, b1)) => if tag != SCHEMA_TAG {
            None
        } else {
            match dec_str(b1) {
                None => None,
                Some((long_name, b2)) => match dec_fixed(b2, PUBLICKEYBYTES as nat) {
                    None => None,
                    Some((encryption_key, b3)) => match dec_u64(b3) {
                        None => None,
                        Some((n, b4)) => match dec_services(b4, n as nat) {
                            None => None,
                            Some((services, r)) => if r.len() == 0 && svc_unique(services) {
                                Some(DnsV { long_name, encryption_key, services })
                            } else {
                                None
                            },
                        },
                    },
                },
            }
        },
    }
}

// ---------------------------------------------------------------------------
// Round trips of the record format.
// ---------------------------------------------------------------------------

/// A service followed by anything decodes to it and the rest.
pub proof fn lemma_dec_enc_service(p: ServiceV, rest: Seq<u8>)
    requires
        encode_utf8(p.0).len() <= u64::MAX,
        p.1.id.len() <= u64::MAX,
    ensures
        dec_service(enc_service(p) + rest) == Some((p, rest)),
{
    assert(enc_service(p) + rest =~= enc_str(p.0) + (enc_dir_key(p.1) + rest));
    lemma_dec_enc_str(p.0, enc_dir_key(p.1) + rest);
    lemma_dec_enc_dir_key(p.1, rest);
}

/// What a service decoder consumed was the encoding of its result.
pub proof fn lemma_enc_dec_service(b: Seq<u8>)
    requires
        dec_service(b) is Some,
    ensures
        enc_service(dec_service(b)->Some_0.0) + dec_service(b)->Some_0.1 == b,
        encode_utf8(dec_service(b)->Some_0.0.0).len() <= u64::MAX,
        dec_service(b)->Some_0.0.1.id.len() <= u64::MAX,
{
    lemma_enc_dec_str(b);
    let (name, b1) = dec_str(b)->Some_0;
    lemma_enc_dec_dir_key(b1);
    assert(enc_service(dec_service(b)->Some_0.0) + dec_service(b)->Some_0.1 =~= b);
}

/// A sequence of services followed by anything decodes to it and the rest.
pub proof fn lemma_dec_enc_services(s: Seq<ServiceV>, rest: Seq<u8>)
    requires
        forall|i: int|
            0 <= i < s.len() ==> encode_utf8((#[trigger] s[i]).0).len() <= u64::MAX
                && s[i].1.id.len() <= u64::MAX,
    ensures
        dec_services(enc_services(s) + rest, s.len()) == Some((s, rest)),
    decreases s.len(),
{
    if s.len() == 0 {
        assert(enc_services(s) + rest =~= rest);
    } else {
        let p = s[0];
        let tail = s.drop_first();
        assert(enc_services(s) + rest =~= enc_service(p) + (enc_services(tail) + rest));
        lemma_dec_enc_service(p, enc_services(tail) + rest);
        assert(forall|i: int| 0 <= i < tail.len() ==> #[trigger] tail[i] == s[i + 1]);
        lemma_dec_enc_services(tail, rest);
        assert(seq![p] + tail =~= s);
    }
}

/// What a service-sequence decoder consumed was the encoding of its result.
pub proof fn lemma_enc_dec_services(b: Seq<u8>, n: nat)
    requires
        dec_services(b, n) is Some,
    ensures
        enc_services(dec_services(b, n)->Some_0.0) + dec_services(b, n)->Some_0.1 == b,
        dec_services(b, n)->Some_0.0.len() == n,
        forall|i: int|
            0 <= i < n ==> encode_utf8((#[trigger] dec_services(b, n)->Some_0.0[i]).0).len()
                <= u64::MAX && dec_services(b, n)->Some_0.0[i].1.id.len() <= u64::MAX,
    decreases n,
{
    if n == 0 {
        assert(enc_services(Seq::<ServiceV>::empty()) + b =~= b);
    } else {
        lemma_enc_dec_service(b);
        let (p, r) = dec_service(b)->Some_0;
        lemma_enc_dec_services(r, (n - 1) as nat);
        let (ps, r2) = dec_services(r, (n - 1) as nat)->Some_0;
        let whole = seq![p] + ps;
        assert(whole.drop_first() =~= ps);
        assert(whole[0] == p);
        assert(enc_services(whole) == enc_service(p) + enc_services(ps));
        vstd::seq_lib::lemma_concat_associative(enc_service(p), enc_services(ps), r2);
        assert(enc_services(whole) + r2 == b);
        assert(forall|i: int|
            0 <= i < whole.len() ==> #[trigger] whole[i] == if i == 0 {
                p
            } else {
                ps[i - 1]
            });
    }
}

/// An encodable record decodes back to itself.
pub proof fn lemma_dns_round_trip(d: DnsV)
    requires
        dns_encodable(d),
    ensures
        dec_dns(enc_dns(d)) == Some(d),
{
    let n = d.services.len() as u64;
    let body = enc_services(d.services);
    assert(enc_dns(d) =~= enc_u64(SCHEMA_TAG) + (enc_str(d.long_name) + (d.encryption_key + (
    enc_u64(n) + body))));
    lemma_dec_enc_u64(SCHEMA_TAG, enc_str(d.long_name) + (d.encryption_key + (enc_u64(n) + body)));
    lemma_dec_enc_str(d.long_name, d.encryption_key + (enc_u64(n) + body));
    lemma_dec_enc_fixed(d.encryption_key, enc_u64(n) + body);
    lemma_dec_enc_u64(n, body);
    assert(body + Seq::<u8>::empty() =~= body);
    lemma_dec_enc_services(d.services, Seq::<u8>::empty());
}

/// What a record decoder consumed was the encoding of its result, and that
/// result is well formed and encodable.
#[verifier::rlimit(50)]
pub proof fn lemma_dns_canonical(b: Seq<u8>)
    requires
        dec_dns(b) is Some,
    ensures
        enc_dns(dec_dns(b)->Some_0) == b,
        dns_encodable(dec_dns(b)->Some_0),
{
    lemma_enc_dec_u64(b);
    let (tag, b1) = dec_u64(b)->Some_0;
    lemma_enc_dec_str(b1);
    let (long_name, b2) = dec_str(b1)->Some_0;
    lemma_enc_dec_fixed(b2, PUBLICKEYBYTES as nat);
    let (key, b3) = dec_fixed(b2, PUBLICKEYBYTES as nat)->Some_0;
    lemma_enc_dec_u64(b3);
    let (n, b4) = dec_u64(b3)->Some_0;
    lemma_enc_dec_services(b4, n as nat);
    let (services, r) = dec_services(b4, n as nat)->Some_0;
    let d = dec_dns(b)->Some_0;
    assert(r =~= Seq::<u8>::empty());
    assert(b4 =~= enc_services(services));
    assert(d.services.len() as u64 == n);
    let inner3 = enc_u64(n) + enc_services(services);
    assert(b3 == inner3);
    let inner2 = key + inner3;
    assert(b2 == inner2);
    let inner1 = enc_str(long_name) + inner2;
    assert(b1 == inner1);
    assert(b == enc_u64(tag) + inner1);
    vstd::seq_lib::lemma_concat_associative(enc_u64(tag), enc_str(long_name), inner2);
    vstd::seq_lib::lemma_concat_associative(
        enc_u64(tag) + enc_str(long_name),
        key,
        inner3,
    );
    vstd::seq_lib::lemma_concat_associative(
        enc_u64(tag) + enc_str(long_name) + key,
        enc_u64(n),
        enc_services(services),
    );
    assert(enc_dns(d) == b);
}

// ---------------------------------------------------------------------------
// Executable encoding and decoding of the record.
// ---------------------------------------------------------------------------

impl Dns {
    /// Serialises the record.  A well-formed record decodes back to itself.
    pub fn encode(&self) -> (r: Vec<u8>)
        ensures
            r@ == enc_dns(self@),
            self.wf() ==> dec_dns(r@) == Some(self@),
            encode_utf8(self@.long_name).len() <= u64::MAX,
    {
        let mut out: Vec<u8> = Vec::new();
        put_u64(&mut out, SCHEMA_TAG);
        put_str(&mut out, self.long_name.as_str());
        let mut key = clone_bytes(&self.encryption_key.0);
        out.append(&mut key);
        put_u64(&mut out, self.services.len() as u64);
        let mut i: usize = 0;
        while i < self.services.len()
            invariant
                i <= self.services.len(),
                out@ == enc_u64(SCHEMA_TAG) + enc_str(self@.long_name) + self@.encryption_key
                    + enc_u64(self@.services.len() as u64) + enc_services(
                    self@.services.take(i as int),
                ),
                forall|j: int|
                    0 <= j < i ==> encode_utf8((#[trigger] self@.services[j]).0).len() <= u64::MAX
                        && self@.services[j].1.id.len() <= u64::MAX,
            decreases self.services.len() - i,
        {
            let ghost prefix = self@.services.take(i as int);
            put_service(&mut out, &self.services[i]);
            proof {
                lemma_enc_services_push(prefix, self@.services[i as int]);
                assert(prefix.push(self@.services[i as int]) =~= self@.services.take(i as int + 1));
            }
            i = i + 1;
        }
        proof {
            assert(self@.services.take(self.services.len() as int) =~= self@.services);
            assert(out@ =~= enc_dns(self@));
            if self.wf() {
                lemma_dns_round_trip(self@);
            }
        }
        out
    }

    /// Deserialises a record, or reports that the bytes are of a different
    /// kind than a name record.
    pub fn decode(data: &Vec<u8>) -> (r: Result<Dns, DnsError>)
        ensures
            match r {
                Ok(d) => dec_dns(data@) == Some(d@) && d.wf(),
                Err(e) => e == DnsError::UnexpectedRecordType && dec_dns(data@) is None,
            },
    {
        match decode_dns(data.as_slice()) {
            Some(d) => {
                proof {
                    lemma_dns_canonical(data@);
                }
                Ok(d)
            },
            None => Err(DnsError::UnexpectedRecordType),
        }
    }
}

/// Appending one service to an encoded sequence encodes the pushed sequence.
proof fn lemma_enc_services_push(s: Seq<ServiceV>, p: ServiceV)
    ensures
        enc_services(s.push(p)) == enc_services(s) + enc_service(p),
    decreases s.len(),
{
    if s.len() == 0 {
        assert(s.push(p).drop_first() =~= Seq::<ServiceV>::empty());
        assert(s.push(p)[0] == p);
        assert(enc_services(s.push(p)) == enc_service(p) + enc_services(
            Seq::<ServiceV>::empty(),
        ));
        assert(enc_services(s.push(p)) =~= enc_services(s) + enc_service(p));
    } else {
        assert(s.push(p).drop_first() =~= s.drop_first().push(p));
        assert(s.push(p)[0] == s[0]);
        lemma_enc_services_push(s.drop_first(), p);
        assert(enc_services(s.push(p)) == enc_service(s[0]) + enc_services(
            s.drop_first().push(p),
        ));
        assert(enc_services(s.push(p)) =~= enc_services(s) + enc_service(p));
    }
}

/// Writes one service.
fn put_service(out: &mut Vec<u8>, p: &(String, DirectoryKey))
    ensures
        final(out)@ == old(out)@ + enc_service(p.deep_view()),
        encode_utf8(p.0@).len() <= u64::MAX,
        p.1@.id.len() <= u64::MAX,
{
    put_str(out, p.0.as_str());
    put_dir_key(out, &p.1);
    proof {
        assert(final(out)@ =~= old(out)@ + enc_service(p.deep_view()));
    }
}

/// Reads one service.
fn read_service<'a>(b: &'a [u8]) -> (r: Option<((String, DirectoryKey), &'a [u8])>)
    ensures
        match r {
            Some(p) => dec_service(b@) == Some((p.0.deep_view(), p.1@)),
            None => dec_service(b@) is None,
        },
{
    match read_str(b) {
        None => None,
        Some((name, b1)) => match read_dir_key(b1) {
            None => None,
            Some((key, b2)) => Some(((name, key), b2)),
        },
    }
}

/// Position of the first service with the given label, if any.
pub fn services_find(services: &Vec<(String, DirectoryKey)>, name: &String) -> (r: Option<usize>)
    ensures
        match r {
            Some(j) => {
                &&& j < services.deep_view().len()
                &&& services.deep_view()[j as int].0 == name@
                &&& forall|k: int|
                    0 <= k < j ==> (#[trigger] services.deep_view()[k]).0 != name@
                &&& svc_lookup(services.deep_view(), name@) == Some(
                    services.deep_view()[j as int].1,
                )
            },
            None => !svc_contains(services.deep_view(), name@),
        },
{
    let ghost s = services.deep_view();
    proof {
        assert(s.skip(0) =~= s);
    }
    let mut i: usize = 0;
    while i < services.len()
        invariant
            i <= services.len(),
            s == services.deep_view(),
            s.len() == services.len(),
            svc_lookup(s, name@) == svc_lookup(s.skip(i as int), name@),
            forall|j: int| 0 <= j < i ==> (#[trigger] s[j]).0 != name@,
        decreases services.len() - i,
    {
        if services[i].0.eq(name) {
            proof {
                lemma_svc_lookup_at(s, name@, i as int);
            }
            return Some(i);
        }
        proof {
            assert(s.skip(i as int)[0] == s[i as int]);
            assert(s.skip(i as int).drop_first() =~= s.skip(i as int + 1));
        }
        i = i + 1;
    }
    proof {
        assert(s.skip(s.len() as int) =~= Seq::<ServiceV>::empty());
    }
    None
}

/// Whether some service of the list carries the given label.
pub fn services_contain(services: &Vec<(String, DirectoryKey)>, name: &String) -> (r: bool)
    ensures
        r == svc_contains(services.deep_view(), name@),
{
    services_find(services, name).is_some()
}

/// Decodes a whole record.
fn decode_dns(b: &[u8]) -> (r: Option<Dns>)
    ensures
        match r {
            Some(d) => dec_dns(b@) == Some(d@),
            None => dec_dns(b@) is None,
        },
{
    let (tag, b1) = match read_u64(b) {
        None => {
            return None;
        },
        Some(p) => p,
    };
    if tag != SCHEMA_TAG {
        return None;
    }
    let (long_name, b2) = match read_str(b1) {
        None => {
            return None;
        },
        Some(p) => p,
    };
    let (key, b3) = match read_fixed(b2, PUBLICKEYBYTES) {
        None => {
            return None;
        },
        Some(p) => p,
    };
    let (n, b4) = match read_u64(b3) {
        None => {
            return None;
        },
        Some(p) => p,
    };
    let mut services: Vec<(String, DirectoryKey)> = Vec::new();
    let mut cur: &[u8] = b4;
    let mut i: u64 = 0;
    let ghost full = dec_dns(b@);
    while i < n
        invariant
            i <= n,
            services.deep_view().len() == i,
            svc_unique(services.deep_view()),
            dec_services(b4@, n as nat) == match dec_services(cur@, (n - i) as nat) {
                Some(p) => Some((services.deep_view() + p.0, p.1)),
                None => None::<(Seq<ServiceV>, Seq<u8>)>,
            },
            full == match dec_services(b4@, n as nat) {
                Some(p) => if p.1.len() == 0 && svc_unique(p.0) {
                    Some(
                        DnsV {
                            long_name: long_name@,
                            encryption_key: key@,
                            services: p.0,
                        },
                    )
                } else {
                    None::<DnsV>
                },
                None => None::<DnsV>,
            },
            full == dec_dns(b@),
        decreases n - i,
    {
        let (p, rest) = match read_service(cur) {
            None => {
                proof {
                    assert(dec_services(cur@, (n - i) as nat) is None);
                }
                return None;
            },
            Some(p) => p,
        };
        if services_contain(&services, &p.0) {
            proof {
                if dec_services(cur@, (n - i) as nat) is Some {
                    let (ps, _r2) = dec_services(cur@, (n - i) as nat)->Some_0;
                    let (tail, _r3) = dec_services(rest@, (n - i - 1) as nat)->Some_0;
                    assert(ps == seq![p.deep_view()] + tail);
                    assert(ps[0] == p.deep_view());
                    lemma_dup_service_not_unique(
                        services.deep_view(),
                        dec_services(cur@, (n - i) as nat),
                        dec_services(b4@, n as nat),
                        p.0@,
                    );
                }
            }
            return None;
        }
        let ghost old_services = services.deep_view();
        proof {
            lemma_svc_unique_push(old_services, p.deep_view());
        }
        services.push(p);
        proof {
            assert(services.deep_view() =~= old_services.push(p.deep_view()));
            if dec_services(rest@, (n - i - 1) as nat) is Some {
                let (ps, r2) = dec_services(rest@, (n - i - 1) as nat)->Some_0;
                assert(old_services + (seq![p.deep_view()] + ps) =~= old_services.push(
                    p.deep_view(),
                ) + ps);
            }
        }
        cur = rest;
        i = i + 1;
    }
    proof {
        assert(dec_services(cur@, 0) == Some((Seq::<ServiceV>::empty(), cur@)));
        assert(services.deep_view() + Seq::<ServiceV>::empty() =~= services.deep_view());
    }
    if cur.len() == 0 {
        Some(Dns { long_name, encryption_key: PublicKey(key), services })
    } else {
        None
    }
}

/// A decoded service list that repeats a label already taken is not unique,
/// so the whole record does not decode.
proof fn lemma_dup_service_not_unique(
    acc: Seq<ServiceV>,
    remaining: Option<(Seq<ServiceV>, Seq<u8>)>,
    whole: Option<(Seq<ServiceV>, Seq<u8>)>,
    name: Seq<char>,
)
    requires
        svc_contains(acc, name),
        remaining is Some,
        remaining->Some_0.0.len() > 0,
        remaining->Some_0.0[0].0 == name,
        whole == Some((acc + remaining->Some_0.0, remaining->Some_0.1)),
    ensures
        !svc_unique(whole->Some_0.0),
{
    let tail = remaining->Some_0.0;
    let all = acc + tail;
    lemma_svc_lookup_contains(acc, name);
    let i = choose|i: int| 0 <= i < acc.len() && (#[trigger] acc[i]).0 == name;
    assert(all[i] == acc[i]);
    assert(all[acc.len() as int] == tail[0]);
    assert(!svc_unique(all)) by {
        assert(all[i].0 == all[acc.len() as int].0);
    }
}

} // verus!
