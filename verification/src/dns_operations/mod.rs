//! Operations of the name registry: claiming and deleting long names, and
//! adding, removing and resolving services under them.
//!
//! A [`DnsOperations`] value holds the registrant's private configuration
//! index, one entry per claimed name.  Every mutation returns the versioned
//! record for the caller to sign and publish through the record-store
//! collaborator, and the caller persists the configuration through the
//! file-storage collaborator before publishing, so that a crash between the
//! two leaves the name reserved locally for retry.

pub mod dns_configuration;
pub mod dns_record;

use vstd::prelude::*;
use vstd::seq::Seq;
use crate::errors::DnsError;
use crate::keys::{clone_sign_keys, PublicKey, SecretKey, SignPublicKey};
use crate::storage::{DirectoryKey, FetchedData, StructuredData};
use crate::DNS_TAG;
use dns_configuration::{config_entries_encodable, DnsConfiguation, DnsConfiguationV};
use dns_record::{
    dec_dns, lemma_svc_unique_push, services_find, svc_contains, svc_lookup,
    svc_names, svc_remove, svc_unique, Dns, DnsV, ServiceV,
};

verus! {

// ---------------------------------------------------------------------------
// The configuration index as a mathematical object: lookup of the entry
// under a name (first match), removal of a name, uniqueness of names.
// ---------------------------------------------------------------------------

/// The first entry under the given name, if any.
pub open spec fn config_lookup(s: Seq<DnsConfiguationV>, name: Seq<char>) -> Option<
    DnsConfiguationV,
>
    decreases s.len(),
{
    if s.len() == 0 {
        None
    } else if s[0].long_name == name {
        Some(s[0])
    } else {
        config_lookup(s.drop_first(), name)
    }
}

/// Whether some entry claims the given name.
pub open spec fn contains_name(s: Seq<DnsConfiguationV>, name: Seq<char>) -> bool {
    config_lookup(s, name) is Some
}

/// The index with the first entry under the given name removed.
pub open spec fn config_remove(s: Seq<DnsConfiguationV>, name: Seq<char>) -> Seq<DnsConfiguationV>
    decreases s.len(),
{
    if s.len() == 0 {
        s
    } else if s[0].long_name == name {
        s.drop_first()
    } else {
        seq![s[0]] + config_remove(s.drop_first(), name)
    }
}

/// The claimed names, in the order of the entries.
pub open spec fn config_names(s: Seq<DnsConfiguationV>) -> Seq<Seq<char>> {
    s.map_values(|e: DnsConfiguationV| e.long_name)
}

/// No two entries claim the same name.
pub open spec fn config_names_unique(s: Seq<DnsConfiguationV>) -> bool {
    forall|i: int, j: int|
        0 <= i < j < s.len() ==> (#[trigger] s[i]).long_name != (#[trigger] s[j]).long_name
}

/// The first entry under a name resolves that name.
pub proof fn lemma_config_lookup_at(s: Seq<DnsConfiguationV>, name: Seq<char>, j: int)
    requires
        0 <= j < s.len(),
        s[j].long_name == name,
        forall|k: int| 0 <= k < j ==> (#[trigger] s[k]).long_name != name,
    ensures
        config_lookup(s, name) == Some(s[j]),
    decreases s.len(),
{
    if j > 0 {
        let t = s.drop_first();
        assert(forall|k: int| 0 <= k < j - 1 ==> (#[trigger] t[k]).long_name == s[k + 1].long_name);
        lemma_config_lookup_at(t, name, j - 1);
    }
}

/// A name that no entry claims differs from every entry's name.
pub proof fn lemma_config_lookup_not_contains(s: Seq<DnsConfiguationV>, name: Seq<char>)
    requires
        !contains_name(s, name),
    ensures
        forall|i: int| 0 <= i < s.len() ==> (#[trigger] s[i]).long_name != name,
    decreases s.len(),
{
    if s.len() > 0 {
        lemma_config_lookup_not_contains(s.drop_first(), name);
        assert(forall|i: int|
            1 <= i < s.len() ==> (#[trigger] s[i]).long_name == s.drop_first()[i - 1].long_name);
    }
}

/// An entry appended under a fresh name is found under that name, and every
/// other name still resolves as before.
pub proof fn lemma_config_lookup_push(s: Seq<DnsConfiguationV>, e: DnsConfiguationV, name: Seq<char>)
    ensures
        config_lookup(s.push(e), name) == if config_lookup(s, name) is Some {
            config_lookup(s, name)
        } else if e.long_name == name {
            Some(e)
        } else {
            None::<DnsConfiguationV>
        },
    decreases s.len(),
{
    if s.len() == 0 {
        assert(s.push(e)[0] == e);
        assert(s.push(e).drop_first() =~= Seq::<DnsConfiguationV>::empty());
    } else {
        assert(s.push(e)[0] == s[0]);
        assert(s.push(e).drop_first() =~= s.drop_first().push(e));
        lemma_config_lookup_push(s.drop_first(), e, name);
    }
}

/// Appending under a fresh name keeps the names unique.
pub proof fn lemma_config_unique_push(s: Seq<DnsConfiguationV>, e: DnsConfiguationV)
    requires
        config_names_unique(s),
        !contains_name(s, e.long_name),
    ensures
        config_names_unique(s.push(e)),
{
    lemma_config_lookup_not_contains(s, e.long_name);
    assert forall|i: int, j: int| 0 <= i < j < s.push(e).len() implies (
    #[trigger] s.push(e)[i]).long_name != (#[trigger] s.push(e)[j]).long_name by {
        if j == s.len() {
            assert(s.push(e)[i] == s[i]);
        }
    }
}

/// Removing the first entry under a name removes it at its index.
pub proof fn lemma_config_remove_at(s: Seq<DnsConfiguationV>, name: Seq<char>, j: int)
    requires
        0 <= j < s.len(),
        s[j].long_name == name,
        forall|k: int| 0 <= k < j ==> (#[trigger] s[k]).long_name != name,
    ensures
        config_remove(s, name) == s.remove(j),
    decreases s.len(),
{
    if j == 0 {
        assert(s.remove(0) =~= s.drop_first());
    } else {
        let t = s.drop_first();
        assert(forall|k: int| 0 <= k < j - 1 ==> (#[trigger] t[k]).long_name == s[k + 1].long_name);
        lemma_config_remove_at(t, name, j - 1);
        assert(seq![s[0]] + t.remove(j - 1) =~= s.remove(j));
    }
}

/// Every entry of the trimmed index stands in the index before removal.
pub proof fn lemma_config_remove_is_subset(s: Seq<DnsConfiguationV>, name: Seq<char>, i: int)
    requires
        0 <= i < config_remove(s, name).len(),
    ensures
        exists|k: int| 0 <= k < s.len() && #[trigger] s[k] == config_remove(s, name)[i],
    decreases s.len(),
{
    if s.len() == 0 {
    } else if s[0].long_name == name {
        assert(s[i + 1] == config_remove(s, name)[i]);
    } else {
        let rem = seq![s[0]] + config_remove(s.drop_first(), name);
        if i == 0 {
            assert(s[0] == rem[0]);
        } else {
            lemma_config_remove_is_subset(s.drop_first(), name, i - 1);
            let k = choose|k: int|
                0 <= k < s.drop_first().len() && #[trigger] s.drop_first()[k] == config_remove(
                    s.drop_first(),
                    name,
                )[i - 1];
            assert(s[k + 1] == rem[i]);
        }
    }
}

/// An entry found under a name stands in the index somewhere.
pub proof fn lemma_config_lookup_contains(s: Seq<DnsConfiguationV>, name: Seq<char>)
    requires
        contains_name(s, name),
    ensures
        exists|i: int|
            0 <= i < s.len() && (#[trigger] s[i]).long_name == name && s[i] == config_lookup(
                s,
                name,
            )->Some_0,
    decreases s.len(),
{
    if s[0].long_name == name {
        assert(s[0].long_name == name && s[0] == config_lookup(s, name)->Some_0);
    } else {
        lemma_config_lookup_contains(s.drop_first(), name);
        let i = choose|i: int|
            0 <= i < s.drop_first().len() && (#[trigger] s.drop_first()[i]).long_name == name
                && s.drop_first()[i] == config_lookup(s.drop_first(), name)->Some_0;
        assert(s[i + 1] == s.drop_first()[i]);
    }
}

/// After removing a name from a unique index, that name resolves to
/// nothing, every other name resolves as before, and names stay unique.
pub proof fn lemma_config_remove_lookup(s: Seq<DnsConfiguationV>, name: Seq<char>)
    requires
        config_names_unique(s),
    ensures
        !contains_name(config_remove(s, name), name),
        config_names_unique(config_remove(s, name)),
        forall|other: Seq<char>|
            other != name ==> #[trigger] config_lookup(config_remove(s, name), other)
                == config_lookup(s, other),
    decreases s.len(),
{
    if s.len() == 0 {
    } else if s[0].long_name == name {
        let t = s.drop_first();
        assert(config_remove(s, name) == t);
        assert(forall|i: int| 0 <= i < t.len() ==> (#[trigger] t[i]).long_name == s[i + 1].long_name);
        if contains_name(t, name) {
            lemma_config_lookup_contains(t, name);
            assert(false);
        }
        assert forall|other: Seq<char>| other != name implies #[trigger] config_lookup(
            config_remove(s, name),
            other,
        ) == config_lookup(s, other) by {
            assert(config_lookup(s, other) == config_lookup(t, other));
        }
    } else {
        let t = s.drop_first();
        assert(forall|i: int, j: int|
            0 <= i < j < t.len() ==> (#[trigger] t[i]).long_name != (
            #[trigger] t[j]).long_name) by {
            assert(forall|i: int|
                0 <= i < t.len() ==> (#[trigger] t[i]).long_name == s[i + 1].long_name);
        }
        lemma_config_remove_lookup(t, name);
        let rem = seq![s[0]] + config_remove(t, name);
        assert(config_remove(s, name) == rem);
        assert(rem[0] == s[0]);
        assert(rem.drop_first() =~= config_remove(t, name));
        assert(config_lookup(rem, name) == config_lookup(config_remove(t, name), name));
        assert forall|other: Seq<char>| other != name implies #[trigger] config_lookup(
            config_remove(s, name),
            other,
        ) == config_lookup(s, other) by {
            if rem[0].long_name == other {
                assert(config_lookup(rem, other) == Some(rem[0]));
                assert(config_lookup(s, other) == Some(s[0]));
            } else {
                assert(config_lookup(rem, other) == config_lookup(config_remove(t, name), other));
                assert(config_lookup(config_remove(t, name), other) == config_lookup(t, other));
                assert(config_lookup(s, other) == config_lookup(t, other));
            }
        }
        assert forall|i: int, j: int| 0 <= i < j < rem.len() implies (
        #[trigger] rem[i]).long_name != (#[trigger] rem[j]).long_name by {
            if i == 0 {
                lemma_config_remove_is_subset(t, name, j - 1);
                let k = choose|k: int|
                    0 <= k < t.len() && #[trigger] t[k] == config_remove(t, name)[j - 1];
                assert(s[k + 1] == t[k]);
                assert(rem[j] == config_remove(t, name)[j - 1]);
            } else {
                assert(rem[i] == config_remove(t, name)[i - 1]);
                assert(rem[j] == config_remove(t, name)[j - 1]);
            }
        }
    }
}

/// How often a name occurs in a list of names.
pub open spec fn count_names(names: Seq<Seq<char>>, name: Seq<char>) -> nat
    decreases names.len(),
{
    if names.len() == 0 {
        0
    } else {
        (if names[0] == name {
            1nat
        } else {
            0nat
        }) + count_names(names.drop_first(), name)
    }
}

/// A name that no entry claims occurs zero times in the claimed names.
pub proof fn lemma_count_names_zero(s: Seq<DnsConfiguationV>, name: Seq<char>)
    requires
        forall|i: int| 0 <= i < s.len() ==> (#[trigger] s[i]).long_name != name,
    ensures
        count_names(config_names(s), name) == 0,
    decreases s.len(),
{
    if s.len() > 0 {
        let t = s.drop_first();
        assert(forall|i: int| 0 <= i < t.len() ==> (#[trigger] t[i]).long_name == s[i + 1].long_name);
        lemma_count_names_zero(t, name);
        assert(config_names(s).drop_first() =~= config_names(t));
        assert(config_names(s)[0] == s[0].long_name);
    }
}

/// After a registration of a name succeeds, the registered names list that
/// name exactly once: the index claims it, and claims are unique.
pub proof fn lemma_registered_name_listed_once(s: Seq<DnsConfiguationV>, name: Seq<char>)
    requires
        config_names_unique(s),
        contains_name(s, name),
    ensures
        count_names(config_names(s), name) == 1,
    decreases s.len(),
{
    let t = s.drop_first();
    assert(config_names(s).drop_first() =~= config_names(t));
    assert(config_names(s)[0] == s[0].long_name);
    assert(forall|i: int, j: int|
        0 <= i < j < t.len() ==> (#[trigger] t[i]).long_name != (#[trigger] t[j]).long_name) by {
        assert(forall|i: int| 0 <= i < t.len() ==> (#[trigger] t[i]).long_name == s[i + 1].long_name);
    }
    if s[0].long_name == name {
        if contains_name(t, name) {
            lemma_config_lookup_contains(t, name);
            assert(false);
        }
        lemma_config_lookup_not_contains(t, name);
        lemma_count_names_zero(t, name);
    } else {
        lemma_registered_name_listed_once(t, name);
    }
}

/// A second registration of a name just registered is rejected: after a
/// successful registration appends its entry, the index claims the name, and
/// a registration of a claimed name fails with the name-taken error.
pub proof fn lemma_register_twice_rejected(s: Seq<DnsConfiguationV>, e: DnsConfiguationV)
    ensures
        contains_name(s.push(e), e.long_name),
{
    lemma_config_lookup_push(s, e, e.long_name);
}

// ---------------------------------------------------------------------------
// Building a service list from caller-supplied pairs: a later pair under a
// label already taken replaces the earlier location, as inserting into a
// mapping would.
// ---------------------------------------------------------------------------

/// One pair worked into a list: the first service with the same label is
/// replaced, and a fresh label is appended.
pub open spec fn svc_upsert(s: Seq<ServiceV>, e: ServiceV) -> Seq<ServiceV>
    decreases s.len(),
{
    if s.len() == 0 {
        seq![e]
    } else if s[0].0 == e.0 {
        seq![e] + s.drop_first()
    } else {
        seq![s[0]] + svc_upsert(s.drop_first(), e)
    }
}

/// A whole list of pairs worked in from the left, so a later pair wins.
pub open spec fn svc_from_list(l: Seq<ServiceV>) -> Seq<ServiceV>
    decreases l.len(),
{
    if l.len() == 0 {
        Seq::empty()
    } else {
        svc_upsert(svc_from_list(l.drop_last()), l.last())
    }
}

/// Working in a pair under a label already taken replaces that label's
/// first service in place.
pub proof fn lemma_svc_upsert_at(s: Seq<ServiceV>, e: ServiceV, j: int)
    requires
        0 <= j < s.len(),
        s[j].0 == e.0,
        forall|k: int| 0 <= k < j ==> (#[trigger] s[k]).0 != e.0,
    ensures
        svc_upsert(s, e) == s.update(j, e),
    decreases s.len(),
{
    if j == 0 {
        assert(seq![e] + s.drop_first() =~= s.update(0, e));
    } else {
        let t = s.drop_first();
        assert(forall|k: int| 0 <= k < j - 1 ==> (#[trigger] t[k]).0 == s[k + 1].0);
        lemma_svc_upsert_at(t, e, j - 1);
        assert(seq![s[0]] + t.update(j - 1, e) =~= s.update(j, e));
    }
}

/// Working in a pair under a fresh label appends it.
pub proof fn lemma_svc_upsert_absent(s: Seq<ServiceV>, e: ServiceV)
    requires
        !svc_contains(s, e.0),
    ensures
        svc_upsert(s, e) == s.push(e),
    decreases s.len(),
{
    if s.len() == 0 {
        assert(seq![e] =~= s.push(e));
    } else {
        lemma_svc_upsert_absent(s.drop_first(), e);
        assert(seq![s[0]] + s.drop_first().push(e) =~= s.push(e));
    }
}

// ---------------------------------------------------------------------------
// The registry.
// ---------------------------------------------------------------------------

/// The name registry of one registrant: the private index of claimed names.
///
/// The caller decodes the configuration file into the constructor, and after
/// every mutation persists [`DnsOperations::write_dns_configuaration_data`]
/// through the file collaborator before publishing the returned record.
pub struct DnsOperations {
    config: Vec<DnsConfiguation>,
}

impl View for DnsOperations {
    type V = Seq<DnsConfiguationV>;

    closed spec fn view(&self) -> Seq<DnsConfiguationV> {
        self.config.deep_view()
    }
}

impl DnsOperations {
    /// Each claimed name has exactly one entry, and every entry can be
    /// written back to the configuration file.
    pub open spec fn wf(&self) -> bool {
        &&& config_names_unique(self@)
        &&& config_entries_encodable(self@)
    }

    /// Builds the registry over the entries decoded from the configuration
    /// file.  An index that claims a name twice, or holds a key of the
    /// wrong size, counts as corrupted.
    pub fn new(saved_configs: Vec<DnsConfiguation>) -> (r: Result<DnsOperations, DnsError>)
        ensures
            match r {
                Ok(ops) => {
                    &&& ops@ == saved_configs.deep_view()
                    &&& ops.wf()
                },
                Err(e) => {
                    &&& e == DnsError::DnsConfigFileNotFoundOrCorrupted
                    &&& !(config_names_unique(saved_configs.deep_view()) && forall|i: int|
                        0 <= i < saved_configs.deep_view().len()
                            ==> dns_configuration::config_entry_wf(
                            #[trigger] saved_configs.deep_view()[i],
                        ))
                },
            },
    {
        let ghost s = saved_configs.deep_view();
        let mut i: usize = 0;
        while i < saved_configs.len()
            invariant
                i <= saved_configs.len(),
                s == saved_configs.deep_view(),
                s.len() == saved_configs.len(),
                forall|a: int, b: int|
                    0 <= a < b < i ==> (#[trigger] s[a]).long_name != (#[trigger] s[b]).long_name,
                forall|a: int| 0 <= a < i ==> config_entry_encodable_at(s, a),
            decreases saved_configs.len() - i,
        {
            let entry = &saved_configs[i];
            if entry.encryption_keypair.0.0.len() != crate::keys::PUBLICKEYBYTES
                || entry.encryption_keypair.1.0.len() != crate::keys::SECRETKEYBYTES {
                proof {
                    assert(!dns_configuration::config_entry_wf(s[i as int]));
                }
                return Err(DnsError::DnsConfigFileNotFoundOrCorrupted);
            }
            let name_bytes = entry.long_name.as_str().as_bytes_vec();
            let ghost name_bytes_len = name_bytes.len();
            let mut j: usize = 0;
            while j < i
                invariant
                    j <= i,
                    i < saved_configs.len(),
                    s == saved_configs.deep_view(),
                    s.len() == saved_configs.len(),
                    forall|b: int| 0 <= b < j ==> (#[trigger] s[b]).long_name != s[i as int].long_name,
                decreases i - j,
            {
                if saved_configs[j].long_name.eq(&saved_configs[i].long_name) {
                    proof {
                        assert(s[j as int].long_name == s[i as int].long_name);
                        assert(!config_names_unique(s)) by {
                            assert(0 <= j < i < s.len());
                        }
                    }
                    return Err(DnsError::DnsConfigFileNotFoundOrCorrupted);
                }
                j = j + 1;
            }
            proof {
                assert(config_entry_encodable_at(s, i as int));
            }
            i = i + 1;
        }
        let ops = DnsOperations { config: saved_configs };
        proof {
            assert forall|a: int|
                0 <= a < s.len() implies dns_configuration::config_entry_encodable(
                #[trigger] s[a],
            ) by {
                assert(config_entry_encodable_at(s, a));
            }
        }
        Ok(ops)
    }

    /// Builds a registry with no claimed names, for a caller that only
    /// resolves: an unregistered client has no configuration of its own.
    pub fn new_unregistered() -> (r: DnsOperations)
        ensures
            r@ == Seq::<DnsConfiguationV>::empty(),
            r.wf(),
    {
        let r = DnsOperations { config: Vec::new() };
        proof {
            assert(r@ =~= Seq::<DnsConfiguationV>::empty());
        }
        r
    }

    /// The configuration entries as they stand.
    pub fn get_dns_configuaration_data(&self) -> (r: &Vec<DnsConfiguation>)
        ensures
            r.deep_view() == self@,
    {
        &self.config
    }

    /// The content to persist as the configuration file: the caller hands
    /// it to the file collaborator after every successful mutation.
    pub fn write_dns_configuaration_data(&self) -> (r: Vec<u8>)
        requires
            self.wf(),
        ensures
            r@ == dns_configuration::enc_config_file(self@),
            dns_configuration::dec_config_file(r@) == Some(self@),
    {
        let n = self.config.len();
        let r = dns_configuration::write_dns_configuaration_data(&self.config);
        proof {
            assert(self@.len() == n);
            dns_configuration::lemma_config_file_round_trip(self@);
        }
        r
    }

    /// Claims a long name: reserves it in the configuration index and
    /// builds the first version of its public record, carrying the given
    /// services and owned by the given signing keys.  Fails exactly when
    /// the index already claims the name.
    pub fn register_dns(
        &mut self,
        long_name: String,
        public_messaging_encryption_key: &PublicKey,
        secret_messaging_encryption_key: &SecretKey,
        services: &Vec<(String, DirectoryKey)>,
        owners: Vec<SignPublicKey>,
    ) -> (r: Result<StructuredData, DnsError>)
        requires
            old(self).wf(),
            public_messaging_encryption_key.wf(),
            secret_messaging_encryption_key.wf(),
        ensures
            final(self).wf(),
            match r {
                Ok(sd) => {
                    &&& !contains_name(old(self)@, long_name@)
                    &&& final(self)@ == old(self)@.push(
                        DnsConfiguationV {
                            long_name: long_name@,
                            encryption_keypair: (
                                public_messaging_encryption_key@,
                                secret_messaging_encryption_key@,
                            ),
                        },
                    )
                    &&& contains_name(final(self)@, long_name@)
                    &&& sd@.type_tag == DNS_TAG
                    &&& sd@.identifier == long_name@
                    &&& sd@.version == 0
                    &&& sd@.data.len() > 0
                    &&& sd@.owner_keys == owners.deep_view()
                    &&& sd@.previous_owner_keys == Seq::<Seq<u8>>::empty()
                    &&& dec_dns(sd@.data) == Some(
                        DnsV {
                            long_name: long_name@,
                            encryption_key: public_messaging_encryption_key@,
                            services: svc_from_list(services.deep_view()),
                        },
                    )
                },
                Err(e) => {
                    &&& e == DnsError::DnsNameAlreadyRegistered
                    &&& contains_name(old(self)@, long_name@)
                    &&& final(self)@ == old(self)@
                },
            },
    {
        if self.config_find(&long_name).is_some() {
            return Err(DnsError::DnsNameAlreadyRegistered);
        }
        let built = build_services(services);
        let dns_record = Dns {
            long_name: long_name.clone(),
            encryption_key: public_messaging_encryption_key.clone(),
            services: built,
        };
        let data = dns_record.encode();
        let identifier = long_name.clone();
        let entry = DnsConfiguation {
            long_name,
            encryption_keypair: (
                public_messaging_encryption_key.clone(),
                secret_messaging_encryption_key.clone(),
            ),
        };
        let ghost old_view = self@;
        proof {
            lemma_config_unique_push(old_view, entry@);
            lemma_config_lookup_push(old_view, entry@, entry@.long_name);
        }
        self.config.push(entry);
        proof {
            let pushed = DnsConfiguationV {
                long_name: identifier@,
                encryption_keypair: (
                    public_messaging_encryption_key@,
                    secret_messaging_encryption_key@,
                ),
            };
            assert(self@ =~= old_view.push(pushed));
            assert(dns_configuration::config_entry_encodable(pushed));
            assert forall|a: int|
                0 <= a < self@.len() implies dns_configuration::config_entry_encodable(
                #[trigger] self@[a],
            ) by {
                if a < old_view.len() {
                    assert(self@[a] == old_view[a]);
                } else {
                    assert(self@[a] == pushed);
                }
            }
        }
        Ok(StructuredData::new(DNS_TAG, identifier, 0, data, owners, Vec::new()))
    }

    /// Deletes a claimed name: removes its entry from the configuration
    /// index and builds the tombstone record, an empty payload one version
    /// past the fetched record, owners carried forward.  Fails exactly when
    /// the index does not claim the name.
    pub fn delete_dns(&mut self, long_name: &String, prev_struct_data: &StructuredData) -> (r:
        Result<StructuredData, DnsError>)
        requires
            old(self).wf(),
            prev_struct_data@.version < u64::MAX,
        ensures
            final(self).wf(),
            match r {
                Ok(sd) => {
                    &&& contains_name(old(self)@, long_name@)
                    &&& final(self)@ == config_remove(old(self)@, long_name@)
                    &&& !contains_name(final(self)@, long_name@)
                    &&& forall|other: Seq<char>|
                        other != long_name@ ==> #[trigger] config_lookup(final(self)@, other)
                            == config_lookup(old(self)@, other)
                    &&& sd@.type_tag == DNS_TAG
                    &&& sd@.identifier == prev_struct_data@.identifier
                    &&& sd@.version == prev_struct_data@.version + 1
                    &&& sd@.data == Seq::<u8>::empty()
                    &&& sd@.owner_keys == prev_struct_data@.owner_keys
                    &&& sd@.previous_owner_keys == prev_struct_data@.previous_owner_keys
                },
                Err(e) => {
                    &&& e == DnsError::DnsRecordNotFound
                    &&& !contains_name(old(self)@, long_name@)
                    &&& final(self)@ == old(self)@
                },
            },
    {
        let pos = match self.config_find(long_name) {
            None => {
                return Err(DnsError::DnsRecordNotFound);
            },
            Some(pos) => pos,
        };
        let ghost old_view = self@;
        proof {
            lemma_config_remove_at(old_view, long_name@, pos as int);
            lemma_config_remove_lookup(old_view, long_name@);
        }
        let _ = self.config.remove(pos);
        proof {
            assert(self@ =~= old_view.remove(pos as int));
        }
        Ok(
            StructuredData::new(
                DNS_TAG,
                prev_struct_data.get_identifier().clone(),
                prev_struct_data.get_version() + 1,
                Vec::new(),
                clone_sign_keys(prev_struct_data.get_owner_keys()),
                clone_sign_keys(prev_struct_data.get_previous_owner_keys()),
            ),
        )
    }

    /// All names the registrant has claimed so far, in the order of the
    /// configuration index.
    pub fn get_all_registered_names(&self) -> (r: Vec<String>)
        ensures
            r.deep_view() == config_names(self@),
    {
        let mut names: Vec<String> = Vec::new();
        let mut i: usize = 0;
        while i < self.config.len()
            invariant
                i <= self.config.len(),
                self@.len() == self.config.len(),
                names.deep_view().len() == i,
                forall|j: int| 0 <= j < i ==> names.deep_view()[j] == (#[trigger] self@[j]).long_name,
                forall|j: int| 0 <= j < self@.len() ==> #[trigger] self@[j] == self.config.deep_view()[j],
            decreases self.config.len() - i,
        {
            names.push(self.config[i].long_name.clone());
            i = i + 1;
        }
        proof {
            assert(names.deep_view() =~= config_names(self@));
        }
        names
    }

    /// The messaging keypair the registrant associated with a claimed name.
    /// Fails exactly when the index does not claim the name.
    pub fn get_messaging_encryption_keys(&self, long_name: &String) -> (r: Result<
        (PublicKey, SecretKey),
        DnsError,
    >)
        ensures
            match r {
                Ok(keys) => {
                    &&& contains_name(self@, long_name@)
                    &&& (keys.0@, keys.1@) == config_lookup(
                        self@,
                        long_name@,
                    )->Some_0.encryption_keypair
                },
                Err(e) => {
                    &&& e == DnsError::DnsRecordNotFound
                    &&& !contains_name(self@, long_name@)
                },
            },
    {
        let record = self.find_dns_record(long_name)?;
        Ok(record.encryption_keypair)
    }

    /// The labels of all services under a name, read from the fetched
    /// record, in the record's order.  A pure read: any caller may list any
    /// name's services, ownership is not asked.  The long name only
    /// addressed the fetch, which the caller performed.  Fails exactly when
    /// the payload is not a name record.
    pub fn get_all_services(&self, _long_name: &String, record_data: &Vec<u8>) -> (r: Result<
        Vec<String>,
        DnsError,
    >)
        ensures
            match r {
                Ok(names) => {
                    &&& dec_dns(record_data@) is Some
                    &&& names.deep_view() == svc_names(dec_dns(record_data@)->Some_0.services)
                },
                Err(e) => {
                    &&& e == DnsError::UnexpectedRecordType
                    &&& dec_dns(record_data@) is None
                },
            },
    {
        let dns_record = Dns::decode(record_data)?;
        let mut names: Vec<String> = Vec::new();
        let mut i: usize = 0;
        let ghost services = dns_record@.services;
        while i < dns_record.services.len()
            invariant
                i <= dns_record.services.len(),
                services == dns_record.services.deep_view(),
                services.len() == dns_record.services.len(),
                names.deep_view().len() == i,
                forall|j: int| 0 <= j < i ==> names.deep_view()[j] == (#[trigger] services[j]).0,
            decreases dns_record.services.len() - i,
        {
            names.push(dns_record.services[i].0.clone());
            i = i + 1;
        }
        proof {
            assert(names.deep_view() =~= svc_names(services));
        }
        Ok(names)
    }

    /// The storage location of one service under a name, read from the
    /// fetched record: where the service's home directory lives.  Fails
    /// exactly when the payload is not a name record or the service is not
    /// present.
    pub fn get_service_home_directory_key(&self, service_name: &String, record_data: &Vec<u8>) -> (
        r: Result<DirectoryKey, DnsError>)
        ensures
            match r {
                Ok(key) => {
                    &&& dec_dns(record_data@) is Some
                    &&& Some(key@) == svc_lookup(
                        dec_dns(record_data@)->Some_0.services,
                        service_name@,
                    )
                },
                Err(e) => {
                    &&& (e == DnsError::UnexpectedRecordType && dec_dns(record_data@) is None) || (
                    e == DnsError::ServiceNotFound && dec_dns(record_data@) is Some
                        && !svc_contains(dec_dns(record_data@)->Some_0.services, service_name@))
                },
            },
    {
        let dns_record = Dns::decode(record_data)?;
        match services_find(&dns_record.services, service_name) {
            Some(j) => Ok(dns_record.services[j].1.clone()),
            None => Err(DnsError::ServiceNotFound),
        }
    }

    /// Adds a service under a claimed name: builds the record one version
    /// past the fetched one, with the service appended, owners carried
    /// forward.  Fails when the index does not claim the name, the payload
    /// is not a name record, or the label is already taken.
    pub fn add_service(
        &self,
        long_name: &String,
        new_service: (String, DirectoryKey),
        prev_struct_data: &StructuredData,
    ) -> (r: Result<StructuredData, DnsError>)
        requires
            prev_struct_data@.version < u64::MAX,
        ensures
            add_remove_service_ensures(
                self@,
                long_name@,
                (new_service.0@, Some(new_service.1@)),
                prev_struct_data@,
                r,
            ),
    {
        self.add_remove_service_impl(long_name, (new_service.0, Some(new_service.1)), prev_struct_data)
    }

    /// Removes a service from a claimed name: builds the record one version
    /// past the fetched one, with the service gone, owners carried forward.
    /// Fails when the index does not claim the name, the payload is not a
    /// name record, or no service carries the label.
    pub fn remove_service(
        &self,
        long_name: &String,
        service_to_remove: String,
        prev_struct_data: &StructuredData,
    ) -> (r: Result<StructuredData, DnsError>)
        requires
            prev_struct_data@.version < u64::MAX,
        ensures
            add_remove_service_ensures(
                self@,
                long_name@,
                (service_to_remove@, None),
                prev_struct_data@,
                r,
            ),
    {
        self.add_remove_service_impl(long_name, (service_to_remove, None), prev_struct_data)
    }

    /// The entry of the configuration index under a name, if any.
    fn find_dns_record(&self, long_name: &String) -> (r: Result<DnsConfiguation, DnsError>)
        ensures
            match r {
                Ok(record) => {
                    &&& contains_name(self@, long_name@)
                    &&& record@ == config_lookup(self@, long_name@)->Some_0
                },
                Err(e) => {
                    &&& e == DnsError::DnsRecordNotFound
                    &&& !contains_name(self@, long_name@)
                },
            },
    {
        match self.config_find(long_name) {
            Some(j) => Ok(self.config[j].clone()),
            None => Err(DnsError::DnsRecordNotFound),
        }
    }

    /// Position of the first entry under a name, if any.
    fn config_find(&self, long_name: &String) -> (r: Option<usize>)
        ensures
            match r {
                Some(j) => {
                    &&& j < self@.len()
                    &&& self@[j as int].long_name == long_name@
                    &&& forall|k: int| 0 <= k < j ==> (#[trigger] self@[k]).long_name != long_name@
                    &&& config_lookup(self@, long_name@) == Some(self@[j as int])
                },
                None => !contains_name(self@, long_name@),
            },
    {
        let ghost s = self@;
        proof {
            assert(s.skip(0) =~= s);
        }
        let mut i: usize = 0;
        while i < self.config.len()
            invariant
                i <= self.config.len(),
                s == self.config.deep_view(),
                s.len() == self.config.len(),
                config_lookup(s, long_name@) == config_lookup(s.skip(i as int), long_name@),
                forall|j: int| 0 <= j < i ==> (#[trigger] s[j]).long_name != long_name@,
            decreases self.config.len() - i,
        {
            if self.config[i].long_name.eq(long_name) {
                proof {
                    lemma_config_lookup_at(s, long_name@, i as int);
                }
                return Some(i);
            }
            proof {
                assert(s.skip(i as int)[0] == s[i as int]);
                assert(s.skip(i as int).drop_first() =~= s.skip(i as int + 1));
            }
            i = i + 1;
        }
        proof {
            assert(s.skip(s.len() as int) =~= Seq::<DnsConfiguationV>::empty());
        }
        None
    }

    /// Shared body of adding and removing a service.
    fn add_remove_service_impl(
        &self,
        long_name: &String,
        service: (String, Option<DirectoryKey>),
        prev_struct_data: &StructuredData,
    ) -> (r: Result<StructuredData, DnsError>)
        requires
            prev_struct_data@.version < u64::MAX,
        ensures
            add_remove_service_ensures(
                self@,
                long_name@,
                (service.0@, match service.1 {
                    Some(k) => Some(k@),
                    None => None,
                }),
                prev_struct_data@,
                r,
            ),
    {
        if self.config_find(long_name).is_none() {
            return Err(DnsError::DnsRecordNotFound);
        }
        let mut dns_record = match Dns::decode(prev_struct_data.get_data()) {
            Ok(d) => d,
            Err(e) => {
                return Err(e);
            },
        };
        let ghost old_services = dns_record@.services;
        let found = services_find(&dns_record.services, &service.0);
        match service.1 {
            Some(key) => {
                if found.is_some() {
                    return Err(DnsError::ServiceAlreadyExists);
                }
                proof {
                    lemma_svc_unique_push(old_services, (service.0@, key@));
                }
                dns_record.services.push((service.0, key));
                proof {
                    assert(dns_record.services.deep_view() =~= old_services.push(
                        (service.0@, key@),
                    ));
                }
            },
            None => {
                let pos = match found {
                    Some(pos) => pos,
                    None => {
                        return Err(DnsError::ServiceNotFound);
                    },
                };
                proof {
                    dns_record::lemma_svc_remove_at(old_services, service.0@, pos as int);
                    dns_record::lemma_svc_remove_lookup(old_services, service.0@);
                }
                let _ = dns_record.services.remove(pos);
                proof {
                    assert(dns_record.services.deep_view() =~= old_services.remove(pos as int));
                }
            },
        }
        let data = dns_record.encode();
        Ok(
            StructuredData::new(
                DNS_TAG,
                prev_struct_data.get_identifier().clone(),
                prev_struct_data.get_version() + 1,
                data,
                clone_sign_keys(prev_struct_data.get_owner_keys()),
                clone_sign_keys(prev_struct_data.get_previous_owner_keys()),
            ),
        )
    }

    /// Keeps a fetched answer only when it is a versioned record; data of
    /// any other kind fails.
    pub fn get_housing_structured_data(&self, response: FetchedData) -> (r: Result<
        StructuredData,
        DnsError,
    >)
        ensures
            match response {
                FetchedData::StructuredData(sd) => r == Ok::<StructuredData, DnsError>(sd),
                FetchedData::Other => r == Err::<StructuredData, DnsError>(
                    DnsError::UnexpectedRecordType,
                ),
            },
    {
        match response {
            FetchedData::StructuredData(sd) => Ok(sd),
            FetchedData::Other => Err(DnsError::UnexpectedRecordType),
        }
    }

    /// Keeps a fetched answer only when it is a versioned record whose
    /// payload decodes as a name record, and hands both back.
    pub fn get_housing_sturctured_data_and_dns_record(&self, response: FetchedData) -> (r: Result<
        (StructuredData, Dns),
        DnsError,
    >)
        ensures
            match response {
                FetchedData::StructuredData(sd) => match r {
                    Ok(p) => {
                        &&& p.0 == sd
                        &&& dec_dns(sd@.data) == Some(p.1@)
                        &&& p.1.wf()
                    },
                    Err(e) => {
                        &&& e == DnsError::UnexpectedRecordType
                        &&& dec_dns(sd@.data) is None
                    },
                },
                FetchedData::Other => r == Err::<(StructuredData, Dns), DnsError>(
                    DnsError::UnexpectedRecordType,
                ),
            },
    {
        let struct_data = self.get_housing_structured_data(response)?;
        let dns_record = Dns::decode(struct_data.get_data())?;
        Ok((struct_data, dns_record))
    }
}

/// What adding or removing a service promises: the service argument carries
/// the location to add, or nothing for a removal.
pub open spec fn add_remove_service_ensures(
    config: Seq<DnsConfiguationV>,
    long_name: Seq<char>,
    service: (Seq<char>, Option<crate::storage::DirectoryKeyV>),
    prev: crate::storage::StructuredDataV,
    r: Result<StructuredData, DnsError>,
) -> bool {
    let is_add = service.1 is Some;
    match r {
        Ok(sd) => {
            &&& contains_name(config, long_name)
            &&& dec_dns(prev.data) is Some
            &&& {
                let d = dec_dns(prev.data)->Some_0;
                &&& is_add ==> !svc_contains(d.services, service.0) && dec_dns(sd@.data) == Some(
                    DnsV {
                        long_name: d.long_name,
                        encryption_key: d.encryption_key,
                        services: d.services.push((service.0, service.1->0)),
                    },
                )
                &&& !is_add ==> svc_contains(d.services, service.0) && dec_dns(sd@.data) == Some(
                    DnsV {
                        long_name: d.long_name,
                        encryption_key: d.encryption_key,
                        services: svc_remove(d.services, service.0),
                    },
                )
            }
            &&& sd@.type_tag == DNS_TAG
            &&& sd@.identifier == prev.identifier
            &&& sd@.version == prev.version + 1
            &&& sd@.owner_keys == prev.owner_keys
            &&& sd@.previous_owner_keys == prev.previous_owner_keys
        },
        Err(e) => {
            ||| (e == DnsError::DnsRecordNotFound && !contains_name(config, long_name))
            ||| (e == DnsError::UnexpectedRecordType && contains_name(config, long_name) && dec_dns(
                prev.data,
            ) is None)
            ||| (e == DnsError::ServiceAlreadyExists && contains_name(config, long_name) && dec_dns(
                prev.data,
            ) is Some && is_add && svc_contains(dec_dns(prev.data)->Some_0.services, service.0))
            ||| (e == DnsError::ServiceNotFound && contains_name(config, long_name) && dec_dns(
                prev.data,
            ) is Some && !is_add && !svc_contains(dec_dns(prev.data)->Some_0.services, service.0))
        },
    }
}

/// Version monotonicity: whenever a service mutation succeeds, the record
/// it hands back stands exactly one version past the immediately prior
/// fetched record, and carries that record's identifier, owner keys and
/// previous-owner keys forward unchanged.
pub proof fn lemma_service_mutation_increments_version(
    config: Seq<DnsConfiguationV>,
    long_name: Seq<char>,
    service: (Seq<char>, Option<crate::storage::DirectoryKeyV>),
    prev: crate::storage::StructuredDataV,
    r: Result<StructuredData, DnsError>,
)
    requires
        add_remove_service_ensures(config, long_name, service, prev, r),
        r is Ok,
    ensures
        r->Ok_0@.version == prev.version + 1,
        r->Ok_0@.identifier == prev.identifier,
        r->Ok_0@.owner_keys == prev.owner_keys,
        r->Ok_0@.previous_owner_keys == prev.previous_owner_keys,
        r->Ok_0@.type_tag == DNS_TAG,
{
}

/// Whether the entry at one position of an index can be written.
pub open spec fn config_entry_encodable_at(s: Seq<DnsConfiguationV>, i: int) -> bool {
    dns_configuration::config_entry_encodable(s[i])
}

/// Builds the service list of a fresh record from the caller's pairs, a
/// later pair replacing an earlier one under the same label.
fn build_services(services: &Vec<(String, DirectoryKey)>) -> (r: Vec<(String, DirectoryKey)>)
    ensures
        r.deep_view() == svc_from_list(services.deep_view()),
        svc_unique(r.deep_view()),
{
    let ghost l = services.deep_view();
    let mut out: Vec<(String, DirectoryKey)> = Vec::new();
    let mut i: usize = 0;
    proof {
        assert(l.take(0) =~= Seq::<ServiceV>::empty());
        assert(out.deep_view() =~= Seq::<ServiceV>::empty());
    }
    while i < services.len()
        invariant
            i <= services.len(),
            l == services.deep_view(),
            l.len() == services.len(),
            out.deep_view() == svc_from_list(l.take(i as int)),
            svc_unique(out.deep_view()),
        decreases services.len() - i,
    {
        let pair = (services[i].0.clone(), services[i].1.clone());
        let ghost acc = out.deep_view();
        let ghost e = l[i as int];
        match services_find(&out, &pair.0) {
            Some(j) => {
                proof {
                    lemma_svc_upsert_at(acc, e, j as int);
                }
                out.set(j, pair);
                proof {
                    assert(out.deep_view() =~= acc.update(j as int, e));
                    assert(svc_unique(out.deep_view())) by {
                        assert(forall|k: int|
                            0 <= k < acc.len() ==> (#[trigger] acc.update(j as int, e)[k]).0
                                == acc[k].0);
                    }
                }
            },
            None => {
                proof {
                    lemma_svc_upsert_absent(acc, e);
                    lemma_svc_unique_push(acc, e);
                }
                out.push(pair);
                proof {
                    assert(out.deep_view() =~= acc.push(e));
                }
            },
        }
        proof {
            assert(l.take(i as int + 1).drop_last() =~= l.take(i as int));
            assert(l.take(i as int + 1).last() == e);
            assert(out.deep_view() == svc_upsert(svc_from_list(l.take(i as int)), e));
        }
        i = i + 1;
    }
    proof {
        assert(l.take(l.len() as int) =~= l);
    }
    out
}

} // verus!
