//! The human-facing locator syntax: `safe:` followed by an optional service
//! label, a dot, and the long name, which itself contains exactly one
//! internal dot.  A locator without a service label gets the default
//! service.

use vstd::prelude::*;
use vstd::seq::Seq;
use crate::errors::DnsError;

verus! {

/// The scheme that opens every locator.
pub open spec fn scheme_prefix() -> Seq<char> {
    seq!['s', 'a', 'f', 'e', ':']
}

/// The service assumed when a locator names none.
pub open spec fn default_service_name() -> Seq<char> {
    seq!['w', 'w', 'w']
}

/// The service assumed when a locator names none.
pub fn default_service() -> (r: String)
    ensures
        r@ == default_service_name(),
{
    let r = String::from_str("www");
    proof {
        reveal_strlit("www");
        assert(r@ =~= default_service_name());
    }
    r
}

/// How many dots a text holds.
pub open spec fn dot_count(s: Seq<char>) -> nat
    decreases s.len(),
{
    if s.len() == 0 {
        0
    } else {
        (if s[0] == '.' {
            1nat
        } else {
            0nat
        }) + dot_count(s.drop_first())
    }
}

/// Position of the first dot of a text that holds one.
pub open spec fn first_dot(s: Seq<char>) -> int
    decreases s.len(),
{
    if s.len() == 0 {
        0
    } else if s[0] == '.' {
        0
    } else {
        1 + first_dot(s.drop_first())
    }
}

/// What a locator parses to: the service label and the long name.  After
/// the scheme, a locator holds either a long name alone — exactly two
/// dot-free segments around one dot — or a service label, a dot, and such a
/// long name.  The longer form is tried first, so three segments read as a
/// service-qualified name, never as a name of three segments.
pub open spec fn parse_spec(s: Seq<char>) -> Option<(Seq<char>, Seq<char>)> {
    if s.len() < 5 || s.take(5) != scheme_prefix() {
        None
    } else {
        let rest = s.skip(5);
        if dot_count(rest) == 2 {
            let d1 = first_dot(rest);
            let d2 = d1 + 1 + first_dot(rest.skip(d1 + 1));
            if 0 < d1 && d1 + 1 < d2 < rest.len() - 1 {
                Some((rest.take(d1), rest.skip(d1 + 1)))
            } else {
                None
            }
        } else if dot_count(rest) == 1 {
            let d = first_dot(rest);
            if 0 < d < rest.len() - 1 {
                Some((default_service_name(), rest))
            } else {
                None
            }
        } else {
            None
        }
    }
}

/// One more character added to a text adds its dot to the count.
proof fn lemma_dot_count_push(s: Seq<char>, c: char)
    ensures
        dot_count(s.push(c)) == dot_count(s) + (if c == '.' {
            1nat
        } else {
            0nat
        }),
    decreases s.len(),
{
    if s.len() == 0 {
        assert(s.push(c).drop_first() =~= Seq::<char>::empty());
        assert(s.push(c)[0] == c);
        assert(dot_count(s.push(c)) == (if c == '.' {
            1nat
        } else {
            0nat
        }) + dot_count(Seq::<char>::empty()));
    } else {
        assert(s.push(c)[0] == s[0]);
        assert(s.push(c).drop_first() =~= s.drop_first().push(c));
        lemma_dot_count_push(s.drop_first(), c);
        assert(dot_count(s.push(c)) == (if s[0] == '.' {
            1nat
        } else {
            0nat
        }) + dot_count(s.drop_first().push(c)));
    }
}

/// The first dot of a text stands at the first position that holds a dot.
proof fn lemma_first_dot_at(s: Seq<char>, j: int)
    requires
        0 <= j < s.len(),
        s[j] == '.',
        forall|k: int| 0 <= k < j ==> s[k] != '.',
    ensures
        first_dot(s) == j,
    decreases s.len(),
{
    if j > 0 {
        let t = s.drop_first();
        assert(forall|k: int| 0 <= k < j - 1 ==> t[k] == s[k + 1]);
        lemma_first_dot_at(t, j - 1);
    }
}

/// Parses a locator into its service label and long name, the default
/// service standing in where the locator names none.  Fails exactly on a
/// string outside the locator grammar.
pub fn parse(locator: &str) -> (r: Result<(String, String), DnsError>)
    ensures
        match r {
            Ok(p) => parse_spec(locator@) == Some((p.0@, p.1@)),
            Err(e) => {
                &&& e == DnsError::MalformedLocator
                &&& parse_spec(locator@) is None
            },
        },
{
    let n = locator.unicode_len();
    if n < 5 {
        return Err(DnsError::MalformedLocator);
    }
    if !(locator.get_char(0) == 's' && locator.get_char(1) == 'a' && locator.get_char(2) == 'f'
        && locator.get_char(3) == 'e' && locator.get_char(4) == ':') {
        proof {
            assert(locator@.take(5) != scheme_prefix());
        }
        return Err(DnsError::MalformedLocator);
    }
    proof {
        assert(locator@.take(5) =~= scheme_prefix());
    }
    let ghost rest = locator@.skip(5);
    let mut count: usize = 0;
    let mut d1: usize = 0;
    let mut d2: usize = 0;
    let mut i: usize = 5;
    proof {
        assert(rest.take(0) =~= Seq::<char>::empty());
    }
    while i < n
        invariant
            5 <= i <= n,
            n == locator@.len(),
            rest == locator@.skip(5),
            rest.len() == n - 5,
            count <= i - 5,
            count == dot_count(rest.take(i - 5)),
            count >= 1 ==> 5 <= d1 < i && locator@[d1 as int] == '.' && (forall|k: int|
                5 <= k < d1 ==> locator@[k] != '.'),
            count >= 2 ==> d1 < d2 < i && locator@[d2 as int] == '.' && (forall|k: int|
                d1 < k < d2 ==> locator@[k] != '.'),
            count == 0 ==> forall|k: int| 5 <= k < i ==> locator@[k] != '.',
            count == 1 ==> forall|k: int| d1 < k < i ==> locator@[k] != '.',
        decreases n - i,
    {
        let c = locator.get_char(i);
        proof {
            assert(rest[i - 5] == locator@[i as int]);
            assert(rest.take(i - 5 + 1) =~= rest.take(i - 5).push(locator@[i as int]));
            lemma_dot_count_push(rest.take(i - 5), locator@[i as int]);
        }
        if c == '.' {
            if count == 0 {
                d1 = i;
            } else if count == 1 {
                d2 = i;
            }
            count = count + 1;
        }
        i = i + 1;
    }
    proof {
        assert(rest.take(n - 5) =~= rest);
    }
    if count == 2 {
        proof {
            assert(rest[d1 - 5] == '.');
            assert(forall|k: int| 0 <= k < d1 - 5 ==> rest[k] == locator@[k + 5]);
            lemma_first_dot_at(rest, d1 - 5);
            let tail = rest.skip(d1 - 5 + 1);
            assert(rest[d2 - 5] == '.');
            assert(tail[d2 - d1 - 1] == '.');
            assert(forall|k: int| 0 <= k < d2 - d1 - 1 ==> tail[k] == locator@[k + d1 + 1]);
            lemma_first_dot_at(tail, d2 - d1 - 1);
        }
        if d1 > 5 && d2 > d1 + 1 && d2 < n - 1 {
            let service = locator.substring_char(5, d1).to_owned();
            let long_name = locator.substring_char(d1 + 1, n).to_owned();
            proof {
                assert(service@ =~= rest.take(d1 - 5));
                assert(long_name@ =~= rest.skip(d1 - 5 + 1));
            }
            Ok((service, long_name))
        } else {
            Err(DnsError::MalformedLocator)
        }
    } else if count == 1 {
        proof {
            assert(rest[d1 - 5] == '.');
            assert(forall|k: int| 0 <= k < d1 - 5 ==> rest[k] == locator@[k + 5]);
            lemma_first_dot_at(rest, d1 - 5);
        }
        if d1 > 5 && d1 < n - 1 {
            let service = default_service();
            let long_name = locator.substring_char(5, n).to_owned();
            proof {
                assert(long_name@ =~= rest);
            }
            Ok((service, long_name))
        } else {
            Err(DnsError::MalformedLocator)
        }
    } else {
        Err(DnsError::MalformedLocator)
    }
}

} // verus!
