//! Tests of the wire format: the shared primitives, one configuration
//! entry, one name record, and a directory location.

use safe_dns::codec::{put_bool, put_bytes, put_str, put_u64, read_bool, read_bytes, read_str, read_u64};
use safe_dns::dns_operations::dns_configuration::DnsConfiguation;
use safe_dns::dns_operations::dns_record::Dns;
use safe_dns::errors::DnsError;
use safe_dns::keys::{PublicKey, SecretKey};
use safe_dns::storage::{AccessLevel, DirectoryKey};

#[test]
fn primitive_fields_round_trip() {
    let mut out = Vec::new();
    put_u64(&mut out, 0x0102030405060708);
    put_bytes(&mut out, &[9, 8, 7]);
    put_str(&mut out, "grüße");
    put_bool(&mut out, true);
    put_bool(&mut out, false);

    // the number is little endian
    assert_eq!(&out[..8], &[8, 7, 6, 5, 4, 3, 2, 1]);

    let (x, rest) = read_u64(&out).unwrap();
    assert_eq!(x, 0x0102030405060708);
    let (bytes, rest) = read_bytes(rest).unwrap();
    assert_eq!(bytes, vec![9, 8, 7]);
    let (text, rest) = read_str(rest).unwrap();
    assert_eq!(text, "grüße");
    let (yes, rest) = read_bool(rest).unwrap();
    assert!(yes);
    let (no, rest) = read_bool(rest).unwrap();
    assert!(!no);
    assert!(rest.is_empty());

    // a flag byte other than zero or one does not decode
    assert!(read_bool(&[2u8]).is_none());
    // a byte field longer than its input does not decode
    let mut short = Vec::new();
    put_u64(&mut short, 10);
    assert!(read_bytes(&short).is_none());
}

#[test]
fn one_configuration_entry_round_trips() {
    let entry = DnsConfiguation {
        long_name: "entry.example".to_string(),
        encryption_keypair: (PublicKey(vec![1; 32]), SecretKey(vec![2; 32])),
    };
    let bytes = entry.encode();
    let (back, rest) = DnsConfiguation::decode(&bytes).unwrap();
    assert_eq!(back, entry);
    assert!(rest.is_empty());
    assert!(DnsConfiguation::decode(&bytes[..bytes.len() - 1]).is_none());
}

#[test]
fn one_name_record_round_trips() {
    let key = DirectoryKey::new(vec![5; 64], 15000, true, AccessLevel::Private);
    assert_eq!(key.get_id(), &vec![5; 64]);
    assert_eq!(key.get_type_tag(), 15000);
    assert!(key.is_versioned());
    assert_eq!(key.get_access_level(), AccessLevel::Private);

    let record = Dns {
        long_name: "record.example".to_string(),
        encryption_key: PublicKey(vec![6; 32]),
        services: vec![("www".to_string(), key.clone())],
    };
    let bytes = record.encode();
    let back = Dns::decode(&bytes).unwrap();
    assert_eq!(back, record);

    // bytes of another kind do not decode as a name record
    assert!(matches!(
        Dns::decode(&vec![0u8; 4]),
        Err(DnsError::UnexpectedRecordType)
    ));
    // a record that carries one label twice does not decode
    let dup = Dns {
        long_name: "record.example".to_string(),
        encryption_key: PublicKey(vec![6; 32]),
        services: vec![
            ("www".to_string(), key.clone()),
            ("www".to_string(), key),
        ],
    };
    assert!(Dns::decode(&dup.encode()).is_err());
}
