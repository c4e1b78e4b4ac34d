//! Tests of the configuration store: the file round trip, the empty and
//! missing file, and corrupted content.

use safe_dns::dns_operations::dns_configuration::{
    get_dns_configuaration_data, initialise_dns_configuaration, write_dns_configuaration_data,
    DnsConfiguation,
};
use safe_dns::errors::{CoreError, DnsError, NfsError, DNS_ERROR_START_RANGE};
use safe_dns::keys::{PublicKey, SecretKey};

fn keypair(seed: u8) -> (PublicKey, SecretKey) {
    (PublicKey(vec![seed; 32]), SecretKey(vec![seed.wrapping_add(1); 32]))
}

#[test]
fn read_write_dns_configuration_file() {
    // Initialise Dns Configuration File
    initialise_dns_configuaration(Ok(())).unwrap();

    // Get the Stored Configurations: a fresh file is empty
    let mut file = Vec::new();
    let mut config_vec = get_dns_configuaration_data(Some(&file)).unwrap();
    assert_eq!(config_vec.len(), 0);

    let long_name = "abcdefghij".to_string();
    assert_eq!(long_name.len(), 10);

    // Put in the 1st record
    let mut keys = keypair(60);
    let config_0 = DnsConfiguation {
        long_name: long_name.clone(),
        encryption_keypair: (keys.0, keys.1),
    };

    config_vec.push(config_0.clone());
    file = write_dns_configuaration_data(&config_vec);

    // Get the Stored Configurations
    config_vec = get_dns_configuaration_data(Some(&file)).unwrap();
    assert_eq!(config_vec.len(), 1);

    assert_eq!(config_vec[0], config_0);

    // Modify the content
    keys = keypair(90);
    let config_1 = DnsConfiguation {
        long_name,
        encryption_keypair: (keys.0, keys.1),
    };

    config_vec[0] = config_1.clone();
    file = write_dns_configuaration_data(&config_vec);

    // Get the Stored Configurations
    config_vec = get_dns_configuaration_data(Some(&file)).unwrap();
    assert_eq!(config_vec.len(), 1);

    assert!(config_vec[0] != config_0);
    assert_eq!(config_vec[0], config_1);

    // Delete Record
    config_vec.clear();
    file = write_dns_configuaration_data(&config_vec);

    // Get the Stored Configurations
    config_vec = get_dns_configuaration_data(Some(&file)).unwrap();
    assert_eq!(config_vec.len(), 0);
}

#[test]
fn missing_and_corrupted_configuration_files() {
    // a missing file is an error, unlike an empty one
    assert!(matches!(
        get_dns_configuaration_data(None),
        Err(DnsError::DnsConfigFileNotFoundOrCorrupted)
    ));
    assert_eq!(get_dns_configuaration_data(Some(&Vec::new())).unwrap(), Vec::new());

    // content under a foreign schema tag does not decode
    let mut wrong_tag = vec![0u8; 16];
    wrong_tag[0] = 1;
    assert!(matches!(
        get_dns_configuaration_data(Some(&wrong_tag)),
        Err(DnsError::DnsConfigFileNotFoundOrCorrupted)
    ));

    // a good file with trailing bytes does not decode
    let (pk, sk) = keypair(10);
    let entries = vec![DnsConfiguation {
        long_name: "a.b".to_string(),
        encryption_keypair: (pk, sk),
    }];
    let mut file = write_dns_configuaration_data(&entries);
    file.push(0);
    assert!(matches!(
        get_dns_configuaration_data(Some(&file)),
        Err(DnsError::DnsConfigFileNotFoundOrCorrupted)
    ));

    // a name that is not valid text does not decode
    let mut bad_name = write_dns_configuaration_data(&entries);
    // the first name byte sits after the header and the name length
    bad_name[24] = 0xFF;
    assert!(matches!(
        get_dns_configuaration_data(Some(&bad_name)),
        Err(DnsError::DnsConfigFileNotFoundOrCorrupted)
    ));

    // a truncated file does not decode
    let whole = write_dns_configuaration_data(&entries);
    let truncated = whole[..whole.len() - 1].to_vec();
    assert!(matches!(
        get_dns_configuaration_data(Some(&truncated)),
        Err(DnsError::DnsConfigFileNotFoundOrCorrupted)
    ));
}

#[test]
fn configuration_round_trips_keep_text_exact() {
    // a name outside ASCII survives the byte round trip unchanged
    let (pk, sk) = keypair(33);
    let entries = vec![DnsConfiguation {
        long_name: "bücher.example".to_string(),
        encryption_keypair: (pk, sk),
    }];
    let file = write_dns_configuaration_data(&entries);
    let back = get_dns_configuaration_data(Some(&file)).unwrap();
    assert_eq!(back, entries);
    assert_eq!(back[0].long_name, "bücher.example");

    // saving what was loaded reproduces the file byte for byte
    let again = write_dns_configuaration_data(&back);
    assert_eq!(again, file);
}

#[test]
fn error_codes_are_distinct_and_fixed() {
    let codes = vec![
        DnsError::DnsNameAlreadyRegistered.error_code(),
        DnsError::DnsRecordNotFound.error_code(),
        DnsError::ServiceAlreadyExists.error_code(),
        DnsError::ServiceNotFound.error_code(),
        DnsError::DnsConfigFileNotFoundOrCorrupted.error_code(),
        DnsError::Unexpected("x".to_string()).error_code(),
        DnsError::UnexpectedRecordType.error_code(),
        DnsError::MalformedLocator.error_code(),
    ];
    for (i, code) in codes.iter().enumerate() {
        assert_eq!(*code, DNS_ERROR_START_RANGE - i as i32);
    }
    assert_eq!(DnsError::from(CoreError { error_code: -77 }).error_code(), -77);
    assert_eq!(DnsError::from(NfsError::Other(-88)).error_code(), -88);
}
