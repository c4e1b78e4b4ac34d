//! Tests of the registry operations: claiming and deleting names, and
//! manipulating services, against an in-memory stand-in for the record
//! store.

use safe_dns::dns_operations::dns_configuration::{
    get_dns_configuaration_data, initialise_dns_configuaration, write_dns_configuaration_data,
    DnsConfiguation,
};
use safe_dns::dns_operations::DnsOperations;
use safe_dns::errors::DnsError;
use safe_dns::keys::{PublicKey, SecretKey, SignPublicKey};
use safe_dns::storage::{AccessLevel, DirectoryKey, FetchedData, StructuredData};

fn keypair(seed: u8) -> (PublicKey, SecretKey) {
    (PublicKey(vec![seed; 32]), SecretKey(vec![seed.wrapping_add(1); 32]))
}

fn owners() -> Vec<SignPublicKey> {
    vec![SignPublicKey(vec![42; 32])]
}

#[test]
fn register_and_delete_dns() {
    // Initialise the configuration and build the registry over it.
    initialise_dns_configuaration(Ok(())).unwrap();
    let config = get_dns_configuaration_data(Some(&Vec::new())).unwrap();
    let mut dns_operations = DnsOperations::new(config).unwrap();

    let dns_name = "abcdefghij".to_string();
    assert_eq!(dns_name.len(), 10);
    let messaging_keypair = keypair(3);
    let owners = owners();

    // Register; the caller signs and publishes the returned record.
    let mut struct_data = dns_operations
        .register_dns(
            dns_name.clone(),
            &messaging_keypair.0,
            &messaging_keypair.1,
            &Vec::new(),
            owners.clone(),
        )
        .unwrap();
    assert_eq!(struct_data.get_version(), 0);

    // Get Services
    let services = dns_operations
        .get_all_services(&dns_name, struct_data.get_data())
        .unwrap();
    assert_eq!(services.len(), 0);

    // Re-registering is not allowed
    match dns_operations.register_dns(
        dns_name.clone(),
        &messaging_keypair.0,
        &messaging_keypair.1,
        &Vec::new(),
        owners.clone(),
    ) {
        Ok(_) => panic!("Should have been an error"),
        Err(DnsError::DnsNameAlreadyRegistered) => (),
        Err(error) => panic!("{:?}", error),
    }

    // Delete
    struct_data = dns_operations
        .delete_dns(&dns_name, &struct_data)
        .unwrap();
    assert_eq!(struct_data.get_version(), 1);
    assert_eq!(struct_data.get_data().len(), 0);

    // Registering again should be allowed
    let _ = dns_operations
        .register_dns(
            dns_name,
            &messaging_keypair.0,
            &messaging_keypair.1,
            &Vec::new(),
            owners,
        )
        .unwrap();
}

#[test]
fn manipulate_services() {
    initialise_dns_configuaration(Ok(())).unwrap();
    let config = get_dns_configuaration_data(Some(&Vec::new())).unwrap();
    let mut dns_operations = DnsOperations::new(config).unwrap();

    let dns_name = "abcdefghij".to_string();
    assert_eq!(dns_name.len(), 10);
    let messaging_keypair = keypair(5);

    let mut services = vec![
        (
            "www".to_string(),
            DirectoryKey::new(vec![123; 64], 15000, false, AccessLevel::Public),
        ),
        (
            "blog".to_string(),
            DirectoryKey::new(vec![123; 64], 15000, false, AccessLevel::Public),
        ),
        (
            "bad-ass".to_string(),
            DirectoryKey::new(vec![123; 64], 15000, false, AccessLevel::Public),
        ),
    ];

    let owners = owners();

    // Register
    let mut struct_data = dns_operations
        .register_dns(
            dns_name.clone(),
            &messaging_keypair.0,
            &messaging_keypair.1,
            &services,
            owners.clone(),
        )
        .unwrap();

    // Get all dns-names
    let dns_records_vec = dns_operations.get_all_registered_names();
    assert_eq!(dns_records_vec.len(), 1);

    // Get all services for a dns-name
    let services_vec = dns_operations
        .get_all_services(&dns_name, struct_data.get_data())
        .unwrap();
    assert_eq!(services.len(), services_vec.len());
    assert!(services
        .iter()
        .all(|&(ref a, _)| services_vec.iter().any(|b| *a == **b)));

    // Get information about a service - the home-directory and its type
    let home_dir_key = dns_operations
        .get_service_home_directory_key(&services[1].0, struct_data.get_data())
        .unwrap();
    assert_eq!(home_dir_key, services[1].1);

    // Remove a service
    let removed_service = services.remove(1);
    struct_data = dns_operations
        .remove_service(&dns_name, removed_service.0.clone(), &struct_data)
        .unwrap();

    // Get all services
    let services_vec = dns_operations
        .get_all_services(&dns_name, struct_data.get_data())
        .unwrap();
    assert_eq!(services.len(), services_vec.len());
    assert!(services
        .iter()
        .all(|&(ref a, _)| services_vec.iter().any(|b| *a == **b)));

    // Try to enquire about a deleted service
    match dns_operations.get_service_home_directory_key(&removed_service.0, struct_data.get_data())
    {
        Ok(_) => panic!("Should have been an error"),
        Err(DnsError::ServiceNotFound) => (),
        Err(error) => panic!("{:?}", error),
    }

    // Add a service
    services.push((
        "added-service".to_string(),
        DirectoryKey::new(vec![126; 64], 15000, false, AccessLevel::Private),
    ));
    let services_size = services.len();
    struct_data = dns_operations
        .add_service(
            &dns_name,
            services[services_size - 1].clone(),
            &struct_data,
        )
        .unwrap();

    // Get all services
    let services_vec = dns_operations
        .get_all_services(&dns_name, struct_data.get_data())
        .unwrap();
    assert_eq!(services.len(), services_vec.len());
    assert!(services
        .iter()
        .all(|&(ref a, _)| services_vec.iter().any(|b| *a == **b)));
}

#[test]
fn registry_scenario_listing_and_resolution() {
    // register a name with zero services, grow and shrink its service set
    let mut ops = DnsOperations::new_unregistered();
    let (pk, sk) = keypair(11);
    let name = "example.com".to_string();

    let record = ops
        .register_dns(name.clone(), &pk, &sk, &Vec::new(), owners())
        .unwrap();
    assert_eq!(record.get_version(), 0);
    assert_eq!(
        ops.get_all_services(&name, record.get_data()).unwrap(),
        Vec::<String>::new()
    );

    let loc_a = DirectoryKey::new(vec![1; 64], 15000, false, AccessLevel::Public);
    let loc_b = DirectoryKey::new(vec![2; 64], 15000, false, AccessLevel::Public);

    let record = ops
        .add_service(&name, ("www".to_string(), loc_a.clone()), &record)
        .unwrap();
    assert_eq!(record.get_version(), 1);
    let record = ops
        .add_service(&name, ("blog".to_string(), loc_b.clone()), &record)
        .unwrap();
    assert_eq!(record.get_version(), 2);

    let mut listed = ops.get_all_services(&name, record.get_data()).unwrap();
    listed.sort();
    assert_eq!(listed, vec!["blog".to_string(), "www".to_string()]);
    assert_eq!(
        ops.get_service_home_directory_key(&"www".to_string(), record.get_data())
            .unwrap(),
        loc_a
    );
    assert_eq!(
        ops.get_service_home_directory_key(&"blog".to_string(), record.get_data())
            .unwrap(),
        loc_b
    );

    let record = ops
        .remove_service(&name, "blog".to_string(), &record)
        .unwrap();
    assert_eq!(record.get_version(), 3);
    assert_eq!(
        ops.get_all_services(&name, record.get_data()).unwrap(),
        vec!["www".to_string()]
    );
    assert!(matches!(
        ops.get_service_home_directory_key(&"blog".to_string(), record.get_data()),
        Err(DnsError::ServiceNotFound)
    ));
}

#[test]
fn version_increments_by_one_on_each_mutation() {
    let mut ops = DnsOperations::new_unregistered();
    let (pk, sk) = keypair(21);
    let name = "versioned.name".to_string();
    let loc = DirectoryKey::new(vec![3; 64], 15000, true, AccessLevel::Private);

    let r0 = ops
        .register_dns(name.clone(), &pk, &sk, &Vec::new(), owners())
        .unwrap();
    assert_eq!(r0.get_version(), 0);
    let r1 = ops
        .add_service(&name, ("www".to_string(), loc.clone()), &r0)
        .unwrap();
    assert_eq!(r1.get_version(), r0.get_version() + 1);
    let r2 = ops
        .remove_service(&name, "www".to_string(), &r1)
        .unwrap();
    assert_eq!(r2.get_version(), r1.get_version() + 1);
    let r3 = ops.delete_dns(&name, &r2).unwrap();
    assert_eq!(r3.get_version(), r2.get_version() + 1);
    assert!(r3.get_data().is_empty());
}

#[test]
fn registered_names_are_listed_once_and_keys_returned() {
    let mut ops = DnsOperations::new_unregistered();
    let (pk, sk) = keypair(31);
    let name = "mine.example".to_string();
    ops.register_dns(name.clone(), &pk, &sk, &Vec::new(), owners())
        .unwrap();
    let (pk2, sk2) = keypair(41);
    ops.register_dns("other.example".to_string(), &pk2, &sk2, &Vec::new(), owners())
        .unwrap();

    let names = ops.get_all_registered_names();
    assert_eq!(names.iter().filter(|n| **n == name).count(), 1);
    assert_eq!(names.len(), 2);

    let keys = ops.get_messaging_encryption_keys(&name).unwrap();
    assert_eq!(keys.0, pk);
    assert_eq!(keys.1, sk);
    assert!(matches!(
        ops.get_messaging_encryption_keys(&"unknown.example".to_string()),
        Err(DnsError::DnsRecordNotFound)
    ));
}

#[test]
fn add_service_twice_fails_and_unknown_name_fails() {
    let mut ops = DnsOperations::new_unregistered();
    let (pk, sk) = keypair(51);
    let name = "dup.example".to_string();
    let loc = DirectoryKey::new(vec![7; 64], 15000, false, AccessLevel::Public);
    let record = ops
        .register_dns(name.clone(), &pk, &sk, &Vec::new(), owners())
        .unwrap();
    let record = ops
        .add_service(&name, ("www".to_string(), loc.clone()), &record)
        .unwrap();
    assert!(matches!(
        ops.add_service(&name, ("www".to_string(), loc.clone()), &record),
        Err(DnsError::ServiceAlreadyExists)
    ));
    assert!(matches!(
        ops.add_service(
            &"unknown.example".to_string(),
            ("www".to_string(), loc.clone()),
            &record
        ),
        Err(DnsError::DnsRecordNotFound)
    ));
    assert!(matches!(
        ops.remove_service(&name, "absent".to_string(), &record),
        Err(DnsError::ServiceNotFound)
    ));
    assert!(matches!(
        ops.delete_dns(&"unknown.example".to_string(), &record),
        Err(DnsError::DnsRecordNotFound)
    ));
}

#[test]
fn records_carry_owners_and_identifier_forward() {
    let mut ops = DnsOperations::new_unregistered();
    let (pk, sk) = keypair(61);
    let name = "owned.example".to_string();
    let my_owners = vec![SignPublicKey(vec![8; 32]), SignPublicKey(vec![9; 32])];
    let record = ops
        .register_dns(name.clone(), &pk, &sk, &Vec::new(), my_owners.clone())
        .unwrap();
    assert_eq!(record.get_identifier(), &name);
    assert_eq!(record.get_owner_keys(), &my_owners);
    assert!(record.get_previous_owner_keys().is_empty());

    let loc = DirectoryKey::new(vec![4; 64], 15000, false, AccessLevel::Public);
    let next = ops
        .add_service(&name, ("www".to_string(), loc), &record)
        .unwrap();
    assert_eq!(next.get_identifier(), &name);
    assert_eq!(next.get_owner_keys(), &my_owners);
    assert_eq!(next.get_type_tag(), safe_dns::DNS_TAG);
}

#[test]
fn services_can_be_listed_without_owning_the_name() {
    // listing services is a pure read: a browsing client with an empty
    // index lists another registrant's services from the fetched record
    let mut owner_ops = DnsOperations::new_unregistered();
    let (pk, sk) = keypair(111);
    let name = "public.example".to_string();
    let loc = DirectoryKey::new(vec![9; 64], 15000, false, AccessLevel::Public);
    let record = owner_ops
        .register_dns(
            name.clone(),
            &pk,
            &sk,
            &vec![("www".to_string(), loc)],
            owners(),
        )
        .unwrap();

    let browser = DnsOperations::new_unregistered();
    assert_eq!(
        browser.get_all_services(&name, record.get_data()).unwrap(),
        vec!["www".to_string()]
    );
    // bytes of another kind still fail
    assert!(matches!(
        browser.get_all_services(&name, &vec![0u8; 3]),
        Err(DnsError::UnexpectedRecordType)
    ));
}

#[test]
fn fetched_data_of_another_kind_is_rejected() {
    let ops = DnsOperations::new_unregistered();
    assert!(matches!(
        ops.get_housing_structured_data(FetchedData::Other),
        Err(DnsError::UnexpectedRecordType)
    ));
    let sd = StructuredData::new(
        safe_dns::DNS_TAG,
        "a.b".to_string(),
        0,
        vec![1, 2, 3],
        Vec::new(),
        Vec::new(),
    );
    let back = ops
        .get_housing_structured_data(FetchedData::StructuredData(sd))
        .unwrap();
    assert_eq!(back.get_version(), 0);
    // the payload is no name record, so reading it as one fails
    assert!(matches!(
        ops.get_housing_sturctured_data_and_dns_record(FetchedData::StructuredData(back)),
        Err(DnsError::UnexpectedRecordType)
    ));
}

#[test]
fn registering_duplicate_services_keeps_the_last_location() {
    // building the initial record from a list with a repeated label keeps
    // the later location, as collecting pairs into a mapping would
    let mut ops = DnsOperations::new_unregistered();
    let (pk, sk) = keypair(71);
    let name = "last.wins".to_string();
    let loc_a = DirectoryKey::new(vec![1; 64], 15000, false, AccessLevel::Public);
    let loc_b = DirectoryKey::new(vec![2; 64], 15000, false, AccessLevel::Public);
    let services = vec![
        ("www".to_string(), loc_a),
        ("www".to_string(), loc_b.clone()),
    ];
    let record = ops
        .register_dns(name.clone(), &pk, &sk, &services, owners())
        .unwrap();
    let listed = ops.get_all_services(&name, record.get_data()).unwrap();
    assert_eq!(listed, vec!["www".to_string()]);
    assert_eq!(
        ops.get_service_home_directory_key(&"www".to_string(), record.get_data())
            .unwrap(),
        loc_b
    );
}

#[test]
fn corrupted_configuration_is_rejected_by_the_registry() {
    let (pk, sk) = keypair(81);
    let entry = DnsConfiguation {
        long_name: "twice.example".to_string(),
        encryption_keypair: (pk, sk),
    };
    let dup = entry.clone();
    assert!(matches!(
        DnsOperations::new(vec![entry, dup]),
        Err(DnsError::DnsConfigFileNotFoundOrCorrupted)
    ));
    let (pk2, _) = keypair(91);
    let short = DnsConfiguation {
        long_name: "short.key".to_string(),
        encryption_keypair: (pk2, SecretKey(vec![1; 5])),
    };
    assert!(matches!(
        DnsOperations::new(vec![short]),
        Err(DnsError::DnsConfigFileNotFoundOrCorrupted)
    ));
}

#[test]
fn registry_state_round_trips_through_the_configuration_file() {
    let mut ops = DnsOperations::new_unregistered();
    let (pk, sk) = keypair(101);
    ops.register_dns("persist.me".to_string(), &pk, &sk, &Vec::new(), owners())
        .unwrap();
    let file = ops.write_dns_configuaration_data();
    let reloaded = get_dns_configuaration_data(Some(&file)).unwrap();
    assert_eq!(reloaded, ops.get_dns_configuaration_data().clone());
    let ops2 = DnsOperations::new(reloaded).unwrap();
    assert_eq!(ops2.get_all_registered_names(), vec!["persist.me".to_string()]);
}

#[test]
fn initialisation_is_idempotent() {
    assert!(initialise_dns_configuaration(Ok(())).is_ok());
    assert!(initialise_dns_configuaration(Err(safe_dns::errors::NfsError::AlreadyExists)).is_ok());
    match initialise_dns_configuaration(Err(safe_dns::errors::NfsError::Other(-7))) {
        Err(DnsError::NfsError(safe_dns::errors::NfsError::Other(code))) => {
            assert_eq!(code, -7)
        },
        other => panic!("{:?}", other),
    }
    // writing uses the same collaborator; an empty store is sixteen bytes of
    // header and decodes back to no entries
    let bytes = write_dns_configuaration_data(&Vec::new());
    assert_eq!(
        bytes,
        vec![0xA1, 0x86, 0x01, 0, 0, 0, 0, 0, 0, 0, 0, 0, 0, 0, 0, 0]
    );
}
