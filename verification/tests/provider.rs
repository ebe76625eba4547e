use sequoia_openpgp::cert::CertBuilder;
use sequoia_openpgp::serialize::MarshalInto;
use wks::encoder::encode_local_part;
use wks::provider::KeyProvider;
use wks::store::KeyStore;

#[test]
fn discover_after_the_first_scan() {
    let (cert, _) = CertBuilder::new()
        .add_userid("Alice <alice@example.com>")
        .add_transport_encryption_subkey()
        .generate()
        .unwrap();
    let files = vec![("keys/alice.pgp".to_string(), cert.to_vec().unwrap())];
    let mut store = KeyStore::new();
    assert!(store.load_all(&files).is_empty());

    let found = store.discover(&encode_local_part("alice"), "example.com").unwrap();
    assert_eq!(found.fingerprint(), cert.fingerprint());
    assert_eq!(found.userids().count(), 1);
    assert_eq!(
        found.userids().next().unwrap().userid().email().unwrap(),
        Some("alice@example.com")
    );
    assert!(store.discover(&encode_local_part("bob"), "example.com").is_none());
    assert!(store.discover(&encode_local_part("alice"), "example.org").is_none());
}

#[test]
fn discover_sanitizes_what_it_serves() {
    let (cert, _) = CertBuilder::new()
        .add_userid("Alice <alice@example.com>")
        .add_userid("Alice <alice@example.org>")
        .add_user_attribute(vec![0, 1, 2])
        .add_transport_encryption_subkey()
        .add_storage_encryption_subkey()
        .add_signing_subkey()
        .generate()
        .unwrap();
    let mut store = KeyStore::new();
    store.import(cert.clone()).unwrap();

    let found = store.discover(&encode_local_part("alice"), "example.org").unwrap();
    assert!(!found.is_tsk());
    assert_eq!(found.userids().count(), 1);
    assert_eq!(
        found.userids().next().unwrap().userid().email().unwrap(),
        Some("alice@example.org")
    );
    assert_eq!(found.user_attributes().count(), 0);
    assert_eq!(found.keys().subkeys().count(), 2);
    // The store keeps the whole certificate.
    let stored = store.get(&cert.fingerprint()).unwrap();
    assert_eq!(stored.userids().count(), 2);
    assert_eq!(stored.user_attributes().count(), 1);
    assert_eq!(stored.keys().subkeys().count(), 3);
}

#[test]
fn discover_serves_no_user_id_whose_declared_address_differs() {
    let (cert, _) = CertBuilder::new().add_userid("Bob <Bob@Example.COM>").generate().unwrap();
    let mut store = KeyStore::new();
    store.import(cert.clone()).unwrap();
    let found = store.discover(&encode_local_part("bob"), "example.com").unwrap();
    assert_eq!(found.fingerprint(), cert.fingerprint());
    assert_eq!(found.userids().count(), 0);
}

#[test]
fn discover_serves_one_user_id_of_several_with_the_address() {
    let (cert, _) = CertBuilder::new()
        .add_userid("Alice <alice@example.com>")
        .add_userid("Alice Lovelace <alice@example.com>")
        .generate()
        .unwrap();
    let mut store = KeyStore::new();
    store.import(cert.clone()).unwrap();
    let found = store.discover(&encode_local_part("alice"), "example.com").unwrap();
    assert_eq!(found.fingerprint(), cert.fingerprint());
    assert_eq!(found.userids().count(), 1);
    assert_eq!(
        found.userids().next().unwrap().userid().email().unwrap(),
        Some("alice@example.com")
    );
}

#[test]
fn discover_ends_with_unload() {
    let (cert, _) =
        CertBuilder::new().add_userid("Alice <alice@example.com>").generate().unwrap();
    let mut store = KeyStore::new();
    store.load("keys/alice.pgp", &cert.to_vec().unwrap()).unwrap();
    assert!(store.discover(&encode_local_part("alice"), "example.com").is_some());
    store.unload("keys/alice.pgp").unwrap();
    assert!(store.discover(&encode_local_part("alice"), "example.com").is_none());
}
