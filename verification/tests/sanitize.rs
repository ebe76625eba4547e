use sequoia_openpgp::cert::CertBuilder;
use sequoia_openpgp::Cert;
use wks::cert::{describe, Capabilities, UserIdInfo};
use wks::sanitize::{decide_user_ids, sanitize_cert, subkey_kept, user_id_kept};

fn rich_cert() -> Cert {
    let (cert, _) = CertBuilder::new()
        .add_userid("Alice <alice@example.com>")
        .add_userid("Alice at work <alice@example.org>")
        .add_user_attribute(vec![0, 1, 2])
        .add_transport_encryption_subkey()
        .add_storage_encryption_subkey()
        .add_signing_subkey()
        .add_authentication_subkey()
        .generate()
        .unwrap();
    cert
}

fn emails_of(cert: &Cert) -> Vec<Option<String>> {
    let mut emails: Vec<Option<String>> =
        describe(cert).user_ids.into_iter().map(|user_id| user_id.email).collect();
    emails.sort();
    emails
}

fn capabilities_of(cert: &Cert) -> Vec<Option<Capabilities>> {
    describe(cert).subkeys.into_iter().map(|subkey| subkey.capabilities).collect()
}

#[test]
fn user_id_rule_is_an_exact_match() {
    assert!(user_id_kept(Some("alice@example.com"), "alice@example.com"));
    assert!(!user_id_kept(Some("Alice@example.com"), "alice@example.com"));
    assert!(!user_id_kept(Some("alice@example.co"), "alice@example.com"));
    assert!(!user_id_kept(None, "alice@example.com"));
    assert!(!user_id_kept(None, ""));
    assert!(user_id_kept(Some(""), ""));
}

#[test]
fn subkey_rule_asks_for_signing_or_transport_encryption() {
    let flags = |transport_encryption, signing| Capabilities { transport_encryption, signing };
    assert!(subkey_kept(Some(flags(true, false))));
    assert!(subkey_kept(Some(flags(false, true))));
    assert!(subkey_kept(Some(flags(true, true))));
    assert!(!subkey_kept(Some(flags(false, false))));
    assert!(!subkey_kept(None));
}

#[test]
fn describe_reads_what_the_certificate_holds() {
    let cert = rich_cert();
    assert_eq!(
        emails_of(&cert),
        vec![Some("alice@example.com".to_string()), Some("alice@example.org".to_string())]
    );
    let description = describe(&cert);
    assert_eq!(description.user_attributes, 1);
    assert_eq!(description.subkeys.len(), 4);
    let capabilities = capabilities_of(&cert);
    let transport =
        capabilities.iter().filter(|c| matches!(c, Some(c) if c.transport_encryption)).count();
    let signing = capabilities.iter().filter(|c| matches!(c, Some(c) if c.signing)).count();
    let neither = capabilities
        .iter()
        .filter(|c| matches!(c, Some(c) if !c.signing && !c.transport_encryption))
        .count();
    assert_eq!((transport, signing, neither), (1, 1, 2));
    // Values and fingerprints are those of the certificate.
    for (info, user_id) in description.user_ids.iter().zip(cert.userids()) {
        assert_eq!(info.value, user_id.userid().value());
    }
    for (info, subkey) in description.subkeys.iter().zip(cert.keys().subkeys()) {
        assert_eq!(info.fingerprint, subkey.key().fingerprint().to_hex());
    }
}

#[test]
fn describe_reads_a_user_id_without_an_address() {
    let (cert, _) = CertBuilder::new().add_userid("Just a name").generate().unwrap();
    let description = describe(&cert);
    assert_eq!(description.user_ids.len(), 1);
    assert_eq!(description.user_ids[0].value, b"Just a name");
    assert_eq!(description.user_ids[0].email, None);
    assert_eq!(description.user_ids[0].normalized, None);
    assert_eq!(description.user_attributes, 0);
    assert!(description.subkeys.is_empty());
}

#[test]
fn sanitized_certificate_is_minimal() {
    let cert = rich_cert();
    let out = sanitize_cert(cert.clone(), "alice@example.com");
    assert_eq!(emails_of(&out), vec![Some("alice@example.com".to_string())]);
    let description = describe(&out);
    assert_eq!(description.user_ids[0].value, b"Alice <alice@example.com>");
    assert_eq!(description.user_attributes, 0);
    assert_eq!(description.subkeys.len(), 2);
    for capabilities in capabilities_of(&out) {
        let capabilities = capabilities.unwrap();
        assert!(capabilities.signing || capabilities.transport_encryption);
    }
    assert_eq!(out.fingerprint(), cert.fingerprint());
}

#[test]
fn sanitized_certificate_is_what_the_library_retains() {
    let cert = rich_cert();
    let out = sanitize_cert(cert.clone(), "alice@example.org");
    assert_eq!(out.userids().count(), 1);
    assert_eq!(
        out.userids().next().unwrap().userid().email().unwrap(),
        Some("alice@example.org")
    );
    assert_eq!(out.user_attributes().count(), 0);
    assert_eq!(out.keys().subkeys().count(), 2);
    // The primary key stays.
    assert_eq!(out.primary_key().key().fingerprint(), cert.fingerprint());
}

#[test]
fn sanitizing_for_an_unknown_address_leaves_no_user_id() {
    let out = sanitize_cert(rich_cert(), "mallory@example.com");
    let description = describe(&out);
    assert!(description.user_ids.is_empty());
    assert_eq!(description.user_attributes, 0);
    assert_eq!(description.subkeys.len(), 2);
}

#[test]
fn sanitizing_compares_the_declared_address() {
    let (cert, _) = CertBuilder::new().add_userid("Bob <Bob@Example.COM>").generate().unwrap();
    let description = describe(&cert);
    assert_eq!(description.user_ids[0].email.as_deref(), Some("Bob@Example.COM"));
    assert_eq!(description.user_ids[0].normalized.as_deref(), Some("bob@example.com"));
    assert_eq!(describe(&sanitize_cert(cert.clone(), "bob@example.com")).user_ids.len(), 0);
    assert_eq!(
        emails_of(&sanitize_cert(cert, "Bob@Example.COM")),
        vec![Some("Bob@Example.COM".to_string())]
    );
}

#[test]
fn of_two_user_ids_of_one_address_the_first_stays() {
    let (cert, _) = CertBuilder::new()
        .add_userid("Alice <alice@example.com>")
        .add_userid("Alice Lovelace <alice@example.com>")
        .add_userid("Bob <bob@example.com>")
        .generate()
        .unwrap();
    let first = cert
        .userids()
        .find(|u| u.userid().email().ok().flatten() == Some("alice@example.com"))
        .unwrap()
        .userid()
        .value()
        .to_vec();
    let out = sanitize_cert(cert, "alice@example.com");
    assert_eq!(out.userids().count(), 1);
    let description = describe(&out);
    assert_eq!(description.user_ids.len(), 1);
    assert_eq!(description.user_ids[0].value, first);
    assert_eq!(description.user_ids[0].email.as_deref(), Some("alice@example.com"));
}

#[test]
fn decisions_keep_the_first_that_declares_the_target() {
    let info = |value: &str, email: Option<&str>| UserIdInfo {
        value: value.as_bytes().to_vec(),
        email: email.map(String::from),
        normalized: email.map(|e| e.to_lowercase()),
    };
    let infos = vec![
        info("Nobody", None),
        info("Bob <bob@example.com>", Some("bob@example.com")),
        info("Alice <alice@example.com>", Some("alice@example.com")),
        info("A. <Alice@example.com>", Some("Alice@example.com")),
        info("Alice L. <alice@example.com>", Some("alice@example.com")),
    ];
    assert_eq!(
        decide_user_ids(&infos, "alice@example.com"),
        vec![false, false, true, false, false]
    );
    assert_eq!(
        decide_user_ids(&infos, "bob@example.com"),
        vec![false, true, false, false, false]
    );
    assert_eq!(decide_user_ids(&infos, "carol@example.com"), vec![false; 5]);
    assert!(decide_user_ids(&Vec::new(), "alice@example.com").is_empty());
}

#[test]
fn sanitizing_keeps_a_stripped_certificate_stripped() {
    let cert = rich_cert().strip_secret_key_material();
    assert!(!sanitize_cert(cert, "alice@example.com").is_tsk());
}
