//! Certificates and fingerprints of the OpenPGP library, as the contracts of
//! this crate see them.
//!
//! A certificate is opaque to the verifier. The contracts know it by the
//! packets it holds, and know the results of the library's operations as named
//! functions of those packets.

use sequoia_openpgp::anyhow::Error;
use sequoia_openpgp::parse::Parse;
use sequoia_openpgp::policy::StandardPolicy;
use sequoia_openpgp::{Cert, Fingerprint};
use vstd::prelude::*;

verus! {

#[verifier::external_type_specification]
#[verifier::external_body]
pub struct ExCert(Cert);

#[verifier::external_type_specification]
#[verifier::external_body]
pub struct ExFingerprint(Fingerprint);

#[verifier::external_type_specification]
#[verifier::external_body]
pub struct ExError(Error);

/// What a subkey's newest self-signature says the key may be used for, as far
/// as this crate asks.
#[derive(Clone, Copy, Debug, PartialEq, Eq, Structural)]
pub struct Capabilities {
    pub transport_encryption: bool,
    pub signing: bool,
}

/// A user ID of a certificate.
#[derive(Debug)]
pub struct UserIdInfo {
    /// The bytes of the user ID.
    pub value: Vec<u8>,
    /// The e-mail address that the user ID declares, if it declares one.
    pub email: Option<String>,
    /// That address in its normal form, if it has one.
    pub normalized: Option<String>,
}

/// What a `UserIdInfo` reads.
pub struct UserIdFacts {
    pub value: Seq<u8>,
    pub email: Option<Seq<char>>,
    pub normalized: Option<Seq<char>>,
}

impl View for UserIdInfo {
    type V = UserIdFacts;

    open spec fn view(&self) -> UserIdFacts {
        UserIdFacts {
            value: self.value@,
            email: match self.email {
                Some(email) => Some(email@),
                None => None,
            },
            normalized: match self.normalized {
                Some(normalized) => Some(normalized@),
                None => None,
            },
        }
    }
}

/// A subkey of a certificate.
#[derive(Debug)]
pub struct SubkeyInfo {
    /// The fingerprint of the subkey, as hexadecimal digits.
    pub fingerprint: String,
    /// What the newest self-signature of the subkey declares, if it declares
    /// anything.
    pub capabilities: Option<Capabilities>,
}

/// What a `SubkeyInfo` reads.
pub struct SubkeyFacts {
    pub fingerprint: Seq<char>,
    pub capabilities: Option<Capabilities>,
}

impl View for SubkeyInfo {
    type V = SubkeyFacts;

    open spec fn view(&self) -> SubkeyFacts {
        SubkeyFacts { fingerprint: self.fingerprint@, capabilities: self.capabilities }
    }
}

/// The OpenPGP packets that a certificate holds, in their serialised form,
/// secret key material included.
pub uninterp spec fn cert_packets(cert: Cert) -> Seq<u8>;

/// The hexadecimal digits of a fingerprint, upper case and without spaces.
pub uninterp spec fn fingerprint_hex(fingerprint: Fingerprint) -> Seq<char>;

/// The packets of the certificate that `Cert::from_bytes` reads from `data`,
/// binary or armored; `None` where it reports an error.
pub uninterp spec fn parsed(data: Seq<u8>) -> Option<Seq<u8>>;

/// The fingerprint of the primary key of the certificate that holds
/// `packets`, as hexadecimal digits.
pub uninterp spec fn primary_fingerprint(packets: Seq<u8>) -> Seq<char>;

/// The packets that `Cert::strip_secret_key_material` leaves of `packets`.
pub uninterp spec fn without_secrets(packets: Seq<u8>) -> Seq<u8>;

/// The packets of the certificate that `Cert::merge_public_and_secret` makes
/// of the certificate that holds `packets` and the one that holds `other`.
pub uninterp spec fn merged(packets: Seq<u8>, other: Seq<u8>) -> Seq<u8>;

/// The user IDs that `Cert::userids` yields, in that order: of each the
/// value, the e-mail address that `UserID::email` reads from it, and the one
/// that `UserID::email_normalized` reads from it; `None` where the call reads
/// no address or reports an error.
pub uninterp spec fn user_ids(packets: Seq<u8>) -> Seq<UserIdFacts>;

/// The number of user attributes that `Cert::user_attributes` yields.
pub uninterp spec fn user_attribute_count(packets: Seq<u8>) -> nat;

/// The subkeys that `Cert::keys().subkeys()` yields, in that order: of each
/// the fingerprint and the key flags of the first of its self-signatures,
/// which is the newest, `None` where the subkey has no self-signature or the
/// signature has no key flags.
pub uninterp spec fn subkeys(packets: Seq<u8>) -> Seq<SubkeyFacts>;

/// Whether the certificate that holds `packets` is free of secret key
/// material: stripping it changes nothing.
pub open spec fn holds_no_secret(packets: Seq<u8>) -> bool {
    without_secrets(packets) == packets
}

/// Whether `stripped` is the public part of `packets`: the same fingerprint
/// and the same contents, without secret key material.
pub open spec fn public_part(stripped: Seq<u8>, packets: Seq<u8>) -> bool {
    &&& stripped == without_secrets(packets)
    &&& primary_fingerprint(stripped) == primary_fingerprint(packets)
    &&& contents(stripped) == contents(packets)
    &&& holds_no_secret(stripped)
}

/// What this crate reads of a certificate.
pub struct Contents {
    pub user_ids: Seq<UserIdFacts>,
    pub user_attributes: nat,
    pub subkeys: Seq<SubkeyFacts>,
}

/// The contents of the certificate that holds `packets`.
pub open spec fn contents(packets: Seq<u8>) -> Contents {
    Contents {
        user_ids: user_ids(packets),
        user_attributes: user_attribute_count(packets),
        subkeys: subkeys(packets),
    }
}

/// Whether `after` holds all that `before` holds: each of its user IDs, a
/// subkey for each fingerprint of its subkeys, and no fewer user attributes.
pub open spec fn extends(after: Contents, before: Contents) -> bool {
    &&& forall|i: int|
        0 <= i < before.user_ids.len() ==> after.user_ids.contains(#[trigger] before.user_ids[i])
    &&& forall|i: int|
        0 <= i < before.subkeys.len() ==> exists|j: int|
            0 <= j < after.subkeys.len() && after.subkeys[j].fingerprint
                == (#[trigger] before.subkeys[i]).fingerprint
    &&& after.user_attributes >= before.user_attributes
}

/// The views of `items`, in their order.
pub open spec fn views_of<T: View>(items: Seq<T>) -> Seq<T::V> {
    Seq::new(items.len(), |i: int| items[i]@)
}

/// Calls `Cert::from_bytes`.
#[verifier::external_body]
pub(crate) fn parse_cert(data: &[u8]) -> (r: Result<Cert, Error>)
    ensures
        match r {
            Ok(cert) => parsed(data@) == Some(cert_packets(cert)),
            Err(_) => parsed(data@) is None,
        },
{
    Cert::from_bytes(data)
}

/// Calls `Cert::fingerprint`.
#[verifier::external_body]
pub(crate) fn primary_key_fingerprint(cert: &Cert) -> (fingerprint: Fingerprint)
    ensures
        fingerprint_hex(fingerprint) == primary_fingerprint(cert_packets(*cert)),
{
    cert.fingerprint()
}

/// Calls `Fingerprint::to_hex`.
#[verifier::external_body]
pub(crate) fn fingerprint_to_hex(fingerprint: &Fingerprint) -> (hex: String)
    ensures
        hex@ == fingerprint_hex(*fingerprint),
{
    fingerprint.to_hex()
}

/// Calls `Cert::strip_secret_key_material`, which takes the secret part from
/// the primary key and from every subkey and leaves the rest as it is: the
/// public keys, and with them the fingerprints, the user IDs, the user
/// attributes and all signatures. A second call therefore changes nothing.
#[verifier::external_body]
pub(crate) fn strip_secrets(cert: Cert) -> (out: Cert)
    ensures
        cert_packets(out) == without_secrets(cert_packets(cert)),
        primary_fingerprint(cert_packets(out)) == primary_fingerprint(cert_packets(cert)),
        contents(cert_packets(out)) == contents(cert_packets(cert)),
        holds_no_secret(cert_packets(out)),
{
    cert.strip_secret_key_material()
}

/// Calls `Cert::merge_public_and_secret`. It reports an error where the two
/// fingerprints differ, and in no other case. It puts the user IDs, user
/// attributes and subkeys of both certificates together and makes one of
/// those that are equal: it adds and drops none. The result keeps the primary
/// key, and what secret key material it holds comes from one of the two.
#[verifier::external_body]
pub(crate) fn merge_certs(cert: Cert, other: Cert) -> (r: Result<Cert, Error>)
    ensures
        r is Ok <==> primary_fingerprint(cert_packets(cert)) == primary_fingerprint(
            cert_packets(other),
        ),
        r matches Ok(out) ==> {
            &&& cert_packets(out) == merged(cert_packets(cert), cert_packets(other))
            &&& primary_fingerprint(cert_packets(out)) == primary_fingerprint(cert_packets(cert))
            &&& extends(contents(cert_packets(out)), contents(cert_packets(cert)))
            &&& extends(contents(cert_packets(out)), contents(cert_packets(other)))
            &&& holds_no_secret(cert_packets(cert)) && holds_no_secret(cert_packets(other))
                ==> holds_no_secret(cert_packets(out))
        },
{
    cert.merge_public_and_secret(other)
}

/// Evaluates the certificate under `StandardPolicy` at the present time and
/// returns, for each user ID that is valid then, what
/// `UserID::email_normalized` reads from it; `None` where it reads no address
/// or reports an error. The outer error is that of `Cert::with_policy`.
/// Which user IDs are valid depends on the time of the call; all that holds
/// of every outcome is that each is a user ID of the certificate.
#[verifier::external_body]
pub(crate) fn valid_emails(cert: &Cert) -> (r: Result<Vec<Option<String>>, Error>)
    ensures
        r matches Ok(found) ==> forall|i: int|
            0 <= i < found.len() ==> exists|j: int|
                0 <= j < user_ids(cert_packets(*cert)).len() && user_ids(
                    cert_packets(*cert),
                )[j].normalized == #[trigger] found.deep_view()[i],
{
    let policy = StandardPolicy::new();
    let valid = cert.with_policy(&policy, None)?;
    Ok(valid.userids().map(|uid| uid.userid().email_normalized().ok().flatten()).collect())
}

/// Reads the value, `UserID::email` and `UserID::email_normalized` of each
/// user ID that `Cert::userids` yields.
#[verifier::external_body]
pub(crate) fn read_user_ids(cert: &Cert) -> (infos: Vec<UserIdInfo>)
    ensures
        views_of(infos@) == user_ids(cert_packets(*cert)),
{
    cert.userids().map(|ua| UserIdInfo {
        value: ua.userid().value().to_vec(),
        email: ua.userid().email().ok().flatten().map(String::from),
        normalized: ua.userid().email_normalized().ok().flatten(),
    }).collect()
}

/// Counts what `Cert::user_attributes` yields.
#[verifier::external_body]
pub(crate) fn count_user_attributes(cert: &Cert) -> (count: usize)
    ensures
        count == user_attribute_count(cert_packets(*cert)),
{
    cert.user_attributes().count()
}

/// Reads, for each subkey that `Cert::keys().subkeys()` yields, the
/// fingerprint of the key and the key flags of the first signature that
/// `self_signatures` yields.
#[verifier::external_body]
pub(crate) fn read_subkeys(cert: &Cert) -> (infos: Vec<SubkeyInfo>)
    ensures
        views_of(infos@) == subkeys(cert_packets(*cert)),
{
    cert.keys().subkeys().map(|sk| SubkeyInfo {
        fingerprint: sk.key().fingerprint().to_hex(),
        capabilities: sk.self_signatures().next().and_then(|sig| sig.key_flags()).map(|f| {
            Capabilities {
                transport_encryption: f.for_transport_encryption(),
                signing: f.for_signing(),
            }
        }),
    }).collect()
}

/// Calls `Cert::clone`.
#[verifier::external_body]
pub(crate) fn clone_cert(cert: &Cert) -> (copy: Cert)
    ensures
        cert_packets(copy) == cert_packets(*cert),
{
    cert.clone()
}

/// Writes the error as its `Display` impl does.
#[verifier::external_body]
pub(crate) fn error_text(error: &Error) -> (text: String) {
    format!("{}", error)
}

/// The fingerprint of the certificate's primary key, as hexadecimal digits.
pub fn fingerprint_of(cert: &Cert) -> (hex: String)
    ensures
        hex@ == primary_fingerprint(cert_packets(*cert)),
{
    fingerprint_to_hex(&primary_key_fingerprint(cert))
}

/// What this crate reads of a certificate, in executable form.
#[derive(Debug)]
pub struct Description {
    /// The user IDs, in the certificate's order.
    pub user_ids: Vec<UserIdInfo>,
    /// The number of user attributes.
    pub user_attributes: usize,
    /// The subkeys, in the certificate's order.
    pub subkeys: Vec<SubkeyInfo>,
}

impl View for Description {
    type V = Contents;

    open spec fn view(&self) -> Contents {
        Contents {
            user_ids: views_of(self.user_ids@),
            user_attributes: self.user_attributes as nat,
            subkeys: views_of(self.subkeys@),
        }
    }
}

/// Reads the contents of a certificate.
pub fn describe(cert: &Cert) -> (description: Description)
    ensures
        description@ == contents(cert_packets(*cert)),
{
    Description {
        user_ids: read_user_ids(cert),
        user_attributes: count_user_attributes(cert),
        subkeys: read_subkeys(cert),
    }
}

/// Contents hold all that they hold.
pub proof fn lemma_extends_itself(c: Contents)
    ensures
        extends(c, c),
{
    assert forall|i: int| 0 <= i < c.subkeys.len() implies exists|j: int|
        0 <= j < c.subkeys.len() && c.subkeys[j].fingerprint == (
        #[trigger] c.subkeys[i]).fingerprint by {
        assert(c.subkeys[i].fingerprint == c.subkeys[i].fingerprint);
    }
}

} // verus!
