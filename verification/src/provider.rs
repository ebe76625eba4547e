//! Looking a certificate up for an address.

use crate::cert::{cert_packets, holds_no_secret};
use crate::sanitize::sanitize_cert;
use crate::store::KeyStore;
use sequoia_openpgp::Cert;
use vstd::prelude::*;
use vstd::string::StringExecFns;

verus! {

/// A source of certificates for addresses.
pub trait KeyProvider {
    /// Discovers a certificate based on the token of the local part and the
    /// domain of an address.
    fn discover(&self, hashed: &str, domain: &str) -> Option<Cert>;
}

impl KeyProvider for KeyStore {
    /// Finds the certificate of an identity with the token and the domain,
    /// and sanitises it for the address of that identity.
    fn discover(&self, hashed: &str, domain: &str) -> (found: Option<Cert>)
        ensures
            match found {
                Some(cert) => self@.serves(hashed@, domain@, cert_packets(cert))
                    && holds_no_secret(cert_packets(cert)),
                None => forall|id| !self@.matches(id, hashed@, domain@),
            },
    {
        match self.find_by_email(hashed, domain) {
            Some((local_part, domain, cert)) => {
                let mut email = local_part;
                email.append("@");
                email.append(domain.as_str());
                proof {
                    reveal_strlit("@");
                    assert("@"@ =~= seq!['@']);
                }
                Some(sanitize_cert(cert, email.as_str()))
            },
            None => None,
        }
    }
}

} // verus!
