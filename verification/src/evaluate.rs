//! A certificate that is ready for the store: read, stripped of secret key
//! material and evaluated, so that the store itself only has to enter it.

use crate::cert::{
    cert_packets, holds_no_secret, parse_cert, parsed, public_part, strip_secrets, user_ids,
    valid_emails,
};
use crate::error::KeyError;
use crate::model::{all_named_by, named_by, present};
use sequoia_openpgp::Cert;
use vstd::prelude::*;

verus! {

/// A certificate without secret key material, with the addresses that its
/// valid user IDs name.
pub struct EvaluatedCert {
    cert: Cert,
    emails: Vec<String>,
}

impl EvaluatedCert {
    #[verifier::type_invariant]
    spec fn stripped(self) -> bool {
        holds_no_secret(cert_packets(self.cert))
    }

    /// The packets of the certificate.
    pub closed spec fn packets(&self) -> Seq<u8> {
        cert_packets(self.cert)
    }

    /// The addresses.
    pub closed spec fn emails(&self) -> Seq<Seq<char>> {
        self.emails.deep_view()
    }

    /// Strips a certificate of its secret key material and takes `emails` for
    /// the addresses that its valid user IDs name.
    pub fn with_emails(key: Cert, emails: Vec<String>) -> (evaluated: EvaluatedCert)
        ensures
            public_part(evaluated.packets(), cert_packets(key)),
            evaluated.emails() == emails.deep_view(),
    {
        EvaluatedCert { cert: strip_secrets(key), emails }
    }

    /// Strips a certificate of its secret key material and evaluates it under
    /// the standard policy at the present time. The addresses are those of the
    /// user IDs that are valid then. A certificate without a valid user ID is
    /// evaluated like any other; it fails only where the policy cannot be
    /// applied to the certificate.
    pub fn evaluate(key: Cert) -> (r: Result<EvaluatedCert, KeyError>)
        ensures
            match r {
                Ok(evaluated) => {
                    &&& public_part(evaluated.packets(), cert_packets(key))
                    &&& all_named_by(evaluated.packets(), evaluated.emails())
                },
                Err(e) => e is Policy,
            },
    {
        let key = strip_secrets(key);
        // The user IDs that are valid under the policy
        match valid_emails(&key) {
            Ok(found) => {
                let emails = present_addresses(&found);
                proof {
                    let packets = cert_packets(key);
                    assert forall|i: int| 0 <= i < emails.len() implies named_by(
                        packets,
                        #[trigger] emails.deep_view()[i],
                    ) by {
                        let k = lemma_present_was_found(found.deep_view(), i);
                        let j = choose|j: int|
                            0 <= j < user_ids(packets).len() && user_ids(packets)[j].normalized
                                == found.deep_view()[k];
                        assert(user_ids(packets)[j].normalized == Some(emails.deep_view()[i]));
                    }
                }
                Ok(EvaluatedCert { cert: key, emails })
            },
            Err(error) => Err(KeyError::Policy(error)),
        }
    }

    /// Reads a certificate from the contents of a file, binary or armored, and
    /// evaluates it.
    pub fn read(contents: &[u8]) -> (r: Result<EvaluatedCert, KeyError>)
        ensures
            match r {
                Ok(evaluated) => {
                    &&& parsed(contents@) matches Some(packets) && public_part(
                        evaluated.packets(),
                        packets,
                    )
                    &&& all_named_by(evaluated.packets(), evaluated.emails())
                },
                Err(e) => {
                    &&& e is Parse || e is Policy
                    &&& e is Parse <==> parsed(contents@) is None
                },
            },
    {
        match parse_cert(contents) {
            Ok(cert) => EvaluatedCert::evaluate(cert),
            Err(error) => Err(KeyError::Parse(error)),
        }
    }

    /// The certificate and the addresses.
    pub fn into_parts(self) -> (parts: (Cert, Vec<String>))
        ensures
            cert_packets(parts.0) == self.packets(),
            parts.1.deep_view() == self.emails(),
            holds_no_secret(self.packets()),
    {
        proof {
            use_type_invariant(&self);
        }
        (self.cert, self.emails)
    }
}

/// Each of the addresses that are present in `found` is one of `found`.
pub proof fn lemma_present_was_found(found: Seq<Option<Seq<char>>>, i: int) -> (k: int)
    requires
        0 <= i < present(found).len(),
    ensures
        0 <= k < found.len(),
        found[k] == Some(present(found)[i]),
    decreases found.len(),
{
    let rest = found.drop_last();
    if found.last() is Some && i == present(rest).len() {
        found.len() - 1
    } else {
        let k = lemma_present_was_found(rest, i);
        assert(rest[k] == found[k]);
        k
    }
}

/// Collects the addresses that are present, in their order.
pub fn present_addresses(found: &Vec<Option<String>>) -> (emails: Vec<String>)
    ensures
        emails.deep_view() == present(found.deep_view()),
{
    let mut emails: Vec<String> = Vec::new();
    let ghost all = found.deep_view();
    let mut i: usize = 0;
    assert(emails.deep_view() =~= present(all.take(0)));
    while i < found.len()
        invariant
            i <= found.len(),
            all == found.deep_view(),
            emails.deep_view() == present(all.take(i as int)),
        decreases found.len() - i,
    {
        let ghost before = emails.deep_view();
        match &found[i] {
            Some(email) => {
                emails.push(email.clone());
                assert(emails.deep_view() =~= before.push(email@));
            },
            None => {},
        }
        proof {
            assert(all.take(i + 1).drop_last() =~= all.take(i as int));
            assert(all.take(i + 1).last() == found[i as int].deep_view());
        }
        i += 1;
    }
    assert(all.take(i as int) =~= all);
    emails
}

} // verus!
