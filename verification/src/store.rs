//! The store of certificates: an index by fingerprint, an index by the
//! addresses that the certificates' valid user IDs name, and a record of the
//! file that each certificate came from.

use crate::cert::{
    cert_packets, fingerprint_hex, fingerprint_to_hex, parsed, primary_fingerprint,
    without_secrets,
};
use crate::error::KeyError;
use crate::evaluate::EvaluatedCert;
use crate::index::Index;
use crate::model::{EmailIdentity, StoreState};
use sequoia_openpgp::{Cert, Fingerprint};
use vstd::prelude::*;

verus! {

/// Stores and manages certificates.
pub struct KeyStore {
    index: Index,
}

impl View for KeyStore {
    type V = StoreState;

    closed spec fn view(&self) -> StoreState {
        self.index@
    }
}

/// The files that a scan could not load: the path of each, and whether its
/// contents were no certificate.
pub open spec fn failed_files(failures: Seq<(String, KeyError)>) -> Seq<(Seq<char>, bool)> {
    Seq::new(failures.len(), |i: int| (failures[i].0@, failures[i].1 is Parse))
}

impl KeyStore {
    #[verifier::type_invariant]
    spec fn in_order(self) -> bool {
        self.index.wf()
    }

    /// Takes the index out, to work on it, and leaves an empty one.
    fn take(&mut self) -> (index: Index)
        ensures
            index.wf(),
            index@ == old(self)@,
    {
        proof {
            use_type_invariant(&*self);
        }
        let mut index = Index::new();
        core::mem::swap(&mut self.index, &mut index);
        index
    }

    /// Puts the index back.
    fn put(&mut self, index: Index)
        requires
            index.wf(),
        ensures
            final(self)@ == index@,
    {
        self.index = index;
    }

    /// An empty store.
    pub fn new() -> (store: KeyStore)
        ensures
            store@ == StoreState::empty(),
    {
        KeyStore { index: Index::new() }
    }

    /// Retrieves a certificate by fingerprint. Fingerprints are told apart by
    /// their hexadecimal digits.
    pub fn get(&self, fp: &Fingerprint) -> (r: Option<&Cert>)
        ensures
            self@.wf(),
            match r {
                Some(cert) => self@.keys.contains_key(fingerprint_hex(*fp)) && cert_packets(*cert)
                    == self@.keys[fingerprint_hex(*fp)],
                None => !self@.keys.contains_key(fingerprint_hex(*fp)),
            },
    {
        proof {
            use_type_invariant(self);
        }
        let hex = fingerprint_to_hex(fp);
        self.index.get(&hex)
    }

    /// Enters a certificate that was evaluated: enters its addresses and
    /// stores the certificate, merged into the one that the store has under
    /// the same fingerprint. Returns the fingerprint.
    pub fn import_evaluated(&mut self, evaluated: EvaluatedCert) -> (hex: String)
        ensures
            final(self)@.wf(),
            final(self)@ == old(self)@.imported(evaluated.packets(), evaluated.emails()),
            old(self)@.keeps(evaluated.packets(), final(self)@),
            hex@ == primary_fingerprint(evaluated.packets()),
    {
        let mut index = self.take();
        let hex = index.import_evaluated(evaluated);
        self.put(index);
        hex
    }

    /// Imports a certificate: strips its secret key material, evaluates it
    /// under the standard policy at the present time, enters the address of
    /// each user ID that is valid then, and stores the certificate, merged
    /// into the one that the store has under the same fingerprint.
    pub fn import(&mut self, key: Cert) -> (r: Result<(), KeyError>)
        ensures
            final(self)@.wf(),
            match r {
                Ok(()) => old(self)@.imports_cert(cert_packets(key), final(self)@),
                Err(e) => e is Policy && final(self)@ == old(self)@,
            },
    {
        match EvaluatedCert::evaluate(key) {
            Ok(evaluated) => {
                let ghost emails = evaluated.emails();
                let _ = self.import_evaluated(evaluated);
                assert(final(self)@ == old(self)@.imported(
                    without_secrets(cert_packets(key)),
                    emails,
                ));
                Ok(())
            },
            Err(error) => {
                proof {
                    use_type_invariant(&*self);
                }
                Err(error)
            },
        }
    }

    /// Removes a certificate by fingerprint, with every identity that leads
    /// to it. The record of files stays as it is. Fingerprints are told apart
    /// by their hexadecimal digits.
    pub fn delete(&mut self, fp: &Fingerprint) -> (r: Result<Cert, KeyError>)
        ensures
            final(self)@.wf(),
            match r {
                Ok(cert) => {
                    &&& old(self)@.keys.contains_key(fingerprint_hex(*fp))
                    &&& cert_packets(cert) == old(self)@.keys[fingerprint_hex(*fp)]
                    &&& final(self)@ == old(self)@.deleted(fingerprint_hex(*fp))
                },
                Err(e) => {
                    &&& e is KeyNotFound
                    &&& !old(self)@.keys.contains_key(fingerprint_hex(*fp))
                    &&& final(self)@ == old(self)@
                },
            },
    {
        let hex = fingerprint_to_hex(fp);
        let mut index = self.take();
        let r = index.delete_hex(&hex);
        self.put(index);
        r
    }

    /// Enters a certificate that was read from the file `path` and evaluated,
    /// and records that the file gave it.
    pub fn load_evaluated(&mut self, path: &str, evaluated: EvaluatedCert)
        ensures
            final(self)@.wf(),
            final(self)@ == old(self)@.loaded(path@, evaluated.packets(), evaluated.emails()),
            old(self)@.keeps(evaluated.packets(), final(self)@),
    {
        let mut index = self.take();
        index.load_evaluated(path, evaluated);
        self.put(index);
    }

    /// Loads a certificate from the contents of the file `path`: reads the
    /// certificate, imports it, and records that the file gave it.
    pub fn load(&mut self, path: &str, contents: &[u8]) -> (r: Result<(), KeyError>)
        ensures
            final(self)@.wf(),
            match r {
                Ok(()) => old(self)@.loads_file(path@, contents@, final(self)@),
                Err(e) => {
                    &&& final(self)@ == old(self)@
                    &&& e is Parse || e is Policy
                    &&& e is Parse <==> parsed(contents@) is None
                },
            },
    {
        match EvaluatedCert::read(contents) {
            Ok(evaluated) => {
                let ghost emails = evaluated.emails();
                self.load_evaluated(path, evaluated);
                assert(final(self)@ == old(self)@.loaded(
                    path@,
                    without_secrets(parsed(contents@)->0),
                    emails,
                ));
                Ok(())
            },
            Err(error) => {
                proof {
                    use_type_invariant(&*self);
                }
                Err(error)
            },
        }
    }

    /// Unloads the file `path`: forgets that the file gave a certificate and,
    /// where no other file is on record for that certificate, removes it and
    /// every identity that leads to it. Returns the certificate.
    pub fn unload(&mut self, path: &str) -> (r: Result<Cert, KeyError>)
        ensures
            final(self)@.wf(),
            match r {
                Ok(cert) => {
                    &&& old(self)@.files.contains_key(path@)
                    &&& old(self)@.keys.contains_key(old(self)@.files[path@])
                    &&& cert_packets(cert) == old(self)@.keys[old(self)@.files[path@]]
                    &&& final(self)@ == old(self)@.unloaded(path@)
                },
                Err(e) => if old(self)@.files.contains_key(path@) {
                    &&& e is KeyNotFound
                    &&& !old(self)@.keys.contains_key(old(self)@.files[path@])
                    &&& final(self)@ == old(self)@.unloaded(path@)
                } else {
                    &&& e is FileNotFound
                    &&& final(self)@ == old(self)@
                },
            },
    {
        let mut index = self.take();
        let r = index.unload(path);
        self.put(index);
        r
    }

    /// Finds the certificate of an address by the token of its local part and
    /// its domain. Returns the local part, the domain and the certificate.
    pub fn find_by_email(&self, encoded: &str, domain: &str) -> (r: Option<(String, String, Cert)>)
        ensures
            self@.wf(),
            match r {
                Some((local_part, found_domain, cert)) => {
                    let id = EmailIdentity {
                        encoded_local: encoded@,
                        local_part: local_part@,
                        domain: found_domain@,
                    };
                    &&& self@.matches(id, encoded@, domain@)
                    &&& cert_packets(cert) == self@.keys[self@.uids[id]]
                },
                None => forall|id: EmailIdentity| !self@.matches(id, encoded@, domain@),
            },
    {
        proof {
            use_type_invariant(self);
        }
        self.index.find_by_email(encoded, domain)
    }

    /// Loads each of `files`, a path with the contents of the file, in turn.
    /// A file that cannot be loaded is passed over. Returns the path and the
    /// error of each such file.
    pub fn load_all(&mut self, files: &Vec<(String, Vec<u8>)>) -> (failures: Vec<
        (String, KeyError),
    >)
        ensures
            final(self)@.wf(),
            old(self)@.scans(files.deep_view(), failed_files(failures@), final(self)@),
            forall|k: int|
                0 <= k < failures.len() ==> (#[trigger] failures[k]).1 is Parse
                    || failures[k].1 is Policy,
    {
        let mut failures: Vec<(String, KeyError)> = Vec::new();
        let ghost all = files.deep_view();
        let mut i: usize = 0;
        proof {
            use_type_invariant(&*self);
            assert(failed_files(failures@) =~= Seq::<(Seq<char>, bool)>::empty());
        }
        while i < files.len()
            invariant
                i <= files.len(),
                all == files.deep_view(),
                self@.wf(),
                old(self)@.scans(all.take(i as int), failed_files(failures@), self@),
                forall|k: int|
                    0 <= k < failures.len() ==> (#[trigger] failures[k]).1 is Parse
                        || failures[k].1 is Policy,
            decreases files.len() - i,
        {
            let ghost mid = self@;
            let ghost failed = failed_files(failures@);
            let path = &files[i].0;
            let outcome = self.load(path.as_str(), files[i].1.as_slice());
            let ghost ok = outcome is Ok;
            if let Err(error) = outcome {
                failures.push((path.clone(), error));
            }
            proof {
                let next = all.take(i + 1);
                assert(next.drop_last() =~= all.take(i as int));
                assert(next.last() == (files[i as int].0@, files[i as int].1@));
                if ok {
                    assert(failed_files(failures@) =~= failed);
                    assert(mid.loads_file(next.last().0, next.last().1, self@));
                } else {
                    assert(failed_files(failures@).drop_last() =~= failed);
                }
            }
            i += 1;
        }
        assert(all.take(i as int) =~= all);
        failures
    }
}

impl Default for KeyStore {
    fn default() -> (store: KeyStore)
        ensures
            store@ == StoreState::empty(),
    {
        KeyStore::new()
    }
}

} // verus!
