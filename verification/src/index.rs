//! The three tables of the store and the operations on them, for a caller
//! that keeps them in order.

use crate::cert::{
    cert_packets, clone_cert, contents, fingerprint_of, lemma_extends_itself, merge_certs,
    primary_fingerprint,
};
use crate::encoder::encode_local_part;
use crate::error::KeyError;
use crate::evaluate::EvaluatedCert;
use crate::model::{identity_of, indexed, names, purged, referenced, EmailIdentity, StoreState};
use crate::table::{lemma_entry_in_map, lemma_map_has_entry, Key, Table};
use crate::text::{split_address, str_eq};
use sequoia_openpgp::Cert;
use vstd::pervasive::unreached;
use vstd::prelude::*;

verus! {

/// An address as the store indexes it.
#[derive(Debug)]
pub struct EmailComponents {
    /// The token of the local part: 32 characters.
    pub encoded_local: String,
    /// The local part as the certificate names it.
    pub local_part: String,
    /// The domain.
    pub domain: String,
}

impl View for EmailComponents {
    type V = EmailIdentity;

    open spec fn view(&self) -> EmailIdentity {
        EmailIdentity {
            encoded_local: self.encoded_local@,
            local_part: self.local_part@,
            domain: self.domain@,
        }
    }
}

impl Key for EmailComponents {
    fn same(&self, other: &Self) -> (eq: bool) {
        self.encoded_local == other.encoded_local && self.local_part == other.local_part
            && self.domain == other.domain
    }
}

/// The packets of a certificate, as a function.
pub open spec fn packets_of() -> spec_fn(Cert) -> Seq<u8> {
    |cert: Cert| cert_packets(cert)
}

/// The characters of a string, as a function.
pub open spec fn text_of() -> spec_fn(String) -> Seq<char> {
    |text: String| text@
}

/// The certificates by fingerprint, the fingerprints by identity, and the
/// fingerprints by file.
pub struct Index {
    keys: Table<String, Cert>,
    uids: Table<EmailComponents, String>,
    files: Table<String, String>,
}

impl View for Index {
    type V = StoreState;

    closed spec fn view(&self) -> StoreState {
        StoreState {
            keys: self.keys.map().map_values(packets_of()),
            uids: self.uids.map().map_values(text_of()),
            files: self.files.map().map_values(text_of()),
        }
    }
}

impl Index {
    /// The three tables are in order.
    pub closed spec fn tables_wf(&self) -> bool {
        self.keys.wf() && self.uids.wf() && self.files.wf()
    }

    /// The tables are in order and what they hold is in order.
    pub open spec fn wf(&self) -> bool {
        self.tables_wf() && self@.wf()
    }

    /// Empty tables.
    pub fn new() -> (store: Index)
        ensures
            store.wf(),
            store@ == StoreState::empty(),
    {
        let store = Index { keys: Table::new(), uids: Table::new(), files: Table::new() };
        proof {
            assert(store@.keys =~= Map::<Seq<char>, Seq<u8>>::empty());
            assert(store@.uids =~= Map::<EmailIdentity, Seq<char>>::empty());
            assert(store@.files =~= Map::<Seq<char>, Seq<char>>::empty());
        }
        store
    }

    /// The certificate under the fingerprint that reads `hex`.
    pub fn get(&self, hex: &String) -> (r: Option<&Cert>)
        requires
            self.wf(),
        ensures
            match r {
                Some(cert) => self@.keys.contains_key(hex@) && cert_packets(*cert)
                    == self@.keys[hex@],
                None => !self@.keys.contains_key(hex@),
            },
    {
        self.keys.get(hex)
    }

    /// Enters an address into the index of identities, for the fingerprint
    /// `fp`. Text without an `@` is left out.
    fn process_email(&mut self, email: &str, fp: &String) -> (r: Option<()>)
        requires
            old(self).tables_wf(),
        ensures
            final(self).tables_wf(),
            final(self)@.keys == old(self)@.keys,
            final(self)@.files == old(self)@.files,
            match identity_of(email@) {
                Some(id) => r is Some && final(self)@.uids == old(self)@.uids.insert(id, fp@),
                None => r is None && final(self)@.uids == old(self)@.uids,
            },
    {
        let (local_part, domain) = match split_address(email) {
            Some(parts) => parts,
            None => {
                return None;
            },
        };
        let email_components = EmailComponents {
            encoded_local: encode_local_part(local_part.as_str()),
            local_part,
            domain,
        };
        self.uids.insert(email_components, fp.clone());
        proof {
            assert(final(self)@.uids =~= old(self)@.uids.insert(email_components@, fp@));
        }
        Some(())
    }

    /// Enters a certificate that was evaluated: enters its addresses and
    /// stores the certificate, merged into the one that the store has under
    /// the same fingerprint. Returns the fingerprint.
    pub fn import_evaluated(&mut self, evaluated: EvaluatedCert) -> (hex: String)
        requires
            old(self).wf(),
        ensures
            final(self).wf(),
            final(self)@ == old(self)@.imported(evaluated.packets(), evaluated.emails()),
            old(self)@.keeps(evaluated.packets(), final(self)@),
            hex@ == primary_fingerprint(evaluated.packets()),
    {
        let (key, emails) = evaluated.into_parts();
        let fp = fingerprint_of(&key);
        let ghost listed = emails.deep_view();

        // Process all valid user IDs
        let mut i: usize = 0;
        while i < emails.len()
            invariant
                i <= emails.len(),
                listed == emails.deep_view(),
                self.tables_wf(),
                self@.keys == old(self)@.keys,
                self@.files == old(self)@.files,
                self@.uids == indexed(old(self)@.uids, listed.take(i as int), fp@),
            decreases emails.len() - i,
        {
            self.process_email(emails[i].as_str(), &fp);
            proof {
                let done = listed.take(i as int);
                let next = listed.take(i + 1);
                assert(listed[i as int] == emails[i as int]@);
                assert(next =~= done.push(listed[i as int]));
                assert forall|id: EmailIdentity| names(next, id) <==> names(done, id)
                    || identity_of(listed[i as int]) == Some(id) by {
                    if names(next, id) {
                        let j = choose|j: int|
                            0 <= j < next.len() && identity_of(#[trigger] next[j]) == Some(id);
                        if j < i {
                            assert(done[j] == next[j]);
                        }
                    }
                    if names(done, id) {
                        let j = choose|j: int|
                            0 <= j < done.len() && identity_of(#[trigger] done[j]) == Some(id);
                        assert(next[j] == done[j]);
                    }
                    if identity_of(listed[i as int]) == Some(id) {
                        assert(next[i as int] == listed[i as int]);
                    }
                }
                assert(self@.uids =~= indexed(old(self)@.uids, next, fp@));
            }
            i += 1;
        }
        assert(listed.take(i as int) =~= listed);

        // Merge with an existing key if present
        let ghost packets = old(self)@.stored(cert_packets(key));
        let key = match self.keys.remove(&fp) {
            Some(existing) => {
                match merge_certs(existing, key) {
                    Ok(merged) => merged,
                    Err(_) => {
                        // The store keeps each certificate under its own
                        // fingerprint, so the two fingerprints are one.
                        assert(old(self)@.keys.contains_key(fp@));
                        unreached()
                    },
                }
            },
            None => {
                proof {
                    lemma_extends_itself(contents(cert_packets(key)));
                }
                key
            },
        };
        assert(cert_packets(key) == packets);
        self.keys.insert(fp.clone(), key);
        proof {
            assert(final(self)@.keys =~= old(self)@.keys.insert(fp@, packets));
        }
        fp
    }

    /// Removes the certificate under the fingerprint that reads `hex`, and
    /// every identity that leads to it.
    pub fn delete_hex(&mut self, hex: &String) -> (r: Result<Cert, KeyError>)
        requires
            old(self).wf(),
        ensures
            final(self).wf(),
            match r {
                Ok(cert) => {
                    &&& old(self)@.keys.contains_key(hex@)
                    &&& cert_packets(cert) == old(self)@.keys[hex@]
                    &&& final(self)@ == old(self)@.deleted(hex@)
                },
                Err(e) => {
                    &&& e is KeyNotFound
                    &&& !old(self)@.keys.contains_key(hex@)
                    &&& final(self)@ == old(self)@
                },
            },
    {
        let key = match self.keys.remove(hex) {
            Some(key) => key,
            None => {
                proof {
                    assert(final(self)@.keys =~= old(self)@.keys);
                }
                return Err(KeyError::KeyNotFound);
            },
        };
        self.uids.remove_value(hex);
        proof {
            assert(final(self)@.keys =~= old(self)@.keys.remove(hex@));
            assert(final(self)@.uids =~= purged(old(self)@.uids, hex@));
        }
        Ok(key)
    }

    /// Whether a file is on record for the fingerprint that reads `hex`.
    fn is_referenced(&self, hex: &String) -> (found: bool)
        requires
            self.tables_wf(),
        ensures
            found == referenced(self@.files, hex@),
    {
        let mut i: usize = 0;
        while i < self.files.len()
            invariant
                i <= self.files.entries().len(),
                self.files.wf(),
                forall|j: int| 0 <= j < i ==> (#[trigger] self.files.entries()[j]).1@ != hex@,
            decreases self.files.entries().len() - i,
        {
            if *self.files.value_at(i) == *hex {
                proof {
                    lemma_entry_in_map(self.files.entries(), i as int);
                    assert(self@.files.contains_key(self.files.entries()[i as int].0@));
                }
                return true;
            }
            i += 1;
        }
        proof {
            assert forall|path: Seq<char>| #[trigger]
                self@.files.contains_key(path) implies self@.files[path] != hex@ by {
                let j = lemma_map_has_entry(self.files.entries(), path);
                assert(self.files.entries()[j].1@ != hex@);
            }
        }
        false
    }

    /// Enters a certificate that was read from the file `path` and evaluated,
    /// and records that the file gave it.
    pub fn load_evaluated(&mut self, path: &str, evaluated: EvaluatedCert)
        requires
            old(self).wf(),
        ensures
            final(self).wf(),
            final(self)@ == old(self)@.loaded(path@, evaluated.packets(), evaluated.emails()),
            old(self)@.keeps(evaluated.packets(), final(self)@),
    {
        let fp = self.import_evaluated(evaluated);
        let ghost imported = self@;
        self.files.insert(path.to_owned(), fp);
        proof {
            assert(final(self)@.files =~= imported.files.insert(path@, fp@));
            assert(final(self)@.keys == imported.keys && final(self)@.uids == imported.uids);
        }
    }

    /// Unloads the file `path`: forgets that the file gave a certificate and,
    /// where no other file is on record for that certificate, removes it and
    /// every identity that leads to it. Returns the certificate.
    pub fn unload(&mut self, path: &str) -> (r: Result<Cert, KeyError>)
        requires
            old(self).wf(),
        ensures
            final(self).wf(),
            match r {
                Ok(cert) => {
                    &&& old(self)@.files.contains_key(path@)
                    &&& old(self)@.keys.contains_key(old(self)@.files[path@])
                    &&& cert_packets(cert) == old(self)@.keys[old(self)@.files[path@]]
                    &&& final(self)@ == old(self)@.unloaded(path@)
                },
                Err(e) => if old(self)@.files.contains_key(path@) {
                    &&& e is KeyNotFound
                    &&& !old(self)@.keys.contains_key(old(self)@.files[path@])
                    &&& final(self)@ == old(self)@.unloaded(path@)
                } else {
                    &&& e is FileNotFound
                    &&& final(self)@ == old(self)@
                },
            },
    {
        let fp = match self.files.remove(&path.to_owned()) {
            Some(fp) => fp,
            None => {
                proof {
                    assert(final(self)@.files =~= old(self)@.files);
                }
                return Err(KeyError::FileNotFound);
            },
        };
        proof {
            assert(self@.files =~= old(self)@.files.remove(path@));
            assert(self@.keys == old(self)@.keys && self@.uids == old(self)@.uids);
        }
        if self.is_referenced(&fp) {
            match self.keys.get(&fp) {
                Some(cert) => Ok(clone_cert(cert)),
                None => Err(KeyError::KeyNotFound),
            }
        } else {
            self.delete_hex(&fp)
        }
    }

    /// Finds the certificate of an address by the token of its local part and
    /// its domain. Returns the local part, the domain and the certificate.
    pub fn find_by_email(&self, encoded: &str, domain: &str) -> (r: Option<(String, String, Cert)>)
        requires
            self.wf(),
        ensures
            match r {
                Some((local_part, found_domain, cert)) => {
                    let id = EmailIdentity {
                        encoded_local: encoded@,
                        local_part: local_part@,
                        domain: found_domain@,
                    };
                    &&& self@.matches(id, encoded@, domain@)
                    &&& cert_packets(cert) == self@.keys[self@.uids[id]]
                },
                None => forall|id: EmailIdentity| !self@.matches(id, encoded@, domain@),
            },
    {
        let mut i: usize = 0;
        while i < self.uids.len()
            invariant
                i <= self.uids.entries().len(),
                self.wf(),
                forall|j: int|
                    0 <= j < i ==> !((#[trigger] self.uids.entries()[j]).0@.encoded_local
                        == encoded@ && self.uids.entries()[j].0@.domain == domain@),
            decreases self.uids.entries().len() - i,
        {
            let components = self.uids.key_at(i);
            if str_eq(components.encoded_local.as_str(), encoded) && str_eq(
                components.domain.as_str(),
                domain,
            ) {
                proof {
                    lemma_entry_in_map(self.uids.entries(), i as int);
                    assert(self@.uids.contains_key(components@));
                }
                match self.keys.get(self.uids.value_at(i)) {
                    Some(cert) => {
                        return Some(
                            (
                                components.local_part.clone(),
                                components.domain.clone(),
                                clone_cert(cert),
                            ),
                        );
                    },
                    None => {
                        // An identity leads to a certificate that is there.
                        assert(self@.keys.contains_key(self@.uids[components@]));
                        unreached()
                    },
                }
            }
            i += 1;
        }
        proof {
            assert forall|id: EmailIdentity| !self@.matches(id, encoded@, domain@) by {
                if self@.uids.contains_key(id) {
                    let j = lemma_map_has_entry(self.uids.entries(), id);
                    assert(self.uids.entries()[j].0@ == id);
                }
            }
        }
        None
    }
}

} // verus!
