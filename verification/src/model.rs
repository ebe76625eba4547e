//! The store as the contracts see it: three maps, the operations on them, and
//! what follows from their definitions.

use crate::cert::{
    contents, extends, holds_no_secret, merged, parsed, primary_fingerprint, public_part,
    user_ids, without_secrets,
};
use crate::encoder::local_part_token;
use crate::sanitize::{sanitized, sanitized_contents};
use crate::text::split_point;
use vstd::prelude::*;

verus! {

/// An address as the store indexes it.
pub struct EmailIdentity {
    /// The token of the local part.
    pub encoded_local: Seq<char>,
    /// The local part.
    pub local_part: Seq<char>,
    /// The domain.
    pub domain: Seq<char>,
}

/// The identity that an address stands for: its parts before and after the
/// first `@`, with the token of the first. `None` for text without an `@`.
pub open spec fn identity_of(email: Seq<char>) -> Option<EmailIdentity> {
    match split_point(email) {
        Some(i) => Some(
            EmailIdentity {
                encoded_local: local_part_token(email.take(i)),
                local_part: email.take(i),
                domain: email.skip(i + 1),
            },
        ),
        None => None,
    }
}

/// Whether one of `emails` stands for the identity `id`.
pub open spec fn names(emails: Seq<Seq<char>>, id: EmailIdentity) -> bool {
    exists|i: int| 0 <= i < emails.len() && identity_of(#[trigger] emails[i]) == Some(id)
}

/// The index of identities after each of `emails` was entered for the
/// fingerprint `fp`: an identity that one of them stands for leads to `fp`,
/// whatever it led to before.
pub open spec fn indexed(
    uids: Map<EmailIdentity, Seq<char>>,
    emails: Seq<Seq<char>>,
    fp: Seq<char>,
) -> Map<EmailIdentity, Seq<char>> {
    Map::new(
        |id: EmailIdentity| uids.contains_key(id) || names(emails, id),
        |id: EmailIdentity|
            if names(emails, id) {
                fp
            } else {
                uids[id]
            },
    )
}

/// The index of identities without those that lead to `fp`.
pub open spec fn purged(uids: Map<EmailIdentity, Seq<char>>, fp: Seq<char>) -> Map<
    EmailIdentity,
    Seq<char>,
> {
    Map::new(
        |id: EmailIdentity| uids.contains_key(id) && uids[id] != fp,
        |id: EmailIdentity| uids[id],
    )
}

/// Whether a file is on record for the fingerprint `fp`.
pub open spec fn referenced(files: Map<Seq<char>, Seq<char>>, fp: Seq<char>) -> bool {
    exists|path: Seq<char>| #[trigger] files.contains_key(path) && files[path] == fp
}

/// Whether a user ID of the certificate that holds `packets` has the address
/// `email` for its normal form.
pub open spec fn named_by(packets: Seq<u8>, email: Seq<char>) -> bool {
    exists|j: int|
        0 <= j < user_ids(packets).len() && (#[trigger] user_ids(packets)[j]).normalized == Some(
            email,
        )
}

/// Whether each of `emails` is the address of a user ID of the certificate
/// that holds `packets`.
pub open spec fn all_named_by(packets: Seq<u8>, emails: Seq<Seq<char>>) -> bool {
    forall|i: int| 0 <= i < emails.len() ==> named_by(packets, #[trigger] emails[i])
}

/// The addresses that are present in `found`, in their order.
pub open spec fn present(found: Seq<Option<Seq<char>>>) -> Seq<Seq<char>>
    decreases found.len(),
{
    if found.len() == 0 {
        Seq::empty()
    } else {
        match found.last() {
            Some(email) => present(found.drop_last()).push(email),
            None => present(found.drop_last()),
        }
    }
}

/// What the store holds.
pub struct StoreState {
    /// The packets of the certificate under each fingerprint.
    pub keys: Map<Seq<char>, Seq<u8>>,
    /// The fingerprint that each identity leads to.
    pub uids: Map<EmailIdentity, Seq<char>>,
    /// The fingerprint that each file last gave.
    pub files: Map<Seq<char>, Seq<char>>,
}

impl StoreState {
    /// The store that holds nothing.
    pub open spec fn empty() -> StoreState {
        StoreState { keys: Map::empty(), uids: Map::empty(), files: Map::empty() }
    }

    /// What holds of every store: a certificate stands under its own
    /// fingerprint and has no secret key material; an identity leads to a
    /// certificate that is there, and its token is that of its local part.
    pub open spec fn wf(self) -> bool {
        &&& forall|fp: Seq<char>| #[trigger]
            self.keys.contains_key(fp) ==> primary_fingerprint(self.keys[fp]) == fp
                && holds_no_secret(self.keys[fp])
        &&& forall|id: EmailIdentity| #[trigger]
            self.uids.contains_key(id) ==> self.keys.contains_key(self.uids[id])
                && id.encoded_local == local_part_token(id.local_part)
    }

    /// The packets that stand under the fingerprint of `packets` once they
    /// are imported: merged into what was there, or as they are.
    pub open spec fn stored(self, packets: Seq<u8>) -> Seq<u8> {
        let fp = primary_fingerprint(packets);
        if self.keys.contains_key(fp) {
            merged(self.keys[fp], packets)
        } else {
            packets
        }
    }

    /// The store after a certificate with the packets `packets`, whose valid
    /// user IDs name `emails`, was imported.
    pub open spec fn imported(self, packets: Seq<u8>, emails: Seq<Seq<char>>) -> StoreState {
        let fp = primary_fingerprint(packets);
        StoreState {
            keys: self.keys.insert(fp, self.stored(packets)),
            uids: indexed(self.uids, emails, fp),
            files: self.files,
        }
    }

    /// The store after the certificate under `fp` was deleted, with the
    /// identities that led to it.
    pub open spec fn deleted(self, fp: Seq<char>) -> StoreState {
        StoreState { keys: self.keys.remove(fp), uids: purged(self.uids, fp), files: self.files }
    }

    /// The store after a certificate was loaded from the file `path`.
    pub open spec fn loaded(
        self,
        path: Seq<char>,
        packets: Seq<u8>,
        emails: Seq<Seq<char>>,
    ) -> StoreState {
        let after = self.imported(packets, emails);
        StoreState { files: after.files.insert(path, primary_fingerprint(packets)), ..after }
    }

    /// Whether unloading `path` takes the certificate away: it is there and no
    /// other file is on record for it.
    pub open spec fn unload_deletes(self, path: Seq<char>) -> bool {
        &&& self.keys.contains_key(self.files[path])
        &&& !referenced(self.files.remove(path), self.files[path])
    }

    /// The store after the file `path`, which is on record, was unloaded.
    pub open spec fn unloaded(self, path: Seq<char>) -> StoreState {
        let rest = if self.unload_deletes(path) {
            self.deleted(self.files[path])
        } else {
            self
        };
        StoreState { files: self.files.remove(path), ..rest }
    }

    /// Whether nothing was lost when `packets` came into the store: the
    /// certificate that stands under their fingerprint in `after` holds all
    /// that `packets` hold, and all that the certificate held that stood there
    /// before.
    pub open spec fn keeps(self, packets: Seq<u8>, after: StoreState) -> bool {
        let fp = primary_fingerprint(packets);
        &&& extends(contents(after.keys[fp]), contents(packets))
        &&& self.keys.contains_key(fp) ==> extends(
            contents(after.keys[fp]),
            contents(self.keys[fp]),
        )
    }

    /// Whether `after` is the store after a certificate with the packets
    /// `packets` was imported, whichever of its user IDs were valid.
    pub open spec fn imports(self, packets: Seq<u8>, after: StoreState) -> bool {
        &&& exists|emails: Seq<Seq<char>>|
            all_named_by(packets, emails) && after == #[trigger] self.imported(packets, emails)
        &&& self.keeps(packets, after)
    }

    /// Whether `after` is the store after a certificate with the packets
    /// `packets` was loaded from the file `path`, whichever of its user IDs
    /// were valid.
    pub open spec fn loads(self, path: Seq<char>, packets: Seq<u8>, after: StoreState) -> bool {
        &&& exists|emails: Seq<Seq<char>>|
            all_named_by(packets, emails) && after == #[trigger] self.loaded(
                path,
                packets,
                emails,
            )
        &&& self.keeps(packets, after)
    }

    /// Whether `after` is the store after `key`, a certificate as it came,
    /// was imported: what was imported is its public part.
    pub open spec fn imports_cert(self, key: Seq<u8>, after: StoreState) -> bool {
        &&& public_part(without_secrets(key), key)
        &&& self.imports(without_secrets(key), after)
    }

    /// Whether `after` is the store after the certificate in `contents` was
    /// loaded from the file `path`: what was loaded is the public part of the
    /// certificate that the contents hold.
    pub open spec fn loads_file(
        self,
        path: Seq<char>,
        contents: Seq<u8>,
        after: StoreState,
    ) -> bool {
        &&& parsed(contents) matches Some(packets)
        &&& public_part(without_secrets(packets), packets)
        &&& self.loads(path, without_secrets(packets), after)
    }

    /// Whether `after` is the store after each of `files`, a path with the
    /// contents of the file, was put to it in turn: loaded, or passed over
    /// with the store left as it was. `failed` are the files that were passed
    /// over, in their order: the path of each, and whether its contents were
    /// no certificate.
    pub open spec fn scans(
        self,
        files: Seq<(Seq<char>, Seq<u8>)>,
        failed: Seq<(Seq<char>, bool)>,
        after: StoreState,
    ) -> bool
        decreases files.len(),
    {
        if files.len() == 0 {
            after == self && failed.len() == 0
        } else {
            ||| exists|mid: StoreState|
                {
                    &&& self.scans(files.drop_last(), failed, mid)
                    &&& #[trigger] mid.loads_file(files.last().0, files.last().1, after)
                }
            ||| {
                &&& failed.len() > 0
                &&& failed.last() == (files.last().0, parsed(files.last().1) is None)
                &&& self.scans(files.drop_last(), failed.drop_last(), after)
            }
        }
    }

    /// The address that an identity stands for.
    pub open spec fn address(id: EmailIdentity) -> Seq<char> {
        id.local_part + seq!['@'] + id.domain
    }

    /// Whether `packets` is what a lookup of `encoded` and `domain` may give:
    /// the certificate of an identity with that token and domain, sanitised
    /// for the address of the identity.
    pub open spec fn serves(self, encoded: Seq<char>, domain: Seq<char>, packets: Seq<u8>) -> bool {
        exists|id: EmailIdentity|
            {
                &&& #[trigger] self.matches(id, encoded, domain)
                &&& packets == sanitized(self.keys[self.uids[id]], Self::address(id))
                &&& contents(packets) == sanitized_contents(
                    contents(self.keys[self.uids[id]]),
                    Self::address(id),
                )
                &&& contents(packets).user_ids.len() <= 1
                &&& primary_fingerprint(packets) == self.uids[id]
            }
    }

    /// Whether `id` is an identity of the store with the token `encoded` and
    /// the domain `domain`.
    pub open spec fn matches(
        self,
        id: EmailIdentity,
        encoded: Seq<char>,
        domain: Seq<char>,
    ) -> bool {
        self.uids.contains_key(id) && id.encoded_local == encoded && id.domain == domain
    }
}

/// Entering the same addresses a second time changes nothing.
pub proof fn lemma_indexed_twice(
    uids: Map<EmailIdentity, Seq<char>>,
    emails: Seq<Seq<char>>,
    fp: Seq<char>,
)
    ensures
        indexed(indexed(uids, emails, fp), emails, fp) == indexed(uids, emails, fp),
{
    assert(indexed(indexed(uids, emails, fp), emails, fp) =~= indexed(uids, emails, fp));
}

/// Importing a certificate a second time, with the same addresses, leaves the
/// identities and the record of files as the first import left them, and puts
/// under the fingerprint the merge of what stands there with the certificate.
/// Where that merge changes nothing, the store is the same after the second
/// import as after the first.
pub proof fn import_twice(s: StoreState, packets: Seq<u8>, emails: Seq<Seq<char>>)
    ensures
        ({
            let fp = primary_fingerprint(packets);
            let once = s.imported(packets, emails);
            let twice = once.imported(packets, emails);
            &&& twice.uids == once.uids
            &&& twice.files == once.files
            &&& twice.keys == once.keys.insert(fp, merged(once.keys[fp], packets))
            &&& twice.keys.dom() == once.keys.dom()
            &&& forall|other: Seq<char>|
                other != fp && once.keys.contains_key(other) ==> #[trigger] twice.keys[other]
                    == once.keys[other]
            &&& merged(once.keys[fp], packets) == once.keys[fp] ==> twice == once
        }),
{
    let fp = primary_fingerprint(packets);
    let once = s.imported(packets, emails);
    let twice = once.imported(packets, emails);
    lemma_indexed_twice(s.uids, emails, fp);
    assert(twice.keys.dom() =~= once.keys.dom());
    if merged(once.keys[fp], packets) == once.keys[fp] {
        assert(twice.keys =~= once.keys);
    }
}

/// Importing keeps what the store has: where a certificate stands under the
/// fingerprint, what stands there afterwards is the merge of that certificate
/// with the new one, and every other certificate stays as it is.
pub proof fn import_merges(s: StoreState, packets: Seq<u8>, emails: Seq<Seq<char>>)
    ensures
        ({
            let fp = primary_fingerprint(packets);
            let after = s.imported(packets, emails);
            &&& s.keys.contains_key(fp) ==> after.keys[fp] == merged(s.keys[fp], packets)
            &&& !s.keys.contains_key(fp) ==> after.keys[fp] == packets
            &&& forall|other: Seq<char>| #[trigger]
                s.keys.contains_key(other) ==> after.keys.contains_key(other) && (other != fp
                    ==> after.keys[other] == s.keys[other])
        }),
{
}

/// A store that was empty and then loaded one certificate, whose one valid
/// address stands for the identity `id`, has that identity and no other, and
/// it leads to the certificate: a lookup finds the certificate for the token
/// and the domain of the address, and nothing for any other token or domain.
pub proof fn one_certificate_is_found(
    path: Seq<char>,
    packets: Seq<u8>,
    email: Seq<char>,
    id: EmailIdentity,
)
    requires
        identity_of(email) == Some(id),
    ensures
        ({
            let s = StoreState::empty().loaded(path, packets, seq![email]);
            &&& id.encoded_local == local_part_token(id.local_part)
            &&& s.matches(id, id.encoded_local, id.domain)
            &&& s.keys[s.uids[id]] == packets
            &&& s.files[path] == primary_fingerprint(packets)
            &&& forall|other: EmailIdentity, encoded: Seq<char>, domain: Seq<char>| #[trigger]
                s.matches(other, encoded, domain) ==> other == id && encoded == id.encoded_local
                    && domain == id.domain
        }),
{
    let s = StoreState::empty().loaded(path, packets, seq![email]);
    assert(seq![email][0] == email);
    assert(names(seq![email], id));
    assert forall|other: EmailIdentity| s.uids.contains_key(other) implies other == id by {
        assert(names(seq![email], other));
    }
}

/// After a file was loaded and unloaded again, it is not on record. Where no
/// other file is on record for the certificate that it gave, the certificate
/// is gone and no identity leads to it; where another is, the certificates
/// and identities are as the load left them.
pub proof fn unload_after_load(
    s: StoreState,
    path: Seq<char>,
    packets: Seq<u8>,
    emails: Seq<Seq<char>>,
)
    ensures
        ({
            let fp = primary_fingerprint(packets);
            let loaded = s.loaded(path, packets, emails);
            let after = loaded.unloaded(path);
            &&& !after.files.contains_key(path)
            &&& after.files == s.files.remove(path)
            &&& !referenced(s.files.remove(path), fp) ==> {
                &&& after.keys == s.keys.remove(fp)
                &&& after.uids == purged(loaded.uids, fp)
                &&& forall|id: EmailIdentity| #[trigger]
                    after.uids.contains_key(id) ==> after.uids[id] != fp
            }
            &&& referenced(s.files.remove(path), fp) ==> {
                &&& after.keys == loaded.keys
                &&& after.uids == loaded.uids
            }
        }),
{
    let fp = primary_fingerprint(packets);
    let loaded = s.loaded(path, packets, emails);
    let after = loaded.unloaded(path);
    assert(loaded.files[path] == fp);
    assert(loaded.files.remove(path) =~= s.files.remove(path));
    if !referenced(s.files.remove(path), fp) {
        assert(after.keys =~= s.keys.remove(fp));
    }
}

/// Unloading a file undoes its load exactly, where the load brought only new
/// things: the file was not on record, the store had no certificate under the
/// fingerprint and no file on record for it, and none of the identities that
/// the addresses stand for.
pub proof fn unload_undoes_load(
    s: StoreState,
    path: Seq<char>,
    packets: Seq<u8>,
    emails: Seq<Seq<char>>,
)
    requires
        s.wf(),
        !s.files.contains_key(path),
        !s.keys.contains_key(primary_fingerprint(packets)),
        !referenced(s.files, primary_fingerprint(packets)),
        forall|id: EmailIdentity| names(emails, id) ==> !s.uids.contains_key(id),
    ensures
        s.loaded(path, packets, emails).unloaded(path) == s,
{
    let fp = primary_fingerprint(packets);
    let loaded = s.loaded(path, packets, emails);
    let after = loaded.unloaded(path);
    unload_after_load(s, path, packets, emails);
    assert(s.files.remove(path) =~= s.files);
    assert(after.keys =~= s.keys);
    assert forall|id: EmailIdentity| s.uids.contains_key(id) implies s.uids[id] != fp by {
        assert(s.keys.contains_key(s.uids[id]));
    }
    assert(after.uids =~= s.uids);
}

} // verus!
