//! Reducing a certificate to what one address needs: the one user ID of that
//! address, no user attributes, and the subkeys that can sign or encrypt for
//! transport.

use crate::cert::{
    cert_packets, contents, holds_no_secret, primary_fingerprint, read_user_ids, user_ids,
    views_of, Capabilities, Contents, SubkeyFacts, UserIdFacts, UserIdInfo,
};
use crate::text::str_eq;
use sequoia_openpgp::Cert;
use vstd::prelude::*;

verus! {

/// A user ID declares the target where the address that it declares is the
/// target, character for character.
pub open spec fn keeps_user_id(email: Option<Seq<char>>, target: Seq<char>) -> bool {
    email == Some(target)
}

/// A subkey stays where its newest self-signature declares that it may sign
/// or encrypt for transport.
pub open spec fn keeps_subkey(capabilities: Option<Capabilities>) -> bool {
    capabilities matches Some(c) && (c.transport_encryption || c.signing)
}

/// Whether user ID `i` is the first, in the certificate's order, to declare
/// the target.
pub open spec fn declares_first(user_ids: Seq<UserIdFacts>, target: Seq<char>, i: int) -> bool {
    &&& 0 <= i < user_ids.len()
    &&& keeps_user_id(user_ids[i].email, target)
    &&& forall|j: int| 0 <= j < i ==> !keeps_user_id(user_ids[j].email, target)
}

/// The decision for each user ID, in the certificate's order: the first that
/// declares the target stays, and no other.
pub open spec fn decisions(user_ids: Seq<UserIdFacts>, target: Seq<char>) -> Seq<bool> {
    Seq::new(user_ids.len(), |i: int| declares_first(user_ids, target, i))
}

/// The user ID that stays: the first to declare the target, where one does.
pub open spec fn kept_user_ids(user_ids: Seq<UserIdFacts>, target: Seq<char>) -> Seq<UserIdFacts> {
    if exists|i: int| declares_first(user_ids, target, i) {
        seq![user_ids[choose|i: int| declares_first(user_ids, target, i)]]
    } else {
        Seq::empty()
    }
}

/// The rule for subkeys, as a predicate on subkeys.
pub open spec fn subkey_rule() -> spec_fn(SubkeyFacts) -> bool {
    |subkey: SubkeyFacts| keeps_subkey(subkey.capabilities)
}

/// What the rules leave of the contents of a certificate.
pub open spec fn sanitized_contents(c: Contents, target: Seq<char>) -> Contents {
    Contents {
        user_ids: kept_user_ids(c.user_ids, target),
        user_attributes: 0,
        subkeys: c.subkeys.filter(subkey_rule()),
    }
}

/// The items of `items` for which `keep` says yes, in their order.
pub open spec fn kept<A>(items: Seq<A>, keep: Seq<bool>) -> Seq<A>
    decreases items.len(),
{
    if items.len() == 0 || keep.len() != items.len() {
        Seq::empty()
    } else if keep.last() {
        kept(items.drop_last(), keep.drop_last()).push(items.last())
    } else {
        kept(items.drop_last(), keep.drop_last())
    }
}

/// The packets that `Cert::retain_userids` leaves of `packets` where the
/// predicate gives the answers `keep`, one for each user ID in its order.
pub uninterp spec fn with_user_ids_kept(packets: Seq<u8>, keep: Seq<bool>) -> Seq<u8>;

/// The packets that `Cert::retain_user_attributes` leaves of `packets` where
/// no user attribute is kept.
pub uninterp spec fn without_user_attributes(packets: Seq<u8>) -> Seq<u8>;

/// The packets that `Cert::retain_subkeys` leaves of `packets` under the rule
/// for subkeys.
pub uninterp spec fn with_usable_subkeys(packets: Seq<u8>) -> Seq<u8>;

/// The packets of the sanitised certificate.
pub open spec fn sanitized(packets: Seq<u8>, target: Seq<char>) -> Seq<u8> {
    with_usable_subkeys(
        without_user_attributes(
            with_user_ids_kept(packets, decisions(user_ids(packets), target)),
        ),
    )
}

/// Where `keep` says yes to no item, none is kept; where it says yes to the
/// item at `k` alone, that item alone is kept.
proof fn lemma_kept_at_most_one<A>(items: Seq<A>, keep: Seq<bool>, k: int)
    requires
        keep.len() == items.len(),
        forall|i: int| 0 <= i < keep.len() && keep[i] ==> i == k,
    ensures
        0 <= k < keep.len() && keep[k] ==> kept(items, keep) == seq![items[k]],
        !(0 <= k < keep.len() && keep[k]) ==> kept(items, keep) == Seq::<A>::empty(),
    decreases items.len(),
{
    if items.len() > 0 {
        let rest = items.drop_last();
        let rest_keep = keep.drop_last();
        assert forall|i: int| 0 <= i < rest_keep.len() && rest_keep[i] implies i == k by {
            assert(rest_keep[i] == keep[i]);
        }
        lemma_kept_at_most_one(rest, rest_keep, k);
        if keep.last() {
            assert(k == keep.len() - 1);
            assert(kept(items, keep) =~= seq![items[k]]);
        } else if 0 <= k < keep.len() && keep[k] {
            assert(rest_keep[k] == keep[k]);
            assert(rest[k] == items[k]);
        }
    }
}

/// The first user ID to declare the target stands at one index only.
proof fn lemma_declares_first(user_ids: Seq<UserIdFacts>, target: Seq<char>, i: int, j: int)
    requires
        declares_first(user_ids, target, i),
        declares_first(user_ids, target, j),
    ensures
        i == j,
{
}

/// What the decisions keep is the user ID that stays.
pub proof fn lemma_decisions_keep(user_ids: Seq<UserIdFacts>, target: Seq<char>)
    ensures
        kept(user_ids, decisions(user_ids, target)) == kept_user_ids(user_ids, target),
{
    let keep = decisions(user_ids, target);
    if exists|i: int| declares_first(user_ids, target, i) {
        let k = choose|i: int| declares_first(user_ids, target, i);
        assert forall|i: int| 0 <= i < keep.len() && keep[i] implies i == k by {
            lemma_declares_first(user_ids, target, i, k);
        }
        lemma_kept_at_most_one(user_ids, keep, k);
    } else {
        assert forall|i: int| 0 <= i < keep.len() && keep[i] implies i == 0 by {
            assert(declares_first(user_ids, target, i));
        }
        lemma_kept_at_most_one(user_ids, keep, 0);
    }
}

/// Decides whether a user ID that declares `email` declares the target.
pub fn user_id_kept(email: Option<&str>, target: &str) -> (keep: bool)
    ensures
        keep == (email matches Some(e) && e@ == target@),
{
    match email {
        Some(e) => str_eq(e, target),
        None => false,
    }
}

/// Decides whether a subkey that declares `capabilities` stays.
pub fn subkey_kept(capabilities: Option<Capabilities>) -> (keep: bool)
    ensures
        keep == keeps_subkey(capabilities),
{
    match capabilities {
        Some(c) => c.transport_encryption || c.signing,
        None => false,
    }
}

/// Decides for each user ID, in the certificate's order, whether it stays:
/// the first that declares the target does, and no other.
pub fn decide_user_ids(infos: &Vec<UserIdInfo>, target: &str) -> (keep: Vec<bool>)
    ensures
        keep@ == decisions(views_of(infos@), target@),
{
    let ghost facts = views_of(infos@);
    let mut keep: Vec<bool> = Vec::new();
    let mut found = false;
    let mut i: usize = 0;
    while i < infos.len()
        invariant
            i <= infos.len(),
            facts == views_of(infos@),
            keep@.len() == i,
            forall|j: int| 0 <= j < i ==> keep@[j] == declares_first(facts, target@, j),
            found <==> exists|j: int| 0 <= j < i && keeps_user_id(facts[j].email, target@),
        decreases infos.len() - i,
    {
        let declares = match &infos[i].email {
            Some(email) => user_id_kept(Some(email.as_str()), target),
            None => false,
        };
        assert(declares == keeps_user_id(facts[i as int].email, target@));
        let stays = declares && !found;
        keep.push(stays);
        if declares {
            found = true;
        }
        i += 1;
    }
    assert(keep@ =~= decisions(facts, target@));
    keep
}

/// Calls `Cert::retain_userids` with a predicate that gives the answers in
/// `keep`, one at each call. The source asks the predicate once for each user
/// ID, in the order in which `Cert::userids` yields them, removes the user IDs
/// for which it says no, keeps the others in their order and touches nothing
/// else.
#[verifier::external_body]
fn retain_user_ids(cert: Cert, keep: &Vec<bool>) -> (out: Cert)
    requires
        keep@.len() == user_ids(cert_packets(cert)).len(),
    ensures
        cert_packets(out) == with_user_ids_kept(cert_packets(cert), keep@),
        contents(cert_packets(out)) == (Contents {
            user_ids: kept(contents(cert_packets(cert)).user_ids, keep@),
            ..contents(cert_packets(cert))
        }),
        primary_fingerprint(cert_packets(out)) == primary_fingerprint(cert_packets(cert)),
        holds_no_secret(cert_packets(cert)) ==> holds_no_secret(cert_packets(out)),
{
    let mut answers = keep.iter();
    cert.retain_userids(|_| answers.next().copied().unwrap_or(false))
}

/// Calls `Cert::retain_user_attributes` with a rule that keeps none. The call
/// removes every user attribute and touches nothing else.
#[verifier::external_body]
fn drop_user_attributes(cert: Cert) -> (out: Cert)
    ensures
        cert_packets(out) == without_user_attributes(cert_packets(cert)),
        contents(cert_packets(out)) == (Contents {
            user_attributes: 0,
            ..contents(cert_packets(cert))
        }),
        primary_fingerprint(cert_packets(out)) == primary_fingerprint(cert_packets(cert)),
        holds_no_secret(cert_packets(cert)) ==> holds_no_secret(cert_packets(out)),
{
    cert.retain_user_attributes(|_| false)
}

/// Calls `Cert::retain_subkeys` with the rule for subkeys, which it applies to
/// the key flags of the first signature that `self_signatures` yields. The
/// call removes the subkeys for which the rule says no, keeps the others in
/// their order and touches nothing else.
#[verifier::external_body]
fn retain_usable_subkeys(cert: Cert) -> (out: Cert)
    ensures
        cert_packets(out) == with_usable_subkeys(cert_packets(cert)),
        contents(cert_packets(out)) == (Contents {
            subkeys: contents(cert_packets(cert)).subkeys.filter(subkey_rule()),
            ..contents(cert_packets(cert))
        }),
        primary_fingerprint(cert_packets(out)) == primary_fingerprint(cert_packets(cert)),
        holds_no_secret(cert_packets(cert)) ==> holds_no_secret(cert_packets(out)),
{
    cert.retain_subkeys(|sk| {
        subkey_kept(sk.self_signatures().next().and_then(|sig| sig.key_flags()).map(|f| {
            Capabilities {
                transport_encryption: f.for_transport_encryption(),
                signing: f.for_signing(),
            }
        }))
    })
}

/// Sanitises a certificate for one address: keeps the first user ID, in the
/// certificate's order, that declares `target_email`, and no other; removes
/// every user attribute; and keeps the subkeys that may sign or encrypt for
/// transport.
pub fn sanitize_cert(cert: Cert, target_email: &str) -> (out: Cert)
    ensures
        cert_packets(out) == sanitized(cert_packets(cert), target_email@),
        contents(cert_packets(out)) == sanitized_contents(
            contents(cert_packets(cert)),
            target_email@,
        ),
        contents(cert_packets(out)).user_ids.len() <= 1,
        primary_fingerprint(cert_packets(out)) == primary_fingerprint(cert_packets(cert)),
        holds_no_secret(cert_packets(cert)) ==> holds_no_secret(cert_packets(out)),
{
    // 1. Keep only the one user ID of the address.
    let infos = read_user_ids(&cert);
    let keep = decide_user_ids(&infos, target_email);
    proof {
        lemma_decisions_keep(user_ids(cert_packets(cert)), target_email@);
    }
    let cert = retain_user_ids(cert, &keep);
    // 2. Strip out any user attributes (photos and the like).
    let cert = drop_user_attributes(cert);
    // 3. Keep only subkeys that can encrypt or sign.
    retain_usable_subkeys(cert)
}

/// What leaves the sanitiser holds at most one user ID, and that one declares
/// the target; it holds no user attribute, and no subkey that may neither sign
/// nor encrypt for transport. It holds a user ID exactly where a user ID of
/// the certificate declares the target.
pub proof fn sanitized_contents_are_minimal(c: Contents, target: Seq<char>)
    ensures
        ({
            let s = sanitized_contents(c, target);
            &&& s.user_ids.len() <= 1
            &&& s.user_ids.len() == 1 <==> exists|i: int|
                0 <= i < c.user_ids.len() && keeps_user_id(
                    (#[trigger] c.user_ids[i]).email,
                    target,
                )
            &&& forall|i: int|
                0 <= i < s.user_ids.len() ==> (#[trigger] s.user_ids[i]).email == Some(target)
            &&& s.user_attributes == 0
            &&& forall|i: int|
                0 <= i < s.subkeys.len() ==> keeps_subkey((#[trigger] s.subkeys[i]).capabilities)
        }),
{
    let s = sanitized_contents(c, target);
    assert forall|i: int| 0 <= i < s.subkeys.len() implies keeps_subkey(
        (#[trigger] s.subkeys[i]).capabilities,
    ) by {
        c.subkeys.lemma_filter_pred(subkey_rule(), i);
    }
    if exists|i: int| 0 <= i < c.user_ids.len() && keeps_user_id(
        (#[trigger] c.user_ids[i]).email,
        target,
    ) {
        let i = choose|i: int|
            0 <= i < c.user_ids.len() && keeps_user_id((#[trigger] c.user_ids[i]).email, target);
        let k = lemma_first_exists(c.user_ids, target, i);
    }
}

/// Where a user ID declares the target, one is the first to do so.
proof fn lemma_first_exists(user_ids: Seq<UserIdFacts>, target: Seq<char>, i: int) -> (k: int)
    requires
        0 <= i < user_ids.len(),
        keeps_user_id(user_ids[i].email, target),
    ensures
        declares_first(user_ids, target, k),
        k <= i,
    decreases i,
{
    if exists|j: int| 0 <= j < i && keeps_user_id(user_ids[j].email, target) {
        let j = choose|j: int| 0 <= j < i && keeps_user_id(user_ids[j].email, target);
        lemma_first_exists(user_ids, target, j)
    } else {
        i
    }
}

} // verus!
