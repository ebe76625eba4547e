//! Comparing and splitting text.

use vstd::prelude::*;
use vstd::string::StringSliceAdditionalSpecFns;
use vstd::utf8::encode_utf8_decode_utf8;

verus! {

/// Whether two strings hold the same characters.
pub fn str_eq(a: &str, b: &str) -> (eq: bool)
    ensures
        eq == (a@ == b@),
{
    let x = a.as_bytes();
    let y = b.as_bytes();
    proof {
        encode_utf8_decode_utf8(a@);
        encode_utf8_decode_utf8(b@);
    }
    if x.len() != y.len() {
        return false;
    }
    let mut i: usize = 0;
    while i < x.len()
        invariant
            i <= x@.len(),
            x@.len() == y@.len(),
            x@ == a.spec_bytes(),
            y@ == b.spec_bytes(),
            forall|j: int| 0 <= j < i ==> x@[j] == y@[j],
        decreases x@.len() - i,
    {
        if x[i] != y[i] {
            return false;
        }
        i += 1;
    }
    assert(x@ =~= y@);
    true
}

/// Whether the first `@` of `address` stands at index `i`.
pub open spec fn splits_at(address: Seq<char>, i: int) -> bool {
    &&& 0 <= i < address.len()
    &&& address[i] == '@'
    &&& forall|j: int| 0 <= j < i ==> address[j] != '@'
}

/// The index of the first `@` of `address`, where it has one.
pub open spec fn split_point(address: Seq<char>) -> Option<int> {
    if exists|i: int| splits_at(address, i) {
        Some(choose|i: int| splits_at(address, i))
    } else {
        None
    }
}

/// The first `@` stands at one index only.
pub proof fn lemma_split_point(address: Seq<char>, i: int)
    requires
        splits_at(address, i),
    ensures
        split_point(address) == Some(i),
{
    let j = choose|j: int| splits_at(address, j);
    if j < i {
        assert(address[j] != '@');
    } else if i < j {
        assert(address[i] != '@');
    }
}

/// Splits an address at its first `@`: the text before it and the text after
/// it. `None` where the address holds no `@`.
pub fn split_address(address: &str) -> (parts: Option<(String, String)>)
    ensures
        match parts {
            None => split_point(address@) is None,
            Some((local, domain)) => {
                &&& split_point(address@) matches Some(i)
                &&& local@ == address@.take(i)
                &&& domain@ == address@.skip(i + 1)
            },
        },
{
    let n = address.unicode_len();
    let mut i: usize = 0;
    while i < n
        invariant
            i <= n,
            n == address@.len(),
            forall|j: int| 0 <= j < i ==> address@[j] != '@',
        decreases n - i,
    {
        if address.get_char(i) == '@' {
            proof {
                lemma_split_point(address@, i as int);
            }
            let local = address.substring_char(0, i).to_owned();
            let domain = address.substring_char(i + 1, n).to_owned();
            assert(local@ =~= address@.take(i as int));
            assert(domain@ =~= address@.skip(i + 1));
            return Some((local, domain));
        }
        i += 1;
    }
    assert forall|k: int| !splits_at(address@, k) by {
        if 0 <= k < address@.len() {
            assert(address@[k] != '@');
        }
    }
    None
}

} // verus!
