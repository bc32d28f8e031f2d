//! Lexicographic order on byte strings.
//!
//! Keys and values of tags are ordered the way byte strings are ordered
//! in a dictionary: the first position at which two strings differ
//! decides, and a proper prefix comes before every extension of it.

use vstd::prelude::*;

verus! {

/// `a` and `b` agree on the first `k` positions, and at position `k`
/// either `a` has ended while `b` goes on, or `a` holds the smaller byte.
pub open spec fn diverges_at(a: Seq<u8>, b: Seq<u8>, k: int) -> bool {
    &&& 0 <= k <= a.len()
    &&& k < b.len()
    &&& forall|j: int| 0 <= j < k ==> a[j] == b[j]
    &&& (k < a.len() ==> a[k] < b[k])
}

/// Strict lexicographic order: `a` comes before `b`.
pub open spec fn lex_lt(a: Seq<u8>, b: Seq<u8>) -> bool {
    exists|k: int| diverges_at(a, b, k)
}

/// No byte string comes before itself, and of two strings at most one
/// comes before the other.
pub proof fn lemma_lex_asymmetric(a: Seq<u8>, b: Seq<u8>)
    requires
        lex_lt(a, b),
    ensures
        !lex_lt(b, a),
        a != b,
{
    let k1 = choose|k: int| diverges_at(a, b, k);
    if lex_lt(b, a) {
        let k2 = choose|k: int| diverges_at(b, a, k);
        if k1 < k2 {
            assert(b[k1] == a[k1]);
        } else if k2 < k1 {
            assert(a[k2] == b[k2]);
        }
        assert(false);
    }
}

/// The order is transitive.
pub proof fn lemma_lex_transitive(a: Seq<u8>, b: Seq<u8>, c: Seq<u8>)
    requires
        lex_lt(a, b),
        lex_lt(b, c),
    ensures
        lex_lt(a, c),
{
    let k1 = choose|k: int| diverges_at(a, b, k);
    let k2 = choose|k: int| diverges_at(b, c, k);
    if k1 <= k2 {
        assert forall|j: int| 0 <= j < k1 implies a[j] == c[j] by {
            assert(a[j] == b[j]);
            assert(b[j] == c[j]);
        }
        assert(diverges_at(a, c, k1));
    } else {
        assert forall|j: int| 0 <= j < k2 implies a[j] == c[j] by {
            assert(a[j] == b[j]);
            assert(b[j] == c[j]);
        }
        assert(a[k2] == b[k2]);
        assert(diverges_at(a, c, k2));
    }
}

proof fn lemma_lex_total_from(a: Seq<u8>, b: Seq<u8>, i: int)
    requires
        0 <= i <= a.len(),
        i <= b.len(),
        forall|j: int| 0 <= j < i ==> a[j] == b[j],
    ensures
        a == b || lex_lt(a, b) || lex_lt(b, a),
    decreases a.len() - i,
{
    if i == a.len() {
        if i == b.len() {
            assert(a =~= b);
        } else {
            assert(diverges_at(a, b, i));
        }
    } else if i == b.len() {
        assert(diverges_at(b, a, i));
    } else if a[i] < b[i] {
        assert(diverges_at(a, b, i));
    } else if b[i] < a[i] {
        assert(diverges_at(b, a, i));
    } else {
        lemma_lex_total_from(a, b, i + 1);
    }
}

/// Any two different byte strings are ordered one way or the other.
pub proof fn lemma_lex_total(a: Seq<u8>, b: Seq<u8>)
    ensures
        a == b || lex_lt(a, b) || lex_lt(b, a),
{
    lemma_lex_total_from(a, b, 0);
}

/// Decides whether `a` comes strictly before `b`.
pub fn bytes_lt(a: &[u8], b: &[u8]) -> (r: bool)
    ensures
        r == lex_lt(a@, b@),
{
    let mut i: usize = 0;
    while i < a.len() && i < b.len()
        invariant
            i <= a.len(),
            i <= b.len(),
            forall|j: int| 0 <= j < i ==> a@[j] == b@[j],
        decreases a.len() - i,
    {
        if a[i] < b[i] {
            assert(diverges_at(a@, b@, i as int));
            return true;
        }
        if b[i] < a[i] {
            proof {
                assert(diverges_at(b@, a@, i as int));
                lemma_lex_asymmetric(b@, a@);
            }
            return false;
        }
        i += 1;
    }
    if i < b.len() {
        assert(diverges_at(a@, b@, i as int));
        true
    } else {
        proof {
            if i < a.len() {
                assert(diverges_at(b@, a@, i as int));
                lemma_lex_asymmetric(b@, a@);
            } else {
                assert(a@ =~= b@);
                if lex_lt(a@, b@) {
                    lemma_lex_asymmetric(a@, b@);
                }
            }
        }
        false
    }
}

} // verus!
