//! Lexicographic order on character sequences: the order in which group names are kept.
//!
//! Comparing code points one by one orders strings exactly as comparing their UTF-8 bytes does,
//! so this is the order of `String`'s own `Ord`.
use vstd::prelude::*;

verus! {

/// `a` sorts before `b` when they first differ at position `i` or later.
pub open spec fn lex_lt_from(a: Seq<char>, b: Seq<char>, i: nat) -> bool
    decreases a.len() - i,
{
    if i >= a.len() {
        i < b.len()
    } else if i >= b.len() {
        false
    } else if a[i as int] != b[i as int] {
        (a[i as int] as int) < (b[i as int] as int)
    } else {
        lex_lt_from(a, b, i + 1)
    }
}

/// Strict lexicographic order on character sequences.
pub open spec fn lex_lt(a: Seq<char>, b: Seq<char>) -> bool {
    lex_lt_from(a, b, 0)
}

/// Every element sorts strictly before the next one (so no name occurs twice).
pub open spec fn strictly_sorted(s: Seq<Seq<char>>) -> bool {
    forall|i: int, j: int| 0 <= i < j < s.len() ==> lex_lt(#[trigger] s[i], #[trigger] s[j])
}

proof fn lemma_lex_irreflexive_from(a: Seq<char>, i: nat)
    ensures
        !lex_lt_from(a, a, i),
    decreases a.len() - i,
{
    if i < a.len() {
        lemma_lex_irreflexive_from(a, i + 1);
    }
}

/// No sequence sorts before itself.
pub proof fn lemma_lex_irreflexive(a: Seq<char>)
    ensures
        !lex_lt(a, a),
{
    lemma_lex_irreflexive_from(a, 0);
}

proof fn lemma_lex_transitive_from(a: Seq<char>, b: Seq<char>, c: Seq<char>, i: nat)
    requires
        lex_lt_from(a, b, i),
        lex_lt_from(b, c, i),
    ensures
        lex_lt_from(a, c, i),
    decreases a.len() - i,
{
    if i < a.len() && i < b.len() && i < c.len() && a[i as int] == b[i as int] && b[i as int]
        == c[i as int] {
        lemma_lex_transitive_from(a, b, c, i + 1);
    }
}

/// The order is transitive.
pub proof fn lemma_lex_transitive(a: Seq<char>, b: Seq<char>, c: Seq<char>)
    requires
        lex_lt(a, b),
        lex_lt(b, c),
    ensures
        lex_lt(a, c),
{
    lemma_lex_transitive_from(a, b, c, 0);
}

proof fn lemma_lex_total_from(a: Seq<char>, b: Seq<char>, i: nat)
    requires
        i <= a.len(),
        i <= b.len(),
        a.take(i as int) == b.take(i as int),
        !lex_lt_from(a, b, i),
        !lex_lt_from(b, a, i),
    ensures
        a == b,
    decreases a.len() - i,
{
    if i < a.len() && i < b.len() {
        assert(a[i as int] == b[i as int]) by {
            if a[i as int] != b[i as int] {
                assert((a[i as int] as int) != (b[i as int] as int));
            }
        }
        assert(a.take((i + 1) as int) == a.take(i as int).push(a[i as int]));
        assert(b.take((i + 1) as int) == b.take(i as int).push(b[i as int]));
        lemma_lex_total_from(a, b, i + 1);
    } else {
        assert(a == a.take(i as int));
        assert(b == b.take(i as int));
    }
}

/// Two different sequences are ordered one way or the other.
pub proof fn lemma_lex_total(a: Seq<char>, b: Seq<char>)
    ensures
        a == b || lex_lt(a, b) || lex_lt(b, a),
{
    if !lex_lt(a, b) && !lex_lt(b, a) {
        assert(a.take(0) == b.take(0));
        lemma_lex_total_from(a, b, 0);
    }
}

proof fn lemma_lex_asymmetric_from(a: Seq<char>, b: Seq<char>, i: nat)
    requires
        lex_lt_from(a, b, i),
    ensures
        !lex_lt_from(b, a, i),
    decreases a.len() - i,
{
    if i < a.len() && i < b.len() && a[i as int] == b[i as int] {
        lemma_lex_asymmetric_from(a, b, i + 1);
    }
}

/// At most one of `a < b` and `b < a` holds.
pub proof fn lemma_lex_asymmetric(a: Seq<char>, b: Seq<char>)
    requires
        lex_lt(a, b),
    ensures
        !lex_lt(b, a),
{
    lemma_lex_asymmetric_from(a, b, 0);
}

/// `a` is a proper prefix of `b`.
pub open spec fn proper_prefix(a: Seq<char>, b: Seq<char>) -> bool {
    a.len() < b.len() && forall|j: int| 0 <= j < a.len() ==> a[j] == b[j]
}

/// `a` and `b` agree before position `i`, and there `a` has the smaller character.
pub open spec fn first_difference_smaller(a: Seq<char>, b: Seq<char>, i: int) -> bool {
    &&& 0 <= i < a.len()
    &&& i < b.len()
    &&& forall|j: int| 0 <= j < i ==> a[j] == b[j]
    &&& (a[i] as int) < (b[i] as int)
}

proof fn lemma_lex_lt_from_characterised(a: Seq<char>, b: Seq<char>, i: nat)
    requires
        i <= a.len(),
        i <= b.len(),
        forall|j: int| 0 <= j < i ==> a[j] == b[j],
    ensures
        lex_lt_from(a, b, i) <==> (proper_prefix(a, b) || exists|k: int|
            first_difference_smaller(a, b, k)),
    decreases a.len() - i,
{
    if i >= a.len() {
        if exists|k: int| first_difference_smaller(a, b, k) {
            let k = choose|k: int| first_difference_smaller(a, b, k);
            assert(a[k] == b[k]);
        }
    } else if i >= b.len() {
        if exists|k: int| first_difference_smaller(a, b, k) {
            let k = choose|k: int| first_difference_smaller(a, b, k);
            assert(a[k] == b[k]);
        }
    } else if a[i as int] != b[i as int] {
        if (a[i as int] as int) < (b[i as int] as int) {
            assert(first_difference_smaller(a, b, i as int));
        } else {
            if exists|k: int| first_difference_smaller(a, b, k) {
                let k = choose|k: int| first_difference_smaller(a, b, k);
                if k > i {
                    assert(a[i as int] == b[i as int]);
                } else if k < i {
                    assert(a[k] == b[k]);
                }
            }
        }
        assert(!proper_prefix(a, b)) by {
            if proper_prefix(a, b) {
                assert(a[i as int] == b[i as int]);
            }
        }
    } else {
        lemma_lex_lt_from_characterised(a, b, i + 1);
    }
}

/// Strings are ordered as in a dictionary, by their first differing character and otherwise
/// by length: `a` sorts before `b` exactly when `a` is a proper prefix of `b`, or at the first
/// position where they differ `a` has the smaller character, whatever follows.
pub proof fn lemma_lex_lt_characterised(a: Seq<char>, b: Seq<char>)
    ensures
        lex_lt(a, b) <==> (proper_prefix(a, b) || exists|i: int| first_difference_smaller(a, b, i)),
{
    lemma_lex_lt_from_characterised(a, b, 0);
}

/// Decides `lex_lt` on two character slices.
pub fn chars_less(a: &[char], b: &[char]) -> (r: bool)
    ensures
        r == lex_lt(a@, b@),
{
    let mut i: usize = 0;
    while i < a.len() && i < b.len() && a[i] == b[i]
        invariant
            i <= a.len(),
            i <= b.len(),
            lex_lt(a@, b@) == lex_lt_from(a@, b@, i as nat),
        decreases a.len() - i,
    {
        i = i + 1;
    }
    if i >= a.len() {
        i < b.len()
    } else if i >= b.len() {
        false
    } else {
        a[i] < b[i]
    }
}

} // verus!
