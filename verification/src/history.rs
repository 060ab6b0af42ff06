//! The rules that shape the clipboard history: its length limit and how a stored list is read
//! back.
use std::collections::VecDeque;
use vstd::prelude::*;

use crate::text::strings_view;

verus! {

/// The most history entries kept; older ones fall off the end.
pub const MAX_CLIPBOARD_ITEMS: usize = 50;

/// The history `s` cut down to its first `MAX_CLIPBOARD_ITEMS` entries.
pub open spec fn capped(s: Seq<Seq<char>>) -> Seq<Seq<char>> {
    if s.len() > MAX_CLIPBOARD_ITEMS {
        s.take(MAX_CLIPBOARD_ITEMS as int)
    } else {
        s
    }
}

/// The entries of `s` that `capped` drops.
pub open spec fn overflow(s: Seq<Seq<char>>) -> Set<Seq<char>> {
    if s.len() > MAX_CLIPBOARD_ITEMS {
        s.skip(MAX_CLIPBOARD_ITEMS as int).to_set()
    } else {
        Set::empty()
    }
}

/// The non-empty entries of `items` in order, each kept only at its first occurrence.
pub open spec fn dedup_nonempty(items: Seq<Seq<char>>) -> Seq<Seq<char>>
    decreases items.len(),
{
    if items.len() == 0 {
        Seq::empty()
    } else {
        let r = dedup_nonempty(items.drop_last());
        let x = items.last();
        if x.len() == 0 || r.contains(x) {
            r
        } else {
            r.push(x)
        }
    }
}

/// A de-duplicated prefix never shrinks as more of the input is read.
pub proof fn lemma_dedup_prefix(s: Seq<Seq<char>>, j: int, k: int)
    requires
        0 <= j <= k <= s.len(),
    ensures
        dedup_nonempty(s.take(j)).len() <= dedup_nonempty(s.take(k)).len(),
        dedup_nonempty(s.take(j)) == dedup_nonempty(s.take(k)).take(dedup_nonempty(s.take(j)).len() as int),
    decreases k - j,
{
    if j < k {
        lemma_dedup_prefix(s, j, k - 1);
        assert(s.take(k).drop_last() =~= s.take(k - 1));
        let a = dedup_nonempty(s.take(k - 1));
        let b = dedup_nonempty(s.take(k));
        let c = dedup_nonempty(s.take(j));
        assert(b == a || b == a.push(s[k - 1]));
        assert(c =~= b.take(c.len() as int));
    } else {
        let c = dedup_nonempty(s.take(j));
        assert(c =~= c.take(c.len() as int));
    }
}

/// De-duplication yields distinct, non-empty entries.
pub proof fn lemma_dedup_distinct(s: Seq<Seq<char>>)
    ensures
        dedup_nonempty(s).no_duplicates(),
        forall|i: int| 0 <= i < dedup_nonempty(s).len() ==> #[trigger] dedup_nonempty(s)[i].len() > 0,
    decreases s.len(),
{
    if s.len() > 0 {
        lemma_dedup_distinct(s.drop_last());
        let r = dedup_nonempty(s.drop_last());
        let x = s.last();
        if !(x.len() == 0 || r.contains(x)) {
            let n = r.push(x);
            assert forall|a: int, b: int| 0 <= a < b < n.len() implies n[a] != n[b] by {
                if b == r.len() {
                    assert(n[a] == r[a]);
                }
            }
        }
    }
}

pub(crate) proof fn lemma_skip_to_set(s: Seq<Seq<char>>, k: int)
    requires
        0 <= k < s.len(),
    ensures
        s.skip(k).to_set() == s.skip(k + 1).to_set().insert(s[k]),
{
    let a = s.skip(k);
    let b = s.skip(k + 1);
    assert forall|x: Seq<char>| a.to_set().contains(x) implies b.to_set().insert(s[k]).contains(x) by {
        let j = choose|j: int| 0 <= j < a.len() && a[j] == x;
        if j > 0 {
            assert(b[j - 1] == x);
        }
    }
    assert forall|x: Seq<char>| b.to_set().insert(s[k]).contains(x) implies a.to_set().contains(x) by {
        if x == s[k] {
            assert(a[0] == x);
        } else {
            let j = choose|j: int| 0 <= j < b.len() && b[j] == x;
            assert(a[j + 1] == x);
        }
    }
    assert(a.to_set() =~= b.to_set().insert(s[k]));
}

pub(crate) fn deque_contains(d: &VecDeque<String>, t: &String) -> (r: bool)
    ensures
        r == strings_view(d@).contains(t@),
{
    let mut i: usize = 0;
    while i < d.len()
        invariant
            i <= d@.len(),
            forall|j: int| 0 <= j < i ==> d@[j]@ != t@,
        decreases d@.len() - i,
    {
        if d[i] == *t {
            assert(strings_view(d@)[i as int] == t@);
            return true;
        }
        i = i + 1;
    }
    proof {
        if strings_view(d@).contains(t@) {
            let j = choose|j: int| 0 <= j < strings_view(d@).len() && strings_view(d@)[j] == t@;
            assert(d@[j]@ == t@);
        }
    }
    false
}

pub(crate) fn vec_position(v: &Vec<String>, t: &String) -> (r: Option<usize>)
    ensures
        match r {
            Some(i) => i < v@.len() && v@[i as int]@ == t@,
            None => !strings_view(v@).contains(t@),
        },
{
    let mut i: usize = 0;
    while i < v.len()
        invariant
            i <= v@.len(),
            forall|j: int| 0 <= j < i ==> v@[j]@ != t@,
        decreases v@.len() - i,
    {
        if v[i] == *t {
            return Some(i);
        }
        i = i + 1;
    }
    proof {
        if strings_view(v@).contains(t@) {
            let j = choose|j: int| 0 <= j < strings_view(v@).len() && strings_view(v@)[j] == t@;
            assert(v@[j]@ == t@);
        }
    }
    None
}

} // verus!
