//! Saved items and their named groups, kept in name order.
use vstd::prelude::*;

use crate::order::{chars_less, lemma_lex_asymmetric, lemma_lex_irreflexive, lemma_lex_total, lemma_lex_transitive, lex_lt, strictly_sorted};
use crate::text::chars_of;

verus! {

/// A saved item: a title and the text it pastes.
pub struct SavedItem {
    pub title: String,
    pub content: String,
}

/// What a saved item holds.
pub struct SavedItemView {
    pub title: Seq<char>,
    pub content: Seq<char>,
}

impl View for SavedItem {
    type V = SavedItemView;

    open spec fn view(&self) -> SavedItemView {
        SavedItemView { title: self.title@, content: self.content@ }
    }
}

impl Clone for SavedItem {
    fn clone(&self) -> (r: Self)
        ensures
            r@ == self@,
    {
        SavedItem { title: self.title.clone(), content: self.content.clone() }
    }
}

/// The views of a sequence of saved items.
pub open spec fn items_view(s: Seq<SavedItem>) -> Seq<SavedItemView> {
    s.map_values(|x: SavedItem| x@)
}

/// A named group of saved items (the unit of persistence).
pub struct SavedGroup {
    pub name: String,
    pub items: Vec<SavedItem>,
}

impl Clone for SavedGroup {
    fn clone(&self) -> (r: Self)
        ensures
            r@ == self@,
    {
        let mut items: Vec<SavedItem> = Vec::new();
        let mut i: usize = 0;
        while i < self.items.len()
            invariant
                i <= self.items@.len(),
                items_view(items@) == items_view(self.items@).take(i as int),
            decreases self.items@.len() - i,
        {
            let x = self.items[i].clone();
            let ghost before = items@;
            items.push(x);
            proof {
                assert(items_view(items@) =~= items_view(before).push(x@));
                assert(items_view(self.items@).take(i + 1) =~= items_view(self.items@).take(i as int).push(x@));
            }
            i = i + 1;
        }
        proof {
            assert(items_view(self.items@).take(i as int) =~= items_view(self.items@));
        }
        SavedGroup { name: self.name.clone(), items }
    }
}

/// A group's name and its items.
pub type GroupView = (Seq<char>, Seq<SavedItemView>);

impl View for SavedGroup {
    type V = GroupView;

    open spec fn view(&self) -> GroupView {
        (self.name@, items_view(self.items@))
    }
}

/// The views of a sequence of groups.
pub open spec fn groups_view(s: Seq<SavedGroup>) -> Seq<GroupView> {
    s.map_values(|g: SavedGroup| g@)
}

/// The names of a sequence of groups, in order.
pub open spec fn group_names_of(gs: Seq<GroupView>) -> Seq<Seq<char>> {
    gs.map_values(|g: GroupView| g.0)
}

/// Some group carries `name`.
pub open spec fn has_group(gs: Seq<GroupView>, name: Seq<char>) -> bool {
    exists|i: int| 0 <= i < gs.len() && #[trigger] gs[i].0 == name
}

/// Groups kept in strictly increasing name order, hence with distinct names.
pub open spec fn groups_sorted(gs: Seq<GroupView>) -> bool {
    strictly_sorted(group_names_of(gs))
}

/// The items of the group named `name`, or nothing when no group has that name.
pub open spec fn items_of(gs: Seq<GroupView>, name: Seq<char>) -> Seq<SavedItemView>
    decreases gs.len(),
{
    if gs.len() == 0 {
        Seq::empty()
    } else if gs.last().0 == name {
        gs.last().1
    } else {
        items_of(gs.drop_last(), name)
    }
}

/// The groups as a map from name to items; for a name that occurs more than once the last
/// occurrence wins.
pub open spec fn group_map(gs: Seq<GroupView>) -> Map<Seq<char>, Seq<SavedItemView>> {
    Map::new(|x: Seq<char>| has_group(gs, x), |x: Seq<char>| items_of(gs, x))
}

/// In a sorted group list the items under a name are those at its position.
pub proof fn lemma_items_of_at(gs: Seq<GroupView>, k: int)
    requires
        groups_sorted(gs),
        0 <= k < gs.len(),
    ensures
        items_of(gs, gs[k].0) == gs[k].1,
    decreases gs.len(),
{
    if k < gs.len() - 1 {
        let names = group_names_of(gs);
        assert(lex_lt(names[k], names[gs.len() - 1]));
        lemma_lex_irreflexive(names[k]);
        assert(gs.last().0 != gs[k].0);
        let d = gs.drop_last();
        assert(group_names_of(d) =~= names.drop_last());
        assert(d[k] == gs[k]);
        lemma_items_of_at(d, k);
    }
}

/// A name without a group has no items.
pub proof fn lemma_items_of_absent(gs: Seq<GroupView>, x: Seq<char>)
    requires
        !has_group(gs, x),
    ensures
        items_of(gs, x) == Seq::<SavedItemView>::empty(),
    decreases gs.len(),
{
    if gs.len() > 0 {
        assert(gs[gs.len() - 1].0 != x);
        let d = gs.drop_last();
        assert(!has_group(d, x)) by {
            if has_group(d, x) {
                let i = choose|i: int| 0 <= i < d.len() && d[i].0 == x;
                assert(gs[i].0 == x);
            }
        }
        lemma_items_of_absent(d, x);
    }
}

/// Appending a group to a list puts it in the map, overriding an earlier one of the same name.
pub proof fn lemma_group_map_push(gs: Seq<GroupView>, e: GroupView)
    ensures
        group_map(gs.push(e)) == group_map(gs).insert(e.0, e.1),
{
    let n = gs.push(e);
    assert(n.drop_last() =~= gs);
    assert forall|x: Seq<char>| has_group(n, x) <==> (has_group(gs, x) || x == e.0) by {
        if has_group(n, x) {
            let i = choose|i: int| 0 <= i < n.len() && n[i].0 == x;
            if i < gs.len() {
                assert(gs[i].0 == x);
            }
        }
        if has_group(gs, x) {
            let i = choose|i: int| 0 <= i < gs.len() && gs[i].0 == x;
            assert(n[i].0 == x);
        }
        if x == e.0 {
            assert(n[gs.len() as int].0 == x);
        }
    }
    assert(group_map(n) =~= group_map(gs).insert(e.0, e.1));
}

/// Lists with the same map hold the same items under every name.
pub proof fn lemma_items_of_same_map(a: Seq<GroupView>, b: Seq<GroupView>, x: Seq<char>)
    requires
        group_map(a) == group_map(b),
    ensures
        items_of(a, x) == items_of(b, x),
{
    if has_group(a, x) {
        assert(group_map(a).dom().contains(x));
        assert(group_map(a)[x] == items_of(a, x));
        assert(group_map(b)[x] == items_of(b, x));
    } else {
        assert(!group_map(a).dom().contains(x));
        assert(!has_group(b, x));
        lemma_items_of_absent(a, x);
        lemma_items_of_absent(b, x);
    }
}

/// Dropping the last group of a sorted list removes its name from the map.
proof fn lemma_group_map_drop_last(gs: Seq<GroupView>)
    requires
        groups_sorted(gs),
        gs.len() > 0,
    ensures
        groups_sorted(gs.drop_last()),
        group_map(gs.drop_last()) == group_map(gs).remove(gs.last().0),
{
    let d = gs.drop_last();
    let names = group_names_of(gs);
    assert(group_names_of(d) =~= names.drop_last());
    assert forall|x: Seq<char>| has_group(d, x) <==> (has_group(gs, x) && x != gs.last().0) by {
        if has_group(d, x) {
            let i = choose|i: int| 0 <= i < d.len() && d[i].0 == x;
            assert(gs[i].0 == x);
            assert(lex_lt(names[i], names[gs.len() - 1]));
            lemma_lex_irreflexive(x);
        }
        if has_group(gs, x) && x != gs.last().0 {
            let i = choose|i: int| 0 <= i < gs.len() && gs[i].0 == x;
            assert(i != gs.len() - 1);
            assert(d[i].0 == x);
        }
    }
    assert(group_map(d) =~= group_map(gs).remove(gs.last().0));
}

/// A sorted group list is fixed by its map: two sorted lists with the same map are equal.
pub proof fn lemma_sorted_groups_unique(a: Seq<GroupView>, b: Seq<GroupView>)
    requires
        groups_sorted(a),
        groups_sorted(b),
        group_map(a) == group_map(b),
    ensures
        a == b,
    decreases a.len(),
{
    if a.len() == 0 {
        if b.len() > 0 {
            assert(has_group(b, b[0].0));
            assert(group_map(b).dom().contains(b[0].0));
        }
        assert(a =~= b);
    } else {
        let la = a.last().0;
        assert(has_group(a, la));
        assert(group_map(a).dom().contains(la));
        assert(has_group(b, la));
        let lb = b.last().0;
        assert(has_group(b, lb));
        assert(group_map(b).dom().contains(lb));
        assert(has_group(a, lb));
        if la != lb {
            let i = choose|i: int| 0 <= i < a.len() && a[i].0 == lb;
            let j = choose|j: int| 0 <= j < b.len() && b[j].0 == la;
            assert(i != a.len() - 1);
            assert(j != b.len() - 1);
            assert(lex_lt(group_names_of(a)[i], group_names_of(a)[a.len() - 1]));
            assert(lex_lt(group_names_of(b)[j], group_names_of(b)[b.len() - 1]));
            lemma_lex_asymmetric(lb, la);
        }
        lemma_items_of_at(a, a.len() - 1);
        lemma_items_of_at(b, b.len() - 1);
        assert(group_map(a)[la] == group_map(b)[la]);
        assert(a.last() == b.last());
        lemma_group_map_drop_last(a);
        lemma_group_map_drop_last(b);
        lemma_sorted_groups_unique(a.drop_last(), b.drop_last());
        assert(a =~= a.drop_last().push(a.last()));
        assert(b =~= b.drop_last().push(b.last()));
    }
}

/// Inserting a group at its place in name order keeps the list sorted and adds it to the map.
proof fn lemma_group_insert(gs: Seq<GroupView>, k: int, e: GroupView)
    requires
        groups_sorted(gs),
        0 <= k <= gs.len(),
        forall|j: int| 0 <= j < k ==> lex_lt(#[trigger] gs[j].0, e.0),
        forall|j: int| k <= j < gs.len() ==> lex_lt(e.0, #[trigger] gs[j].0),
    ensures
        groups_sorted(gs.insert(k, e)),
        group_map(gs.insert(k, e)) == group_map(gs).insert(e.0, e.1),
{
    let n = gs.insert(k, e);
    let on = group_names_of(gs);
    let nn = group_names_of(n);
    assert forall|a: int, b: int| 0 <= a < b < nn.len() implies lex_lt(#[trigger] nn[a], #[trigger] nn[b]) by {
        if a < k && b < k {
            assert(nn[a] == on[a] && nn[b] == on[b]);
        } else if a < k && b == k {
            assert(nn[a] == gs[a].0);
        } else if a < k {
            assert(nn[a] == on[a] && nn[b] == on[b - 1]);
        } else if a == k {
            assert(nn[b] == gs[b - 1].0);
        } else {
            assert(nn[a] == on[a - 1] && nn[b] == on[b - 1]);
        }
    }
    assert(n[k] == e);
    assert forall|x: Seq<char>| has_group(n, x) <==> (has_group(gs, x) || x == e.0) by {
        if has_group(n, x) {
            let i = choose|i: int| 0 <= i < n.len() && n[i].0 == x;
            if i < k {
                assert(gs[i].0 == x);
            } else if i > k {
                assert(gs[i - 1].0 == x);
            }
        }
        if has_group(gs, x) {
            let i = choose|i: int| 0 <= i < gs.len() && gs[i].0 == x;
            if i < k {
                assert(n[i].0 == x);
            } else {
                assert(n[i + 1].0 == x);
            }
        }
    }
    assert forall|x: Seq<char>| #[trigger] has_group(n, x) implies items_of(n, x) == group_map(gs).insert(e.0, e.1)[x] by {
        if x == e.0 {
            lemma_items_of_at(n, k);
        } else {
            let i = choose|i: int| 0 <= i < gs.len() && gs[i].0 == x;
            lemma_items_of_at(gs, i);
            if i < k {
                lemma_items_of_at(n, i);
            } else {
                assert(n[i + 1] == gs[i]);
                lemma_items_of_at(n, i + 1);
            }
        }
    }
    assert(group_map(n) =~= group_map(gs).insert(e.0, e.1));
}

/// Replacing the items of an existing group keeps the order and updates the map.
pub(crate) proof fn lemma_group_replace(gs: Seq<GroupView>, k: int, e: GroupView)
    requires
        groups_sorted(gs),
        0 <= k < gs.len(),
        gs[k].0 == e.0,
    ensures
        groups_sorted(gs.update(k, e)),
        group_map(gs.update(k, e)) == group_map(gs).insert(e.0, e.1),
{
    let n = gs.update(k, e);
    assert(group_names_of(n) =~= group_names_of(gs));
    assert forall|x: Seq<char>| has_group(n, x) <==> has_group(gs, x) by {
        if has_group(n, x) {
            let i = choose|i: int| 0 <= i < n.len() && n[i].0 == x;
            assert(gs[i].0 == x);
        }
        if has_group(gs, x) {
            let i = choose|i: int| 0 <= i < gs.len() && gs[i].0 == x;
            assert(n[i].0 == x);
        }
    }
    assert forall|x: Seq<char>| #[trigger] has_group(n, x) implies items_of(n, x) == group_map(gs).insert(e.0, e.1)[x] by {
        let i = choose|i: int| 0 <= i < n.len() && n[i].0 == x;
        lemma_items_of_at(n, i);
        assert(has_group(gs, x));
        if i != k {
            assert(n[i] == gs[i]);
            lemma_items_of_at(gs, i);
            let names = group_names_of(n);
            if i < k {
                assert(lex_lt(names[i], names[k]));
            } else {
                assert(lex_lt(names[k], names[i]));
            }
            lemma_lex_irreflexive(x);
            assert(x != e.0);
        }
    }
    assert(group_map(n) =~= group_map(gs).insert(e.0, e.1));
}

/// Where `name` is, or where it would go, in a sorted group list.
pub(crate) fn locate_group(groups: &Vec<SavedGroup>, name: &String) -> (r: (bool, usize))
    requires
        groups_sorted(groups_view(groups@)),
    ensures
        r.1 <= groups@.len(),
        r.0 ==> r.1 < groups@.len() && groups@[r.1 as int].name@ == name@,
        !r.0 ==> (forall|j: int| 0 <= j < r.1 ==> lex_lt(#[trigger] groups@[j].name@, name@)),
        !r.0 ==> (forall|j: int| r.1 <= j < groups@.len() ==> lex_lt(name@, #[trigger] groups@[j].name@)),
        !r.0 ==> !has_group(groups_view(groups@), name@),
{
    let ghost gv = groups_view(groups@);
    let ghost names = group_names_of(gv);
    let name_chars = chars_of(name.as_str());
    let mut j: usize = 0;
    while j < groups.len()
        invariant
            j <= groups@.len(),
            gv == groups_view(groups@),
            names == group_names_of(gv),
            strictly_sorted(names),
            name_chars@ == name@,
            forall|i: int| 0 <= i < j ==> lex_lt(#[trigger] groups@[i].name@, name@),
        decreases groups@.len() - j,
    {
        if groups[j].name == *name {
            return (true, j);
        }
        let g_chars = chars_of(groups[j].name.as_str());
        if chars_less(&name_chars, &g_chars) {
            proof {
                assert forall|i: int| j <= i < groups@.len() implies lex_lt(name@, #[trigger] groups@[i].name@) by {
                    if i > j {
                        assert(names[j as int] == groups@[j as int].name@);
                        assert(names[i] == groups@[i].name@);
                        lemma_lex_transitive(name@, names[j as int], names[i]);
                    }
                }
                assert(!has_group(gv, name@)) by {
                    if has_group(gv, name@) {
                        let i = choose|i: int| 0 <= i < gv.len() && gv[i].0 == name@;
                        assert(gv[i].0 == groups@[i].name@);
                        if i < j {
                            lemma_lex_irreflexive(name@);
                        } else {
                            lemma_lex_irreflexive(name@);
                        }
                    }
                }
            }
            return (false, j);
        }
        proof {
            lemma_lex_total(name@, groups@[j as int].name@);
        }
        j = j + 1;
    }
    proof {
        assert(!has_group(gv, name@)) by {
            if has_group(gv, name@) {
                let i = choose|i: int| 0 <= i < gv.len() && gv[i].0 == name@;
                assert(gv[i].0 == groups@[i].name@);
                lemma_lex_irreflexive(name@);
            }
        }
    }
    (false, j)
}

/// Stores `g` in a sorted group list, replacing the items of a group with the same name.
pub(crate) fn put_group(groups: &mut Vec<SavedGroup>, g: SavedGroup) -> (k: usize)
    requires
        groups_sorted(groups_view(old(groups)@)),
    ensures
        groups_sorted(groups_view(final(groups)@)),
        group_map(groups_view(final(groups)@)) == group_map(groups_view(old(groups)@)).insert(g@.0, g@.1),
        k < final(groups)@.len(),
        groups_view(final(groups)@)[k as int] == g@,
{
    let ghost gv = groups_view(groups@);
    let ghost e = g@;
    let (found, k) = locate_group(groups, &g.name);
    if found {
        groups.remove(k);
        groups.insert(k, g);
        proof {
            assert(groups_view(groups@) =~= gv.update(k as int, e));
            lemma_group_replace(gv, k as int, e);
        }
    } else {
        groups.insert(k, g);
        proof {
            assert(groups_view(groups@) =~= gv.insert(k as int, e));
            assert forall|j: int| 0 <= j < k implies lex_lt(#[trigger] gv[j].0, e.0) by {
                assert(gv[j].0 == old(groups)@[j].name@);
            }
            assert forall|j: int| k <= j < gv.len() implies lex_lt(e.0, #[trigger] gv[j].0) by {
                assert(gv[j].0 == old(groups)@[j].name@);
            }
            lemma_group_insert(gv, k as int, e);
        }
    }
    k
}

/// Makes sure a group named `name` exists, adding an empty one in name order if needed.
pub(crate) fn ensure_group(groups: &mut Vec<SavedGroup>, name: &String) -> (k: usize)
    requires
        groups_sorted(groups_view(old(groups)@)),
    ensures
        groups_sorted(groups_view(final(groups)@)),
        group_map(groups_view(final(groups)@)) == group_map(groups_view(old(groups)@)).insert(
            name@,
            items_of(groups_view(old(groups)@), name@),
        ),
        k < final(groups)@.len(),
        groups_view(final(groups)@)[k as int].0 == name@,
{
    let ghost gv = groups_view(groups@);
    let (found, k) = locate_group(groups, name);
    if found {
        proof {
            assert(gv[k as int].0 == name@);
            lemma_items_of_at(gv, k as int);
            assert(has_group(gv, name@));
            assert(group_map(gv).insert(name@, items_of(gv, name@)) =~= group_map(gv));
        }
        k
    } else {
        proof {
            lemma_items_of_absent(gv, name@);
        }
        let g = SavedGroup { name: name.clone(), items: Vec::new() };
        proof {
            assert(items_view(g.items@) =~= Seq::<SavedItemView>::empty());
        }
        put_group(groups, g)
    }
}

} // verus!
