//! The clipboard-history domain state: recent clipboard texts, used marks, the pending paste,
//! and named groups of saved items kept in name order.
use std::collections::VecDeque;
use vstd::prelude::*;

use crate::display::{history_preview, history_preview_text};
use crate::history::{
    capped, dedup_nonempty, deque_contains, lemma_dedup_distinct, lemma_dedup_prefix,
    lemma_skip_to_set, overflow, vec_position, MAX_CLIPBOARD_ITEMS,
};
use crate::saved::{
    ensure_group, group_map, group_names_of, groups_sorted, groups_view, has_group, items_of,
    items_view, lemma_group_map_push, lemma_group_replace, lemma_items_of_absent,
    lemma_items_of_at, lemma_items_of_same_map, locate_group, put_group, GroupView, SavedGroup,
    SavedItem, SavedItemView,
};
use crate::text::{lemma_push_to_set, lemma_strings_view_push, opt_view, strings_view};

verus! {

/// The name of the group that always exists.
pub open spec fn default_group_name() -> Seq<char> {
    seq!['デ', 'フ', 'ォ', 'ル', 'ト']
}

/// The default group's name as a fresh string.
pub fn default_group_string() -> (s: String)
    ensures
        s@ == default_group_name(),
{
    proof {
        reveal_strlit("デフォルト");
    }
    "デフォルト".to_owned()
}

/// The abstract state.
pub struct AppStateView {
    /// Clipboard texts, most recent first.
    pub history: Seq<Seq<char>>,
    /// Texts that were pasted from the history.
    pub used: Set<Seq<char>>,
    /// The text the clipboard held when last seen.
    pub last_clipboard: Option<Seq<char>>,
    /// The text waiting to be pasted into the next focused window.
    pub pending_paste: Option<Seq<char>>,
    /// The remembered selection in the history list.
    pub selected_index: i32,
    /// Saved-item groups in name order.
    pub groups: Seq<GroupView>,
    /// The group that saved-item operations act on.
    pub active_group: Seq<char>,
}

impl AppStateView {
    /// What every reachable state satisfies.
    pub open spec fn wf(self) -> bool {
        &&& self.history.len() <= MAX_CLIPBOARD_ITEMS
        &&& self.history.no_duplicates()
        &&& (self.last_clipboard matches Some(t) ==> self.history.contains(t))
        &&& groups_sorted(self.groups)
        &&& has_group(self.groups, default_group_name())
    }

    /// The items of the active group (empty when it has no group).
    pub open spec fn active_items(self) -> Seq<SavedItemView> {
        items_of(self.groups, self.active_group)
    }
}

/// A history row as the history window shows it.
pub struct HistoryEntry {
    pub text: String,
    pub used: bool,
}

/// A saved-item row as the history window shows it.
pub struct SavedEntry {
    pub title: String,
    pub content: String,
}

/// `n` and `changed` are the outcome of recording clipboard text `t` in state `o`: a text equal
/// to the last one seen changes nothing; a text already in the history only becomes the last one
/// seen; any other text becomes the newest entry, the oldest entries beyond the limit are dropped
/// together with their used marks, and the history changed.
pub open spec fn pushed(o: AppStateView, t: Seq<char>, changed: bool, n: AppStateView) -> bool {
    if o.last_clipboard == Some(t) {
        !changed && n == o
    } else if o.history.contains(t) {
        !changed && n == (AppStateView { last_clipboard: Some(t), ..o })
    } else {
        &&& changed
        &&& n == (AppStateView {
            history: capped(seq![t] + o.history),
            used: o.used.difference(overflow(seq![t] + o.history)),
            last_clipboard: Some(t),
            ..o
        })
    }
}

/// Recording the same text twice in a row: the second time changes nothing.
pub proof fn lemma_repeat_push_is_noop(o: AppStateView, t: Seq<char>, c1: bool, m: AppStateView, c2: bool, n: AppStateView)
    requires
        pushed(o, t, c1, m),
        pushed(m, t, c2, n),
    ensures
        !c2,
        n == m,
{
}

/// Recording a text that is not in the history puts it first, and it is then in the history.
pub proof fn lemma_push_makes_newest(o: AppStateView, t: Seq<char>, changed: bool, n: AppStateView)
    requires
        o.wf(),
        pushed(o, t, changed, n),
        !o.history.contains(t),
    ensures
        changed,
        n.history[0] == t,
        n.history.len() == (if o.history.len() < MAX_CLIPBOARD_ITEMS { o.history.len() + 1 } else { MAX_CLIPBOARD_ITEMS as nat }),
{
}

/// Moving an entry to the front keeps the same entries: the history is a rearrangement.
pub proof fn lemma_move_to_front_keeps_entries(h: Seq<Seq<char>>, index: int)
    requires
        0 < index < h.len(),
    ensures
        (seq![h[index]] + h.remove(index)).len() == h.len(),
        (seq![h[index]] + h.remove(index)).to_multiset() == h.to_multiset(),
{
    broadcast use vstd::multiset::group_multiset_axioms, vstd::seq_lib::group_to_multiset_ensures;
    let r = h.remove(index);
    vstd::seq_lib::lemma_multiset_commutative(seq![h[index]], r);
    vstd::seq_lib::to_multiset_remove(h, index);
    assert(seq![h[index]] =~= Seq::<Seq<char>>::empty().push(h[index]));
    assert(h.contains(h[index]));
    assert((seq![h[index]] + r).to_multiset() =~= h.to_multiset());
}

/// Clipboard history and saved items.
pub struct AppState {
    history: VecDeque<String>,
    used_items: Vec<String>,
    last_clipboard_text: Option<String>,
    pending_paste_text: Option<String>,
    selected_index: i32,
    saved_groups: Vec<SavedGroup>,
    active_group: String,
}

impl View for AppState {
    type V = AppStateView;

    closed spec fn view(&self) -> AppStateView {
        AppStateView {
            history: strings_view(self.history@),
            used: strings_view(self.used_items@).to_set(),
            last_clipboard: opt_view(self.last_clipboard_text),
            pending_paste: opt_view(self.pending_paste_text),
            selected_index: self.selected_index,
            groups: groups_view(self.saved_groups@),
            active_group: self.active_group@,
        }
    }
}

impl AppState {
    /// The representation invariant.
    pub closed spec fn inv(&self) -> bool {
        &&& self@.wf()
        &&& strings_view(self.used_items@).no_duplicates()
    }

    /// Every state the library hands out satisfies `wf`.
    pub proof fn lemma_inv_wf(&self)
        requires
            self.inv(),
        ensures
            self@.wf(),
    {
    }

    /// An empty history with only the default group, which is active.
    pub fn new() -> (s: Self)
        ensures
            s.inv(),
            s@.history == Seq::<Seq<char>>::empty(),
            s@.used == Set::<Seq<char>>::empty(),
            s@.last_clipboard is None,
            s@.pending_paste is None,
            s@.selected_index == 0,
            s@.groups == seq![(default_group_name(), Seq::<SavedItemView>::empty())],
            s@.active_group == default_group_name(),
    {
        let mut saved_groups: Vec<SavedGroup> = Vec::new();
        saved_groups.push(SavedGroup { name: default_group_string(), items: Vec::new() });
        let s = AppState {
            history: VecDeque::new(),
            used_items: Vec::new(),
            last_clipboard_text: None,
            pending_paste_text: None,
            selected_index: 0,
            saved_groups,
            active_group: default_group_string(),
        };
        proof {
            assert(strings_view(s.used_items@) =~= Seq::<Seq<char>>::empty());
            assert(strings_view(s.history@) =~= Seq::<Seq<char>>::empty());
            assert(items_view(s.saved_groups@[0].items@) =~= Seq::<SavedItemView>::empty());
            assert(groups_view(s.saved_groups@) =~= seq![(default_group_name(), Seq::<SavedItemView>::empty())]);
            assert(groups_view(s.saved_groups@)[0].0 == default_group_name());
            assert(s@.history.no_duplicates());
        }
        s
    }

    /// Removes `t` from the used marks.
    fn remove_used(&mut self, t: &String)
        requires
            strings_view(old(self).used_items@).no_duplicates(),
        ensures
            strings_view(final(self).used_items@).no_duplicates(),
            strings_view(final(self).used_items@).to_set() == strings_view(
                old(self).used_items@,
            ).to_set().remove(t@),
            final(self).history == old(self).history,
            final(self).last_clipboard_text == old(self).last_clipboard_text,
            final(self).pending_paste_text == old(self).pending_paste_text,
            final(self).selected_index == old(self).selected_index,
            final(self).saved_groups == old(self).saved_groups,
            final(self).active_group == old(self).active_group,
    {
        match vec_position(&self.used_items, t) {
            Some(i) => {
                let ghost before = strings_view(self.used_items@);
                self.used_items.remove(i);
                proof {
                    let after = strings_view(self.used_items@);
                    assert(after =~= before.remove(i as int));
                    assert(before[i as int] == t@);
                    assert forall|x: Seq<char>| after.to_set().contains(x) implies before.to_set().remove(t@).contains(x) by {
                        let j = choose|j: int| 0 <= j < after.len() && after[j] == x;
                        if j < i {
                            assert(before[j] == x);
                        } else {
                            assert(before[j + 1] == x);
                        }
                    }
                    assert forall|x: Seq<char>| before.to_set().remove(t@).contains(x) implies after.to_set().contains(x) by {
                        let j = choose|j: int| 0 <= j < before.len() && before[j] == x;
                        if j < i {
                            assert(after[j] == x);
                        } else {
                            assert(after[j - 1] == x);
                        }
                    }
                    assert(after.to_set() =~= before.to_set().remove(t@));
                }
            },
            None => {
                proof {
                    let v = strings_view(self.used_items@);
                    assert(v.to_set() =~= v.to_set().remove(t@));
                }
            },
        }
    }

    /// Records a new clipboard text. A text equal to the last one seen, or already in the
    /// history, changes nothing but the last-seen text; otherwise it becomes the newest entry and
    /// the oldest entries beyond the limit are dropped, together with their used marks.
    /// Returns whether the history changed.
    pub fn push_clipboard(&mut self, text: String) -> (changed: bool)
        requires
            old(self).inv(),
        ensures
            final(self).inv(),
            pushed(old(self)@, text@, changed, final(self)@),
            changed == !old(self)@.history.contains(text@),
    {
        let same = match &self.last_clipboard_text {
            Some(last) => *last == text,
            None => false,
        };
        if same {
            return false;
        }
        self.last_clipboard_text = Some(text.clone());
        if deque_contains(&self.history, &text) {
            return false;
        }
        let ghost o = old(self)@;
        let ghost full = seq![text@] + o.history;
        self.history.push_front(text);
        proof {
            assert(strings_view(self.history@) =~= full);
            assert(full.no_duplicates());
        }
        while self.history.len() > MAX_CLIPBOARD_ITEMS
            invariant
                self.history@.len() <= full.len(),
                self.history@.len() == full.len() || self.history@.len() >= MAX_CLIPBOARD_ITEMS,
                strings_view(self.history@) == full.take(self.history@.len() as int),
                full.no_duplicates(),
                strings_view(self.used_items@).no_duplicates(),
                strings_view(self.used_items@).to_set() == o.used.difference(
                    full.skip(self.history@.len() as int).to_set(),
                ),
                self.saved_groups == old(self).saved_groups,
                self.active_group == old(self).active_group,
                self.pending_paste_text == old(self).pending_paste_text,
                self.selected_index == old(self).selected_index,
                opt_view(self.last_clipboard_text) == Some(full[0]),
            decreases self.history@.len(),
        {
            let ghost len = self.history@.len();
            let ghost before_h = self.history@;
            proof {
                assert(strings_view(before_h)[len - 1] == full[len - 1]);
            }
            if let Some(removed) = self.history.pop_back() {
                proof {
                    assert(removed@ == full[len - 1]);
                    assert(strings_view(self.history@) =~= full.take(len - 1));
                }
                self.remove_used(&removed);
                proof {
                    lemma_skip_to_set(full, len - 1);
                    assert(strings_view(self.used_items@).to_set() =~= o.used.difference(
                        full.skip(len - 1).to_set(),
                    ));
                }
            }
        }
        proof {
            let n = strings_view(self.history@);
            if full.len() > MAX_CLIPBOARD_ITEMS {
                assert(n == capped(full));
                assert(overflow(full) == full.skip(MAX_CLIPBOARD_ITEMS as int).to_set());
            } else {
                assert(full.take(full.len() as int) =~= full);
                assert(full.skip(full.len() as int).to_set() =~= Set::<Seq<char>>::empty());
                assert(o.used.difference(Set::<Seq<char>>::empty()) =~= o.used);
            }
            assert(n.no_duplicates()) by {
                assert forall|a: int, b: int| 0 <= a < b < n.len() implies n[a] != n[b] by {
                    assert(n[a] == full[a]);
                    assert(n[b] == full[b]);
                }
            }
            assert(n[0] == text@);
            assert(n.contains(text@));
        }
        true
    }

    /// Replaces the history with the non-empty, first-occurrence entries of `items`, at most
    /// `MAX_CLIPBOARD_ITEMS` of them; the newest of them becomes the last-seen clipboard text.
    pub fn restore_history(&mut self, items: Vec<String>)
        requires
            old(self).inv(),
        ensures
            final(self).inv(),
            ({
                let o = old(self)@;
                let n = final(self)@;
                let h = capped(dedup_nonempty(strings_view(items@)));
                n == AppStateView {
                    history: h,
                    last_clipboard: if h.len() > 0 { Some(h[0]) } else { None },
                    ..o
                }
            }),
    {
        let ghost sv = strings_view(items@);
        let mut restored: VecDeque<String> = VecDeque::new();
        let mut i: usize = 0;
        let mut full = false;
        proof {
            assert(sv.take(0) =~= Seq::<Seq<char>>::empty());
            assert(strings_view(restored@) =~= Seq::<Seq<char>>::empty());
        }
        while i < items.len() && !full
            invariant
                i <= items@.len(),
                sv == strings_view(items@),
                strings_view(restored@) == dedup_nonempty(sv.take(i as int)),
                full == (restored@.len() >= MAX_CLIPBOARD_ITEMS),
                restored@.len() <= MAX_CLIPBOARD_ITEMS,
            decreases items@.len() - i,
        {
            let item = items[i].clone();
            proof {
                assert(sv.take(i + 1).drop_last() =~= sv.take(i as int));
                assert(sv.take(i + 1).last() == item@);
            }
            if !item.as_str().is_empty() {
                if !deque_contains(&restored, &item) {
                    restored.push_back(item);
                    proof {
                        assert(strings_view(restored@) =~= dedup_nonempty(sv.take(i as int)).push(sv[i as int]));
                    }
                }
            }
            i = i + 1;
            full = restored.len() >= MAX_CLIPBOARD_ITEMS;
        }
        proof {
            let d = dedup_nonempty(sv);
            assert(sv.take(sv.len() as int) =~= sv);
            lemma_dedup_prefix(sv, i as int, sv.len() as int);
            lemma_dedup_distinct(sv);
            if full {
                assert(strings_view(restored@) =~= capped(d));
            }
        }
        let last = if restored.len() > 0 { Some(restored[0].clone()) } else { None };
        self.last_clipboard_text = last;
        self.history = restored;
        proof {
            let h = strings_view(self.history@);
            if h.len() > 0 {
                assert(h.contains(h[0]));
            }
        }
    }

    /// The history as a list, newest first.
    pub fn history_snapshot(&self) -> (r: Vec<String>)
        ensures
            strings_view(r@) == self@.history,
    {
        let mut r: Vec<String> = Vec::new();
        let mut i: usize = 0;
        while i < self.history.len()
            invariant
                i <= self.history@.len(),
                strings_view(r@) == strings_view(self.history@).take(i as int),
            decreases self.history@.len() - i,
        {
            let ghost before = r@;
            let x = self.history[i].clone();
            r.push(x);
            proof {
                lemma_strings_view_push(before, x);
                assert(strings_view(self.history@).take(i + 1) =~= strings_view(self.history@).take(i as int).push(x@));
            }
            i = i + 1;
        }
        proof {
            assert(strings_view(self.history@).take(i as int) =~= strings_view(self.history@));
        }
        r
    }

    /// Marks `text` as used.
    pub fn mark_as_used(&mut self, text: &str)
        requires
            old(self).inv(),
        ensures
            final(self).inv(),
            final(self)@ == (AppStateView { used: old(self)@.used.insert(text@), ..old(self)@ }),
    {
        let t = text.to_owned();
        match vec_position(&self.used_items, &t) {
            Some(k) => {
                proof {
                    assert(strings_view(self.used_items@)[k as int] == text@);
                    assert(self@.used.contains(text@));
                    assert(self@.used.insert(text@) =~= self@.used);
                }
            },
            None => {
                let ghost before = strings_view(self.used_items@);
                let ghost raw = self.used_items@;
                self.used_items.push(t);
                proof {
                    let after = strings_view(self.used_items@);
                    lemma_strings_view_push(raw, t);
                    lemma_push_to_set(before, text@);
                    assert(after.no_duplicates()) by {
                        assert forall|a: int, b: int| 0 <= a < b < after.len() implies after[a] != after[b] by {
                            if b == before.len() {
                                assert(after[a] == before[a]);
                            }
                        }
                    }
                }
            },
        }
    }

    /// The used texts, each once, in no particular order.
    pub fn used_items_snapshot(&self) -> (r: Vec<String>)
        requires
            self.inv(),
        ensures
            strings_view(r@).no_duplicates(),
            strings_view(r@).to_set() == self@.used,
    {
        let mut r: Vec<String> = Vec::new();
        let mut i: usize = 0;
        while i < self.used_items.len()
            invariant
                i <= self.used_items@.len(),
                strings_view(r@) == strings_view(self.used_items@).take(i as int),
            decreases self.used_items@.len() - i,
        {
            let ghost before = r@;
            let x = self.used_items[i].clone();
            r.push(x);
            proof {
                lemma_strings_view_push(before, x);
                assert(strings_view(self.used_items@).take(i + 1) =~= strings_view(self.used_items@).take(i as int).push(x@));
            }
            i = i + 1;
        }
        proof {
            assert(strings_view(self.used_items@).take(i as int) =~= strings_view(self.used_items@));
        }
        r
    }

    /// Replaces the used marks with the texts of `items`.
    pub fn restore_used_items(&mut self, items: Vec<String>)
        requires
            old(self).inv(),
        ensures
            final(self).inv(),
            final(self)@ == (AppStateView { used: strings_view(items@).to_set(), ..old(self)@ }),
    {
        let mut used: Vec<String> = Vec::new();
        let mut i: usize = 0;
        while i < items.len()
            invariant
                i <= items@.len(),
                strings_view(used@).no_duplicates(),
                strings_view(used@).to_set() == strings_view(items@).take(i as int).to_set(),
            decreases items@.len() - i,
        {
            let item = items[i].clone();
            let ghost before = strings_view(used@);
            proof {
                assert(strings_view(items@).take(i + 1) =~= strings_view(items@).take(i as int).push(item@));
                lemma_push_to_set(strings_view(items@).take(i as int), item@);
            }
            match vec_position(&used, &item) {
                Some(k) => {
                    proof {
                        assert(before[k as int] == item@);
                        assert(before.to_set().contains(item@));
                        assert(before.to_set().insert(item@) =~= before.to_set());
                    }
                },
                None => {
                    let ghost raw = used@;
                    used.push(item);
                    proof {
                        let after = strings_view(used@);
                        lemma_strings_view_push(raw, item);
                        lemma_push_to_set(before, item@);
                        assert forall|a: int, b: int| 0 <= a < b < after.len() implies after[a] != after[b] by {
                            if b == before.len() {
                                assert(after[a] == before[a]);
                            }
                        }
                    }
                },
            }
            i = i + 1;
        }
        proof {
            assert(strings_view(items@).take(i as int) =~= strings_view(items@));
        }
        self.used_items = used;
    }

    /// The history entry at `index`, if there is one.
    pub fn history_item_at(&self, index: usize) -> (r: Option<String>)
        ensures
            opt_view(r) == (if index < self@.history.len() { Some(self@.history[index as int]) } else { None }),
    {
        if index < self.history.len() {
            Some(self.history[index].clone())
        } else {
            None
        }
    }

    /// The history entries `0 ..= index` (fewer when the history is shorter).
    pub fn history_items_up_to(&self, index: usize) -> (r: Vec<String>)
        ensures
            strings_view(r@) == self@.history.take(
                if index + 1 < self@.history.len() { index + 1 } else { self@.history.len() as int },
            ),
    {
        let mut r: Vec<String> = Vec::new();
        let mut i: usize = 0;
        while i < self.history.len() && i <= index
            invariant
                i <= self.history@.len(),
                i <= index + 1,
                strings_view(r@) == strings_view(self.history@).take(i as int),
            decreases self.history@.len() - i,
        {
            let ghost before = r@;
            let x = self.history[i].clone();
            r.push(x);
            proof {
                lemma_strings_view_push(before, x);
                assert(strings_view(self.history@).take(i + 1) =~= strings_view(self.history@).take(i as int).push(x@));
            }
            i = i + 1;
        }
        r
    }

    /// Moves the entry at `index` to the front; the last-seen clipboard text becomes that entry.
    /// Returns whether anything moved (the front entry and out-of-range indices do not).
    pub fn move_to_front(&mut self, index: usize) -> (moved: bool)
        requires
            old(self).inv(),
        ensures
            final(self).inv(),
            ({
                let o = old(self)@;
                let n = final(self)@;
                if index == 0 || index >= o.history.len() {
                    !moved && n == o
                } else {
                    &&& moved
                    &&& n == AppStateView {
                        history: seq![o.history[index as int]] + o.history.remove(index as int),
                        last_clipboard: Some(o.history[index as int]),
                        ..o
                    }
                }
            }),
    {
        if index == 0 || index >= self.history.len() {
            return false;
        }
        let ghost o = strings_view(self.history@);
        match self.history.remove(index) {
            Some(item) => {
                let last = item.clone();
                self.history.push_front(item);
                self.last_clipboard_text = Some(last);
                proof {
                    let n = strings_view(self.history@);
                    assert(n =~= seq![o[index as int]] + o.remove(index as int));
                    assert(n[0] == o[index as int]);
                    assert(n.contains(o[index as int]));
                    assert forall|a: int, b: int| 0 <= a < b < n.len() implies n[a] != n[b] by {
                        let ia = if a == 0 { index as int } else if a - 1 < index { a - 1 } else { a };
                        let ib = if b - 1 < index { b - 1 } else { b };
                        assert(n[a] == o[ia]);
                        assert(n[b] == o[ib]);
                    }
                }
                true
            },
            None => false,
        }
    }

    /// Sets the text to paste into the next focused window.
    pub fn set_pending_paste(&mut self, text: String)
        requires
            old(self).inv(),
        ensures
            final(self).inv(),
            final(self)@ == (AppStateView { pending_paste: Some(text@), ..old(self)@ }),
    {
        self.pending_paste_text = Some(text);
    }

    /// Takes the text waiting to be pasted, leaving none.
    pub fn take_pending_paste(&mut self) -> (r: Option<String>)
        requires
            old(self).inv(),
        ensures
            final(self).inv(),
            opt_view(r) == old(self)@.pending_paste,
            final(self)@ == (AppStateView { pending_paste: None, ..old(self)@ }),
    {
        self.pending_paste_text.take()
    }

    /// The remembered history selection.
    pub fn selected_index(&self) -> (r: i32)
        ensures
            r == self@.selected_index,
    {
        self.selected_index
    }

    /// Remembers the history selection.
    pub fn set_selected_index(&mut self, index: i32)
        requires
            old(self).inv(),
        ensures
            final(self).inv(),
            final(self)@ == (AppStateView { selected_index: index, ..old(self)@ }),
    {
        self.selected_index = index;
    }

    /// The active group's name.
    pub fn active_group(&self) -> (r: &str)
        ensures
            r@ == self@.active_group,
    {
        self.active_group.as_str()
    }

    /// The group names in order.
    pub fn group_names(&self) -> (r: Vec<String>)
        ensures
            strings_view(r@) == group_names_of(self@.groups),
    {
        let mut r: Vec<String> = Vec::new();
        let mut i: usize = 0;
        while i < self.saved_groups.len()
            invariant
                i <= self.saved_groups@.len(),
                strings_view(r@) == group_names_of(groups_view(self.saved_groups@)).take(i as int),
            decreases self.saved_groups@.len() - i,
        {
            let ghost before = r@;
            let x = self.saved_groups[i].name.clone();
            r.push(x);
            proof {
                lemma_strings_view_push(before, x);
                assert(group_names_of(groups_view(self.saved_groups@)).take(i + 1) =~= group_names_of(
                    groups_view(self.saved_groups@),
                ).take(i as int).push(x@));
            }
            i = i + 1;
        }
        proof {
            assert(group_names_of(groups_view(self.saved_groups@)).take(i as int) =~= group_names_of(
                groups_view(self.saved_groups@),
            ));
        }
        r
    }

    /// Keeps the default group, which no operation removes, in the list.
    proof fn lemma_default_kept(before: Seq<GroupView>, after: Seq<GroupView>, x: Seq<char>, v: Seq<SavedItemView>)
        requires
            has_group(before, default_group_name()),
            group_map(after) == group_map(before).insert(x, v),
        ensures
            has_group(after, default_group_name()),
    {
        assert(group_map(before).dom().contains(default_group_name()));
        assert(group_map(after).dom().contains(default_group_name()));
    }

    /// Makes `group` the active group, creating it (empty) if it does not exist.
    pub fn set_active_group(&mut self, group: String)
        requires
            old(self).inv(),
        ensures
            final(self).inv(),
            group_map(final(self)@.groups) == group_map(old(self)@.groups).insert(
                group@,
                items_of(old(self)@.groups, group@),
            ),
            final(self)@ == (AppStateView {
                groups: final(self)@.groups,
                active_group: group@,
                ..old(self)@
            }),
    {
        ensure_group(&mut self.saved_groups, &group);
        proof {
            Self::lemma_default_kept(old(self)@.groups, self@.groups, group@, items_of(old(self)@.groups, group@));
        }
        self.active_group = group;
    }

    /// Adds an empty group named `name` unless one exists.
    pub fn add_group(&mut self, name: String)
        requires
            old(self).inv(),
        ensures
            final(self).inv(),
            group_map(final(self)@.groups) == group_map(old(self)@.groups).insert(
                name@,
                items_of(old(self)@.groups, name@),
            ),
            final(self)@ == (AppStateView { groups: final(self)@.groups, ..old(self)@ }),
    {
        ensure_group(&mut self.saved_groups, &name);
        proof {
            Self::lemma_default_kept(old(self)@.groups, self@.groups, name@, items_of(old(self)@.groups, name@));
        }
    }

    /// Appends an item to the group named `group`, creating the group if needed.
    pub fn add_saved_item(&mut self, group: &str, title: String, content: String)
        requires
            old(self).inv(),
        ensures
            final(self).inv(),
            group_map(final(self)@.groups) == group_map(old(self)@.groups).insert(
                group@,
                items_of(old(self)@.groups, group@).push(SavedItemView { title: title@, content: content@ }),
            ),
            final(self)@ == (AppStateView { groups: final(self)@.groups, ..old(self)@ }),
    {
        let name = group.to_owned();
        let ghost g0 = self@.groups;
        let k = ensure_group(&mut self.saved_groups, &name);
        let ghost g1 = self@.groups;
        let mut g = self.saved_groups.remove(k);
        let item = SavedItem { title, content };
        let ghost iv = item@;
        let ghost before_items = g.items@;
        g.items.push(item);
        let ghost e = g@;
        self.saved_groups.insert(k, g);
        proof {
            assert(items_view(g.items@) =~= items_view(before_items).push(iv));
            assert(groups_view(self.saved_groups@) =~= g1.update(k as int, e));
            lemma_items_of_at(g1, k as int);
            lemma_group_replace(g1, k as int, e);
            assert(items_of(g1, name@) == items_of(g0, name@)) by {
                if has_group(g0, name@) {
                    assert(group_map(g0).dom().contains(name@));
                } else {
                    lemma_items_of_absent(g0, name@);
                }
                assert(group_map(g1)[name@] == items_of(g0, name@));
                assert(group_map(g1).dom().contains(name@));
            }
            assert(group_map(self@.groups) =~= group_map(g0).insert(name@, items_of(g0, name@).push(iv)));
            Self::lemma_default_kept(g0, self@.groups, name@, items_of(g0, name@).push(iv));
        }
    }

    /// Removes the item at `index` of the active group; returns whether there was one.
    pub fn remove_saved_item(&mut self, index: usize) -> (removed: bool)
        requires
            old(self).inv(),
        ensures
            final(self).inv(),
            ({
                let o = old(self)@;
                let n = final(self)@;
                if has_group(o.groups, o.active_group) && index < o.active_items().len() {
                    &&& removed
                    &&& group_map(n.groups) == group_map(o.groups).insert(
                        o.active_group,
                        o.active_items().remove(index as int),
                    )
                    &&& n == (AppStateView { groups: n.groups, ..o })
                } else {
                    !removed && n == o
                }
            }),
    {
        let ghost g0 = self@.groups;
        let (found, k) = locate_group(&self.saved_groups, &self.active_group);
        if !found {
            return false;
        }
        proof {
            lemma_items_of_at(g0, k as int);
        }
        if index >= self.saved_groups[k].items.len() {
            return false;
        }
        let mut g = self.saved_groups.remove(k);
        let ghost before_items = g.items@;
        g.items.remove(index);
        let ghost e = g@;
        self.saved_groups.insert(k, g);
        proof {
            assert(items_view(g.items@) =~= items_view(before_items).remove(index as int));
            assert(groups_view(self.saved_groups@) =~= g0.update(k as int, e));
            lemma_group_replace(g0, k as int, e);
            Self::lemma_default_kept(g0, self@.groups, e.0, e.1);
        }
        true
    }

    /// Replaces the title and text of the active group's item at `index`; returns whether
    /// there was one.
    pub fn update_saved_item(&mut self, index: usize, title: String, content: String) -> (updated: bool)
        requires
            old(self).inv(),
        ensures
            final(self).inv(),
            ({
                let o = old(self)@;
                let n = final(self)@;
                if has_group(o.groups, o.active_group) && index < o.active_items().len() {
                    &&& updated
                    &&& group_map(n.groups) == group_map(o.groups).insert(
                        o.active_group,
                        o.active_items().update(index as int, SavedItemView { title: title@, content: content@ }),
                    )
                    &&& n == (AppStateView { groups: n.groups, ..o })
                } else {
                    !updated && n == o
                }
            }),
    {
        let ghost g0 = self@.groups;
        let (found, k) = locate_group(&self.saved_groups, &self.active_group);
        if !found {
            return false;
        }
        proof {
            lemma_items_of_at(g0, k as int);
        }
        if index >= self.saved_groups[k].items.len() {
            return false;
        }
        let mut g = self.saved_groups.remove(k);
        let ghost before_items = g.items@;
        let item = SavedItem { title, content };
        let ghost iv = item@;
        g.items.set(index, item);
        let ghost e = g@;
        self.saved_groups.insert(k, g);
        proof {
            assert(items_view(g.items@) =~= items_view(before_items).update(index as int, iv));
            assert(groups_view(self.saved_groups@) =~= g0.update(k as int, e));
            lemma_group_replace(g0, k as int, e);
            Self::lemma_default_kept(g0, self@.groups, e.0, e.1);
        }
        true
    }

    /// The active group's item at `index`, if there is one.
    pub fn saved_item_at(&self, index: usize) -> (r: Option<&SavedItem>)
        requires
            self.inv(),
        ensures
            match r {
                Some(item) => index < self@.active_items().len() && item@ == self@.active_items()[index as int],
                None => index >= self@.active_items().len(),
            },
    {
        let ghost g0 = self@.groups;
        let (found, k) = locate_group(&self.saved_groups, &self.active_group);
        if !found {
            proof {
                lemma_items_of_absent(g0, self@.active_group);
            }
            return None;
        }
        proof {
            lemma_items_of_at(g0, k as int);
        }
        if index < self.saved_groups[k].items.len() {
            Some(&self.saved_groups[k].items[index])
        } else {
            None
        }
    }

    /// The text of the active group's item at `index`, if there is one.
    pub fn saved_item_content_at(&self, index: usize) -> (r: Option<String>)
        requires
            self.inv(),
        ensures
            opt_view(r) == (if index < self@.active_items().len() {
                Some(self@.active_items()[index as int].content)
            } else {
                None
            }),
    {
        match self.saved_item_at(index) {
            Some(item) => Some(item.content.clone()),
            None => None,
        }
    }

    /// The position of the active group among the group names, or 0 when it has no group.
    pub fn active_group_index(&self) -> (r: i32)
        requires
            self.inv(),
        ensures
            has_group(self@.groups, self@.active_group) ==> exists|k: int|
                0 <= k < self@.groups.len() && self@.groups[k].0 == self@.active_group && r == k as i32,
            !has_group(self@.groups, self@.active_group) ==> r == 0,
    {
        let (found, k) = locate_group(&self.saved_groups, &self.active_group);
        if found {
            proof {
                assert(self@.groups[k as int].0 == self@.active_group);
            }
            k as i32
        } else {
            0
        }
    }

    /// A copy of all groups in name order.
    pub fn saved_groups_snapshot(&self) -> (r: Vec<SavedGroup>)
        ensures
            groups_view(r@) == self@.groups,
    {
        let mut r: Vec<SavedGroup> = Vec::new();
        let mut i: usize = 0;
        while i < self.saved_groups.len()
            invariant
                i <= self.saved_groups@.len(),
                groups_view(r@) == groups_view(self.saved_groups@).take(i as int),
            decreases self.saved_groups@.len() - i,
        {
            let g = self.saved_groups[i].clone();
            let ghost before = r@;
            r.push(g);
            proof {
                assert(groups_view(r@) =~= groups_view(before).push(g@));
                assert(groups_view(self.saved_groups@).take(i + 1) =~= groups_view(self.saved_groups@).take(
                    i as int,
                ).push(g@));
            }
            i = i + 1;
        }
        proof {
            assert(groups_view(self.saved_groups@).take(i as int) =~= groups_view(self.saved_groups@));
        }
        r
    }

    /// Replaces all groups with `groups` (a later group overrides an earlier one of the same
    /// name), adds the default group if missing, and, when `active_group` is given, makes it
    /// active if it names a group and makes the default group active otherwise.
    pub fn restore_saved_groups(&mut self, groups: Vec<SavedGroup>, active_group: Option<String>)
        requires
            old(self).inv(),
        ensures
            final(self).inv(),
            group_map(final(self)@.groups) == group_map(groups_view(groups@)).insert(
                default_group_name(),
                items_of(groups_view(groups@), default_group_name()),
            ),
            final(self)@.active_group == (match active_group {
                Some(ag) => if has_group(final(self)@.groups, ag@) { ag@ } else { default_group_name() },
                None => old(self)@.active_group,
            }),
            final(self)@ == (AppStateView {
                groups: final(self)@.groups,
                active_group: final(self)@.active_group,
                ..old(self)@
            }),
    {
        let ghost input = groups_view(groups@);
        let mut restored: Vec<SavedGroup> = Vec::new();
        let mut i: usize = 0;
        proof {
            assert(input.take(0) =~= Seq::<GroupView>::empty());
            assert(groups_view(restored@) =~= Seq::<GroupView>::empty());
            assert(group_map(groups_view(restored@)) =~= group_map(input.take(0)));
        }
        while i < groups.len()
            invariant
                i <= groups@.len(),
                input == groups_view(groups@),
                groups_sorted(groups_view(restored@)),
                group_map(groups_view(restored@)) == group_map(input.take(i as int)),
            decreases groups@.len() - i,
        {
            let g = groups[i].clone();
            put_group(&mut restored, g);
            proof {
                assert(input.take(i + 1) =~= input.take(i as int).push(g@));
                lemma_group_map_push(input.take(i as int), g@);
            }
            i = i + 1;
        }
        proof {
            assert(input.take(i as int) =~= input);
        }
        let default_name = default_group_string();
        let ghost before_default = groups_view(restored@);
        ensure_group(&mut restored, &default_name);
        proof {
            lemma_items_of_same_map(before_default, input, default_group_name());
            assert(group_map(groups_view(restored@)).dom().contains(default_group_name()));
        }
        self.saved_groups = restored;
        match active_group {
            Some(ag) => {
                let (found, k) = locate_group(&self.saved_groups, &ag);
                if found {
                    proof {
                        assert(self@.groups[k as int].0 == ag@);
                    }
                    self.active_group = ag;
                } else {
                    self.active_group = default_name;
                }
            },
            None => {},
        }
    }

    /// The rows of the history list: each entry's preview and whether it was used.
    pub fn history_model(&self) -> (r: Vec<HistoryEntry>)
        requires
            self.inv(),
        ensures
            r@.len() == self@.history.len(),
            forall|i: int| 0 <= i < r@.len() ==> {
                &&& (#[trigger] r@[i]).text@ == history_preview(self@.history[i])
                &&& r@[i].used == self@.used.contains(self@.history[i])
            },
    {
        let mut r: Vec<HistoryEntry> = Vec::new();
        let mut i: usize = 0;
        while i < self.history.len()
            invariant
                i <= self.history@.len(),
                r@.len() == i,
                forall|j: int| 0 <= j < i ==> {
                    &&& (#[trigger] r@[j]).text@ == history_preview(self@.history[j])
                    &&& r@[j].used == self@.used.contains(self@.history[j])
                },
            decreases self.history@.len() - i,
        {
            let item = &self.history[i];
            let text = history_preview_text(item.as_str());
            let used = match vec_position(&self.used_items, item) {
                Some(k) => {
                    proof {
                        assert(strings_view(self.used_items@)[k as int] == item@);
                    }
                    true
                },
                None => false,
            };
            r.push(HistoryEntry { text, used });
            i = i + 1;
        }
        r
    }

    /// The rows of the saved-item list: the active group's items.
    pub fn saved_items_model(&self) -> (r: Vec<SavedEntry>)
        requires
            self.inv(),
        ensures
            r@.len() == self@.active_items().len(),
            forall|i: int| 0 <= i < r@.len() ==> {
                &&& (#[trigger] r@[i]).title@ == self@.active_items()[i].title
                &&& r@[i].content@ == self@.active_items()[i].content
            },
    {
        let ghost g0 = self@.groups;
        let mut r: Vec<SavedEntry> = Vec::new();
        let (found, k) = locate_group(&self.saved_groups, &self.active_group);
        if !found {
            proof {
                lemma_items_of_absent(g0, self@.active_group);
            }
            return r;
        }
        proof {
            lemma_items_of_at(g0, k as int);
        }
        let items = &self.saved_groups[k].items;
        let mut i: usize = 0;
        while i < items.len()
            invariant
                i <= items@.len(),
                items_view(items@) == self@.active_items(),
                r@.len() == i,
                forall|j: int| 0 <= j < i ==> {
                    &&& (#[trigger] r@[j]).title@ == self@.active_items()[j].title
                    &&& r@[j].content@ == self@.active_items()[j].content
                },
            decreases items@.len() - i,
        {
            r.push(SavedEntry { title: items[i].title.clone(), content: items[i].content.clone() });
            i = i + 1;
        }
        r
    }
}

} // verus!
