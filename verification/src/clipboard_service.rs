//! The clipboard service: history, pasting and saved items as the UI and monitors use them,
//! with indices as the UI passes them, and the history file's contents.
use vstd::prelude::*;

use crate::app_state::{default_group_name, default_group_string, pushed, AppState, AppStateView, HistoryEntry, SavedEntry};
use crate::history::{capped, dedup_nonempty};
use crate::saved::{
    group_map, group_names_of, groups_view, has_group, items_of, items_view, lemma_items_of_at,
    lemma_sorted_groups_unique, GroupView, SavedGroup, SavedItem, SavedItemView,
};
use crate::text::{opt_view, strings_view};
use crate::display::{history_preview, title_from_content, generate_title_from_content};
use crate::text::push_str;

verus! {

/// The history file's contents. `saved_items` is the flat list of an older format, read into
/// the default group when `saved_groups` is empty.
pub struct PersistedClipboardHistory {
    pub version: u32,
    pub items: Vec<String>,
    pub selected_index: i32,
    pub saved_items: Vec<SavedItem>,
    pub saved_groups: Vec<SavedGroup>,
    pub active_group: Option<String>,
}

/// The format version written by `persisted_snapshot`.
pub const HISTORY_FORMAT_VERSION: u32 = 1;

/// `p` is what the history file holds for state `s`.
pub open spec fn persisted_matches(p: PersistedClipboardHistory, s: AppStateView) -> bool {
    &&& p.version == HISTORY_FORMAT_VERSION
    &&& strings_view(p.items@) == s.history
    &&& p.selected_index == s.selected_index
    &&& p.saved_items@.len() == 0
    &&& groups_view(p.saved_groups@) == s.groups
    &&& opt_view(p.active_group) == Some(s.active_group)
}

/// `n` is state `o` after taking over the history file `p`: the history is restored from its
/// items, the selection is taken over, and the groups are restored from `saved_groups` or, when
/// that is empty, from the older flat list (into the default group).
pub open spec fn loaded_from(o: AppStateView, p: PersistedClipboardHistory, n: AppStateView) -> bool {
    let h = capped(dedup_nonempty(strings_view(p.items@)));
    let gin = groups_view(p.saved_groups@);
    let dflt = default_group_name();
    &&& n.history == h
    &&& n.last_clipboard == (if h.len() > 0 { Some(h[0]) } else { None })
    &&& n.used == o.used
    &&& n.pending_paste == o.pending_paste
    &&& n.selected_index == p.selected_index
    &&& if gin.len() > 0 {
        &&& group_map(n.groups) == group_map(gin).insert(dflt, items_of(gin, dflt))
        &&& n.active_group == (match p.active_group {
            Some(ag) => if has_group(n.groups, ag@) { ag@ } else { dflt },
            None => o.active_group,
        })
    } else if p.saved_items@.len() > 0 {
        &&& group_map(n.groups) == Map::<Seq<char>, Seq<SavedItemView>>::empty().insert(
            dflt,
            items_view(p.saved_items@),
        )
        &&& n.active_group == o.active_group
    } else {
        &&& n.groups == o.groups
        &&& n.active_group == o.active_group
    }
}

/// `items` joined with `sep` between neighbours.
pub open spec fn joined(items: Seq<Seq<char>>, sep: Seq<char>) -> Seq<char>
    decreases items.len(),
{
    if items.len() == 0 {
        Seq::empty()
    } else if items.len() == 1 {
        items[0]
    } else {
        joined(items.drop_last(), sep) + sep + items.last()
    }
}

/// Joining puts exactly one separator between neighbours: the joined text is as long as all
/// the items together plus one separator fewer than there are items.
pub proof fn lemma_joined_length(items: Seq<Seq<char>>, sep: Seq<char>)
    requires
        items.len() > 0,
    ensures
        joined(items, sep).len() == items.flatten().len() + (items.len() - 1) * sep.len(),
    decreases items.len(),
{
    broadcast use Seq::lemma_flatten_push, Seq::lemma_flatten_singleton;
    if items.len() > 1 {
        let d = items.drop_last();
        lemma_joined_length(d, sep);
        assert(items =~= d.push(items.last()));
        assert(items.flatten() =~= d.flatten() + items.last());
        assert(joined(items, sep) == joined(d, sep) + sep + items.last());
        let k: int = d.len() - 1;
        assert((k + 1) * sep.len() == k * sep.len() + sep.len()) by (nonlinear_arith);
        assert(joined(items, sep).len() == joined(d, sep).len() + sep.len() + items.last().len());
        assert(items.flatten().len() == d.flatten().len() + items.last().len());
    } else {
        assert(items.flatten() == items[0]);
    }
}

/// With an empty separator, joining is plain concatenation of the items in order.
pub proof fn lemma_joined_without_separator(items: Seq<Seq<char>>)
    ensures
        joined(items, Seq::<char>::empty()) == items.flatten(),
    decreases items.len(),
{
    broadcast use Seq::lemma_flatten_push, Seq::lemma_flatten_singleton;
    if items.len() == 0 {
        assert(items.flatten() =~= Seq::<char>::empty());
    } else if items.len() > 1 {
        let d = items.drop_last();
        lemma_joined_without_separator(d);
        assert(items =~= d.push(items.last()));
        assert(joined(items, Seq::<char>::empty()) =~= d.flatten() + items.last());
    }
}

/// Joins strings with a separator.
pub fn join_strings(items: &Vec<String>, sep: &str) -> (r: String)
    ensures
        r@ == joined(strings_view(items@), sep@),
{
    let mut r = String::new();
    let mut i: usize = 0;
    while i < items.len()
        invariant
            i <= items@.len(),
            r@ == joined(strings_view(items@).take(i as int), sep@),
        decreases items@.len() - i,
    {
        let ghost sv = strings_view(items@);
        proof {
            assert(sv.take(i + 1).drop_last() =~= sv.take(i as int));
        }
        if i > 0 {
            push_str(&mut r, sep);
        } else {
            proof {
                assert(r@ =~= Seq::<char>::empty());
            }
        }
        push_str(&mut r, items[i].as_str());
        proof {
            assert(sv.take(i + 1).last() == items@[i as int]@);
            if i == 0 {
                assert(r@ =~= sv.take(1)[0]);
            }
        }
        i = i + 1;
    }
    proof {
        assert(strings_view(items@).take(i as int) =~= strings_view(items@));
    }
    r
}

/// A de-duplicated list of distinct non-empty texts is itself.
pub proof fn lemma_dedup_of_distinct(s: Seq<Seq<char>>)
    requires
        s.no_duplicates(),
        forall|i: int| 0 <= i < s.len() ==> (#[trigger] s[i]).len() > 0,
    ensures
        dedup_nonempty(s) == s,
    decreases s.len(),
{
    if s.len() > 0 {
        let d = s.drop_last();
        assert forall|a: int, b: int| 0 <= a < b < d.len() implies d[a] != d[b] by {
            assert(d[a] == s[a] && d[b] == s[b]);
        }
        assert forall|i: int| 0 <= i < d.len() implies (#[trigger] d[i]).len() > 0 by {
            assert(d[i] == s[i]);
        }
        lemma_dedup_of_distinct(d);
        assert(!d.contains(s.last())) by {
            if d.contains(s.last()) {
                let j = choose|j: int| 0 <= j < d.len() && d[j] == s.last();
                assert(s[j] == s[s.len() - 1]);
            }
        }
        assert(s =~= d.push(s.last()));
    }
}

/// Writing the history file and reading it back restores the history, the selection, the groups
/// and the active group, provided no history entry is empty (empty entries are not read back)
/// and the active group exists (otherwise the default group becomes active).
pub proof fn lemma_persist_round_trip(
    s: AppStateView,
    p: PersistedClipboardHistory,
    o: AppStateView,
    n: AppStateView,
)
    requires
        s.wf(),
        n.wf(),
        persisted_matches(p, s),
        loaded_from(o, p, n),
        forall|i: int| 0 <= i < s.history.len() ==> (#[trigger] s.history[i]).len() > 0,
        has_group(s.groups, s.active_group),
    ensures
        n.history == s.history,
        n.selected_index == s.selected_index,
        n.groups == s.groups,
        n.active_group == s.active_group,
{
    lemma_dedup_of_distinct(s.history);
    let dflt = default_group_name();
    let gin = groups_view(p.saved_groups@);
    assert(gin == s.groups);
    let i = choose|i: int| 0 <= i < s.groups.len() && s.groups[i].0 == dflt;
    assert(gin.len() > 0);
    assert(group_map(s.groups).dom().contains(dflt));
    assert(group_map(s.groups).insert(dflt, items_of(s.groups, dflt)) =~= group_map(s.groups));
    lemma_sorted_groups_unique(n.groups, s.groups);
    assert(group_map(n.groups).dom().contains(s.active_group));
}

/// The clipboard history and saved items, operated on with the UI's indices.
pub struct ClipboardService {
    app_state: AppState,
}

impl ClipboardService {
    /// The current state.
    pub closed spec fn state(&self) -> AppStateView {
        self.app_state@
    }

    /// The representation invariant.
    pub closed spec fn inv(&self) -> bool {
        self.app_state.inv()
    }

    /// Every state the service holds satisfies `wf`.
    pub proof fn lemma_inv_wf(&self)
        requires
            self.inv(),
        ensures
            self.state().wf(),
    {
        self.app_state.lemma_inv_wf();
    }

    /// The service over `app_state`.
    pub fn new(app_state: AppState) -> (s: Self)
        requires
            app_state.inv(),
        ensures
            s.inv(),
            s.state() == app_state@,
    {
        ClipboardService { app_state }
    }

    /// Records a clipboard text (see `AppState::push_clipboard`); returns whether the history
    /// changed, in which case the history file is due to be written.
    pub fn push_clipboard_text(&mut self, text: String) -> (changed: bool)
        requires
            old(self).inv(),
        ensures
            final(self).inv(),
            pushed(old(self).state(), text@, changed, final(self).state()),
            changed == !old(self).state().history.contains(text@),
    {
        self.app_state.push_clipboard(text)
    }

    /// The rows of the history list.
    pub fn history_model(&self) -> (r: Vec<HistoryEntry>)
        requires
            self.inv(),
        ensures
            r@.len() == self.state().history.len(),
            forall|i: int| 0 <= i < r@.len() ==> {
                &&& (#[trigger] r@[i]).text@ == history_preview(self.state().history[i])
                &&& r@[i].used == self.state().used.contains(self.state().history[i])
            },
    {
        self.app_state.history_model()
    }

    /// Takes over the contents of the history file.
    pub fn load_persisted(&mut self, persisted: PersistedClipboardHistory)
        requires
            old(self).inv(),
        ensures
            final(self).inv(),
            loaded_from(old(self).state(), persisted, final(self).state()),
    {
        let PersistedClipboardHistory { version: _, items, selected_index, saved_items, saved_groups, active_group } = persisted;
        self.app_state.restore_history(items);
        self.app_state.set_selected_index(selected_index);
        if saved_groups.len() > 0 {
            self.app_state.restore_saved_groups(saved_groups, active_group);
        } else if saved_items.len() > 0 {
            let mut groups: Vec<SavedGroup> = Vec::new();
            let ghost iv = items_view(saved_items@);
            groups.push(SavedGroup { name: default_group_string(), items: saved_items });
            proof {
                let g1 = groups_view(groups@);
                assert(g1 =~= seq![(default_group_name(), iv)]);
                assert(g1.drop_last() =~= Seq::<GroupView>::empty());
                assert(g1[0].0 == default_group_name());
                assert(has_group(g1, default_group_name()));
                assert(group_map(g1).insert(default_group_name(), items_of(g1, default_group_name()))
                    =~= Map::<Seq<char>, Seq<SavedItemView>>::empty().insert(default_group_name(), iv)) by {
                    assert forall|x: Seq<char>| has_group(g1, x) <==> x == default_group_name() by {
                        if has_group(g1, x) {
                            let i = choose|i: int| 0 <= i < g1.len() && g1[i].0 == x;
                            assert(i == 0);
                        }
                    }
                }
            }
            self.app_state.restore_saved_groups(groups, None);
        }
    }

    /// What the history file is to hold for the current state.
    pub fn persisted_snapshot(&self) -> (p: PersistedClipboardHistory)
        requires
            self.inv(),
        ensures
            persisted_matches(p, self.state()),
    {
        let active = self.app_state.active_group().to_owned();
        PersistedClipboardHistory {
            version: HISTORY_FORMAT_VERSION,
            items: self.app_state.history_snapshot(),
            selected_index: self.app_state.selected_index(),
            saved_items: Vec::new(),
            saved_groups: self.app_state.saved_groups_snapshot(),
            active_group: Some(active),
        }
    }

    /// Selects the history entry at `index` for pasting: it becomes the pending paste and the
    /// remembered selection. Returns the text for the clipboard, or nothing (and no change) when
    /// `index` is negative or past the end.
    pub fn prepare_paste_from_history_index(&mut self, index: i32) -> (r: Option<String>)
        requires
            old(self).inv(),
        ensures
            final(self).inv(),
            ({
                let o = old(self).state();
                let n = final(self).state();
                if 0 <= index < o.history.len() {
                    &&& opt_view(r) == Some(o.history[index as int])
                    &&& n == AppStateView {
                        pending_paste: Some(o.history[index as int]),
                        selected_index: index,
                        ..o
                    }
                } else {
                    r is None && n == o
                }
            }),
    {
        if index < 0 {
            return None;
        }
        match self.app_state.history_item_at(index as usize) {
            Some(text) => {
                self.app_state.set_pending_paste(text.clone());
                self.app_state.set_selected_index(index);
                Some(text)
            },
            None => None,
        }
    }

    /// Takes the pending paste; returns whether there was one, in which case the paste
    /// shortcut is due to be sent.
    pub fn trigger_pending_paste(&mut self) -> (r: bool)
        requires
            old(self).inv(),
        ensures
            final(self).inv(),
            r == (old(self).state().pending_paste is Some),
            final(self).state() == (AppStateView { pending_paste: None, ..old(self).state() }),
    {
        self.app_state.take_pending_paste().is_some()
    }

    /// The remembered history selection.
    pub fn selected_index(&self) -> (r: i32)
        ensures
            r == self.state().selected_index,
    {
        self.app_state.selected_index()
    }

    /// The history entry at `index`, if `index` is in range.
    pub fn get_history_item_content(&self, index: i32) -> (r: Option<String>)
        ensures
            opt_view(r) == (if 0 <= index < self.state().history.len() {
                Some(self.state().history[index as int])
            } else {
                None
            }),
    {
        if index < 0 {
            return None;
        }
        self.app_state.history_item_at(index as usize)
    }

    /// Makes the history entries `0 ..= up_to_index`, joined with `separator`, the pending
    /// paste, and returns that text for the clipboard; nothing (and no change) when the index is
    /// negative or the history is empty.
    pub fn prepare_bulk_paste(&mut self, up_to_index: i32, separator: &str) -> (r: Option<String>)
        requires
            old(self).inv(),
        ensures
            final(self).inv(),
            ({
                let o = old(self).state();
                let n = final(self).state();
                let count = if up_to_index + 1 < o.history.len() { up_to_index + 1 } else { o.history.len() as int };
                if up_to_index >= 0 && o.history.len() > 0 {
                    &&& opt_view(r) == Some(joined(o.history.take(count), separator@))
                    &&& n == AppStateView { pending_paste: Some(joined(o.history.take(count), separator@)), ..o }
                } else {
                    r is None && n == o
                }
            }),
    {
        if up_to_index < 0 {
            return None;
        }
        let items = self.app_state.history_items_up_to(up_to_index as usize);
        if items.len() == 0 {
            return None;
        }
        let text = join_strings(&items, separator);
        self.app_state.set_pending_paste(text.clone());
        Some(text)
    }

    /// Appends a saved item to the group named `group`, creating the group if needed.
    pub fn add_saved_item(&mut self, group: &str, title: String, content: String)
        requires
            old(self).inv(),
        ensures
            final(self).inv(),
            group_map(final(self).state().groups) == group_map(old(self).state().groups).insert(
                group@,
                items_of(old(self).state().groups, group@).push(SavedItemView { title: title@, content: content@ }),
            ),
            final(self).state() == (AppStateView { groups: final(self).state().groups, ..old(self).state() }),
    {
        self.app_state.add_saved_item(group, title, content);
    }

    /// Removes the active group's item at `index`; returns whether one was removed.
    pub fn remove_saved_item(&mut self, index: i32) -> (removed: bool)
        requires
            old(self).inv(),
        ensures
            final(self).inv(),
            ({
                let o = old(self).state();
                let n = final(self).state();
                if has_group(o.groups, o.active_group) && 0 <= index < o.active_items().len() {
                    &&& removed
                    &&& group_map(n.groups) == group_map(o.groups).insert(
                        o.active_group,
                        o.active_items().remove(index as int),
                    )
                    &&& n == (AppStateView { groups: n.groups, ..o })
                } else {
                    !removed && n == o
                }
            }),
    {
        if index < 0 {
            return false;
        }
        self.app_state.remove_saved_item(index as usize)
    }

    /// The rows of the saved-item list.
    pub fn saved_items_model(&self) -> (r: Vec<SavedEntry>)
        requires
            self.inv(),
        ensures
            r@.len() == self.state().active_items().len(),
            forall|i: int| 0 <= i < r@.len() ==> {
                &&& (#[trigger] r@[i]).title@ == self.state().active_items()[i].title
                &&& r@[i].content@ == self.state().active_items()[i].content
            },
    {
        self.app_state.saved_items_model()
    }

    /// The group names in order.
    pub fn group_names(&self) -> (r: Vec<String>)
        ensures
            strings_view(r@) == group_names_of(self.state().groups),
    {
        self.app_state.group_names()
    }

    /// The position of the active group among the group names, or 0 when it has no group.
    pub fn active_group_index(&self) -> (r: i32)
        requires
            self.inv(),
        ensures
            has_group(self.state().groups, self.state().active_group) ==> exists|k: int|
                0 <= k < self.state().groups.len() && self.state().groups[k].0 == self.state().active_group
                    && r == k as i32,
            !has_group(self.state().groups, self.state().active_group) ==> r == 0,
    {
        self.app_state.active_group_index()
    }

    /// Makes `group` the active group, creating it if needed.
    pub fn set_active_group(&mut self, group: String)
        requires
            old(self).inv(),
        ensures
            final(self).inv(),
            group_map(final(self).state().groups) == group_map(old(self).state().groups).insert(
                group@,
                items_of(old(self).state().groups, group@),
            ),
            final(self).state() == (AppStateView {
                groups: final(self).state().groups,
                active_group: group@,
                ..old(self).state()
            }),
    {
        self.app_state.set_active_group(group);
    }

    /// Makes the group at position `group_index` among the names active; returns whether the
    /// index named a group.
    pub fn switch_group(&mut self, group_index: i32) -> (switched: bool)
        requires
            old(self).inv(),
        ensures
            final(self).inv(),
            ({
                let o = old(self).state();
                let n = final(self).state();
                if 0 <= group_index < o.groups.len() {
                    switched && n == (AppStateView { active_group: o.groups[group_index as int].0, ..o })
                } else {
                    !switched && n == o
                }
            }),
    {
        let names = self.app_state.group_names();
        let ghost o = self.state();
        proof {
            self.app_state.lemma_inv_wf();
            assert(strings_view(names@).len() == names@.len());
            assert(group_names_of(o.groups).len() == o.groups.len());
        }
        if group_index < 0 || group_index as usize >= names.len() {
            return false;
        }
        let name = names[group_index as usize].clone();
        proof {
            assert(group_names_of(o.groups)[group_index as int] == o.groups[group_index as int].0);
            assert(strings_view(names@)[group_index as int] == name@);
            assert(o.groups[group_index as int].0 == name@);
            lemma_items_of_at(o.groups, group_index as int);
            assert(has_group(o.groups, name@));
            assert(group_map(o.groups).insert(name@, items_of(o.groups, name@)) =~= group_map(o.groups));
        }
        self.app_state.set_active_group(name);
        proof {
            self.app_state.lemma_inv_wf();
            lemma_sorted_groups_unique(self.state().groups, o.groups);
        }
        true
    }

    /// Adds an empty group named `name` unless one exists.
    pub fn add_group(&mut self, name: String)
        requires
            old(self).inv(),
        ensures
            final(self).inv(),
            group_map(final(self).state().groups) == group_map(old(self).state().groups).insert(
                name@,
                items_of(old(self).state().groups, name@),
            ),
            final(self).state() == (AppStateView { groups: final(self).state().groups, ..old(self).state() }),
    {
        self.app_state.add_group(name);
    }

    /// Saves an item from the save dialog: the group named `group` is created if it does not
    /// exist, and the item is appended to it.
    pub fn save_to_group(&mut self, group: String, title: String, content: String)
        requires
            old(self).inv(),
        ensures
            final(self).inv(),
            group_map(final(self).state().groups) == group_map(old(self).state().groups).insert(
                group@,
                items_of(old(self).state().groups, group@).push(SavedItemView { title: title@, content: content@ }),
            ),
            final(self).state() == (AppStateView { groups: final(self).state().groups, ..old(self).state() }),
    {
        let ghost g0 = self.state().groups;
        self.add_group(group.clone());
        let ghost g1 = self.state().groups;
        proof {
            assert(group_map(g1).dom().contains(group@));
            assert(group_map(g1)[group@] == items_of(g1, group@));
        }
        self.add_saved_item(group.as_str(), title, content);
        proof {
            assert(group_map(self.state().groups) =~= group_map(g0).insert(
                group@,
                items_of(g0, group@).push(SavedItemView { title: title@, content: content@ }),
            ));
        }
    }

    /// Selects the active group's item at `index` for pasting: its text becomes the pending
    /// paste and is returned for the clipboard; nothing (and no change) when there is no such
    /// item.
    pub fn prepare_paste_from_saved_index(&mut self, index: i32) -> (r: Option<String>)
        requires
            old(self).inv(),
        ensures
            final(self).inv(),
            ({
                let o = old(self).state();
                let n = final(self).state();
                if 0 <= index < o.active_items().len() {
                    &&& opt_view(r) == Some(o.active_items()[index as int].content)
                    &&& n == (AppStateView { pending_paste: Some(o.active_items()[index as int].content), ..o })
                } else {
                    r is None && n == o
                }
            }),
    {
        if index < 0 {
            return None;
        }
        match self.app_state.saved_item_content_at(index as usize) {
            Some(text) => {
                self.app_state.set_pending_paste(text.clone());
                Some(text)
            },
            None => None,
        }
    }

    /// Moves the history entry at `index` to the front; returns whether it moved.
    pub fn move_history_to_front(&mut self, index: i32) -> (moved: bool)
        requires
            old(self).inv(),
        ensures
            final(self).inv(),
            ({
                let o = old(self).state();
                let n = final(self).state();
                if 0 < index < o.history.len() {
                    &&& moved
                    &&& n == AppStateView {
                        history: seq![o.history[index as int]] + o.history.remove(index as int),
                        last_clipboard: Some(o.history[index as int]),
                        ..o
                    }
                } else {
                    !moved && n == o
                }
            }),
    {
        if index <= 0 {
            return false;
        }
        self.app_state.move_to_front(index as usize)
    }

    /// The title and text of the active group's item at `index`.
    pub fn get_saved_item(&self, index: i32) -> (r: Option<(String, String)>)
        requires
            self.inv(),
        ensures
            match r {
                Some(pair) => 0 <= index < self.state().active_items().len()
                    && pair.0@ == self.state().active_items()[index as int].title
                    && pair.1@ == self.state().active_items()[index as int].content,
                None => !(0 <= index < self.state().active_items().len()),
            },
    {
        if index < 0 {
            return None;
        }
        match self.app_state.saved_item_at(index as usize) {
            Some(item) => Some((item.title.clone(), item.content.clone())),
            None => None,
        }
    }

    /// Replaces the active group's item at `index`; returns whether there was one.
    pub fn update_saved_item(&mut self, index: i32, title: String, content: String) -> (updated: bool)
        requires
            old(self).inv(),
        ensures
            final(self).inv(),
            ({
                let o = old(self).state();
                let n = final(self).state();
                if has_group(o.groups, o.active_group) && 0 <= index < o.active_items().len() {
                    &&& updated
                    &&& group_map(n.groups) == group_map(o.groups).insert(
                        o.active_group,
                        o.active_items().update(index as int, SavedItemView { title: title@, content: content@ }),
                    )
                    &&& n == (AppStateView { groups: n.groups, ..o })
                } else {
                    !updated && n == o
                }
            }),
    {
        if index < 0 {
            return false;
        }
        self.app_state.update_saved_item(index as usize, title, content)
    }

    /// The save dialog's proposal for the history entry at `index`: a title generated from its
    /// first line, and its text.
    pub fn save_proposal(&self, index: i32) -> (r: Option<(String, String)>)
        ensures
            match r {
                Some(pair) => 0 <= index < self.state().history.len()
                    && pair.0@ == title_from_content(self.state().history[index as int])
                    && pair.1@ == self.state().history[index as int],
                None => !(0 <= index < self.state().history.len()),
            },
    {
        match self.get_history_item_content(index) {
            Some(content) => {
                let title = generate_title_from_content(content.as_str());
                Some((title, content))
            },
            None => None,
        }
    }
}

} // verus!
