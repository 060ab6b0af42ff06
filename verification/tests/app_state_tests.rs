use clip_keeper::app_state::AppState;
use clip_keeper::history::MAX_CLIPBOARD_ITEMS;
use clip_keeper::saved::{SavedGroup, SavedItem};

fn s(x: &str) -> String {
    x.to_string()
}

fn group(name: &str, items: &[(&str, &str)]) -> SavedGroup {
    SavedGroup {
        name: s(name),
        items: items.iter().map(|(t, c)| SavedItem { title: s(t), content: s(c) }).collect(),
    }
}

#[test]
fn new_state_is_empty_with_default_group() {
    let st = AppState::new();
    assert!(st.history_snapshot().is_empty());
    assert!(st.used_items_snapshot().is_empty());
    assert_eq!(st.selected_index(), 0);
    assert_eq!(st.active_group(), "デフォルト");
    assert_eq!(st.group_names(), vec![s("デフォルト")]);
    assert_eq!(st.active_group_index(), 0);
}

#[test]
fn push_adds_newest_first_and_skips_repeats() {
    let mut st = AppState::new();
    assert!(st.push_clipboard(s("a")));
    assert!(!st.push_clipboard(s("a")));
    assert!(st.push_clipboard(s("b")));
    assert_eq!(st.history_snapshot(), vec![s("b"), s("a")]);
    // already in the history: skipped, position unchanged
    assert!(!st.push_clipboard(s("a")));
    assert_eq!(st.history_snapshot(), vec![s("b"), s("a")]);
    // the last-seen text is now "a", so "b" is not a repeat of it but is in the history
    assert!(!st.push_clipboard(s("b")));
    assert_eq!(st.history_snapshot(), vec![s("b"), s("a")]);
}

#[test]
fn push_result_is_whether_text_is_new() {
    let mut st = AppState::new();
    st.restore_history(vec![s("x"), s("y")]);
    assert!(!st.push_clipboard(s("x")));
    assert!(!st.push_clipboard(s("y")));
    assert!(st.push_clipboard(s("z")));
    assert_eq!(st.history_snapshot(), vec![s("z"), s("x"), s("y")]);
    st.restore_history(Vec::new());
    assert!(st.push_clipboard(s("x")));
}

#[test]
fn push_accepts_empty_text() {
    let mut st = AppState::new();
    assert!(st.push_clipboard(s("")));
    assert_eq!(st.history_snapshot(), vec![s("")]);
}

#[test]
fn history_is_capped_and_dropped_entries_lose_used_mark() {
    let mut st = AppState::new();
    for i in 0..MAX_CLIPBOARD_ITEMS {
        assert!(st.push_clipboard(format!("t{i}")));
    }
    st.mark_as_used("t0");
    st.mark_as_used("t1");
    assert_eq!(st.history_snapshot().len(), MAX_CLIPBOARD_ITEMS);
    assert!(st.push_clipboard(s("new")));
    let h = st.history_snapshot();
    assert_eq!(h.len(), MAX_CLIPBOARD_ITEMS);
    assert_eq!(h[0], "new");
    assert_eq!(h[MAX_CLIPBOARD_ITEMS - 1], "t1");
    assert!(!h.contains(&s("t0")));
    let used = st.used_items_snapshot();
    assert_eq!(used, vec![s("t1")]);
}

#[test]
fn history_limit_is_fifty() {
    assert_eq!(MAX_CLIPBOARD_ITEMS, 50);
}

#[test]
fn restore_history_skips_empty_and_duplicates() {
    let mut st = AppState::new();
    st.restore_history(vec![s("a"), s(""), s("b"), s("a"), s("c")]);
    assert_eq!(st.history_snapshot(), vec![s("a"), s("b"), s("c")]);
    // the newest restored entry is the last-seen clipboard text
    assert!(!st.push_clipboard(s("a")));
    assert!(st.push_clipboard(s("d")));
}

#[test]
fn restore_history_caps_length() {
    let mut st = AppState::new();
    let items: Vec<String> = (0..70).map(|i| format!("x{i}")).collect();
    st.restore_history(items.clone());
    assert_eq!(st.history_snapshot(), items[..MAX_CLIPBOARD_ITEMS].to_vec());
}

#[test]
fn restore_empty_history_clears_last_seen() {
    let mut st = AppState::new();
    st.push_clipboard(s("a"));
    st.restore_history(vec![]);
    assert!(st.history_snapshot().is_empty());
    assert!(st.push_clipboard(s("a")));
}

#[test]
fn history_snapshot_round_trip() {
    let mut st = AppState::new();
    for t in ["one", "two", "three"] {
        st.push_clipboard(s(t));
    }
    let snap = st.history_snapshot();
    let mut other = AppState::new();
    other.restore_history(snap.clone());
    assert_eq!(other.history_snapshot(), snap);
}

#[test]
fn used_items_round_trip() {
    let mut st = AppState::new();
    st.mark_as_used("x");
    st.mark_as_used("y");
    st.mark_as_used("x");
    let mut used = st.used_items_snapshot();
    used.sort();
    assert_eq!(used, vec![s("x"), s("y")]);
    let mut other = AppState::new();
    other.restore_used_items(vec![s("p"), s("p"), s("q")]);
    let mut u = other.used_items_snapshot();
    u.sort();
    assert_eq!(u, vec![s("p"), s("q")]);
}

#[test]
fn history_item_access() {
    let mut st = AppState::new();
    st.push_clipboard(s("a"));
    st.push_clipboard(s("b"));
    st.push_clipboard(s("c"));
    assert_eq!(st.history_item_at(0), Some(s("c")));
    assert_eq!(st.history_item_at(2), Some(s("a")));
    assert_eq!(st.history_item_at(3), None);
    assert_eq!(st.history_items_up_to(1), vec![s("c"), s("b")]);
    assert_eq!(st.history_items_up_to(10), vec![s("c"), s("b"), s("a")]);
    assert_eq!(st.history_items_up_to(0), vec![s("c")]);
    assert_eq!(st.history_items_up_to(usize::MAX), vec![s("c"), s("b"), s("a")]);
}

#[test]
fn move_to_front_moves_and_updates_last_seen() {
    let mut st = AppState::new();
    st.push_clipboard(s("a"));
    st.push_clipboard(s("b"));
    st.push_clipboard(s("c"));
    assert!(!st.move_to_front(0));
    assert!(!st.move_to_front(3));
    assert!(st.move_to_front(2));
    assert_eq!(st.history_snapshot(), vec![s("a"), s("c"), s("b")]);
    // "a" is now the last-seen text
    assert!(!st.push_clipboard(s("a")));
}

#[test]
fn pending_paste_is_taken_once() {
    let mut st = AppState::new();
    assert_eq!(st.take_pending_paste(), None);
    st.set_pending_paste(s("x"));
    assert_eq!(st.take_pending_paste(), Some(s("x")));
    assert_eq!(st.take_pending_paste(), None);
}

#[test]
fn selected_index_is_remembered() {
    let mut st = AppState::new();
    st.set_selected_index(7);
    assert_eq!(st.selected_index(), 7);
    st.set_selected_index(-3);
    assert_eq!(st.selected_index(), -3);
}

#[test]
fn groups_are_kept_in_name_order() {
    let mut st = AppState::new();
    st.add_group(s("b"));
    st.add_group(s("a"));
    st.add_group(s("b"));
    assert_eq!(st.group_names(), vec![s("a"), s("b"), s("デフォルト")]);
    st.set_active_group(s("b"));
    assert_eq!(st.active_group(), "b");
    assert_eq!(st.active_group_index(), 1);
    st.set_active_group(s("Z"));
    assert_eq!(st.group_names(), vec![s("Z"), s("a"), s("b"), s("デフォルト")]);
    assert_eq!(st.active_group_index(), 0);
}

#[test]
fn saved_items_add_remove_update() {
    let mut st = AppState::new();
    st.add_saved_item("デフォルト", s("t1"), s("c1"));
    st.add_saved_item("デフォルト", s("t2"), s("c2"));
    st.add_saved_item("other", s("o1"), s("oc1"));
    assert_eq!(st.group_names(), vec![s("other"), s("デフォルト")]);
    assert_eq!(st.saved_item_content_at(1), Some(s("c2")));
    assert_eq!(st.saved_item_content_at(2), None);
    let it = st.saved_item_at(0).unwrap();
    assert_eq!((it.title.as_str(), it.content.as_str()), ("t1", "c1"));
    assert!(st.update_saved_item(1, s("T2"), s("C2")));
    assert!(!st.update_saved_item(5, s("x"), s("y")));
    assert_eq!(st.saved_item_content_at(1), Some(s("C2")));
    assert!(st.remove_saved_item(0));
    assert!(!st.remove_saved_item(3));
    assert_eq!(st.saved_item_content_at(0), Some(s("C2")));
    let rows = st.saved_items_model();
    assert_eq!(rows.len(), 1);
    assert_eq!(rows[0].title, "T2");
    st.set_active_group(s("other"));
    assert_eq!(st.saved_item_content_at(0), Some(s("oc1")));
}

#[test]
fn saved_items_when_active_group_missing() {
    let mut st = AppState::new();
    st.restore_saved_groups(vec![group("a", &[("t", "c")])], None);
    // the active group is still the default group, which is recreated empty
    assert_eq!(st.active_group(), "デフォルト");
    assert_eq!(st.saved_item_content_at(0), None);
    assert!(!st.remove_saved_item(0));
}

#[test]
fn restore_saved_groups_last_wins_and_default_added() {
    let mut st = AppState::new();
    st.restore_saved_groups(
        vec![group("x", &[("1", "one")]), group("b", &[]), group("x", &[("2", "two")])],
        Some(s("x")),
    );
    assert_eq!(st.group_names(), vec![s("b"), s("x"), s("デフォルト")]);
    assert_eq!(st.active_group(), "x");
    assert_eq!(st.saved_item_content_at(0), Some(s("two")));
    assert_eq!(st.saved_item_content_at(1), None);
    st.restore_saved_groups(vec![group("x", &[])], Some(s("missing")));
    assert_eq!(st.active_group(), "デフォルト");
    assert_eq!(st.group_names(), vec![s("x"), s("デフォルト")]);
}

#[test]
fn saved_groups_snapshot_round_trip() {
    let mut st = AppState::new();
    st.add_saved_item("g", s("t"), s("c"));
    st.add_saved_item("デフォルト", s("d"), s("dc"));
    st.set_active_group(s("g"));
    let snap = st.saved_groups_snapshot();
    assert_eq!(snap.len(), 2);
    assert_eq!(snap[0].name, "g");
    let mut other = AppState::new();
    other.restore_saved_groups(snap, Some(st.active_group().to_string()));
    assert_eq!(other.group_names(), st.group_names());
    assert_eq!(other.active_group(), "g");
    assert_eq!(other.saved_item_content_at(0), Some(s("c")));
}

#[test]
fn history_model_previews_and_used_flags() {
    let mut st = AppState::new();
    st.push_clipboard(s("a\r\nb"));
    let long: String = std::iter::repeat('x').take(121).collect();
    st.push_clipboard(long.clone());
    st.mark_as_used("a\r\nb");
    let rows = st.history_model();
    assert_eq!(rows.len(), 2);
    let expected: String = std::iter::repeat('x').take(120).chain(std::iter::once('…')).collect();
    assert_eq!(rows[0].text, expected);
    assert!(!rows[0].used);
    assert_eq!(rows[1].text, "a  b");
    assert!(rows[1].used);
}
