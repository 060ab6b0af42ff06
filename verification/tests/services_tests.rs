use clip_keeper::app_state::AppState;
use clip_keeper::saved::{SavedGroup, SavedItem};
use clip_keeper::clipboard_service::{join_strings, ClipboardService, PersistedClipboardHistory, HISTORY_FORMAT_VERSION};
use clip_keeper::contexts::{CompositionRoot, ServiceContext, StateContext};
use clip_keeper::settings::{PersistedSettings, SettingsService, SettingsState, SETTINGS_FORMAT_VERSION};

fn s(x: &str) -> String {
    x.to_string()
}

fn service_with(items: &[&str]) -> ClipboardService {
    let mut st = AppState::new();
    for t in items.iter().rev() {
        st.push_clipboard(s(t));
    }
    ClipboardService::new(st)
}

#[test]
fn composition_root_builds_initial_services() {
    let ctx = CompositionRoot::build();
    assert_eq!(ctx.clipboard_service.selected_index(), 0);
    assert_eq!(ctx.clipboard_service.group_names(), vec![s("デフォルト")]);
    let hk = ctx.settings_service.current_hotkey_settings();
    assert_eq!(hk.hotkey_mode, 0);
    assert!(hk.combo_ctrl_required);
    assert!(!hk.combo_shift_required);
    assert_eq!(hk.combo_key, "H");
    let sc = StateContext::new();
    assert_eq!(sc.settings_state.hotkey_combo_key, "H");
    let svc = ServiceContext::new(sc);
    assert_eq!(svc.clipboard_service.active_group_index(), 0);
}

#[test]
fn paste_from_history_index() {
    let mut svc = service_with(&["c", "b", "a"]);
    assert_eq!(svc.prepare_paste_from_history_index(-1), None);
    assert_eq!(svc.prepare_paste_from_history_index(3), None);
    assert!(!svc.trigger_pending_paste());
    assert_eq!(svc.prepare_paste_from_history_index(1), Some(s("b")));
    assert_eq!(svc.selected_index(), 1);
    assert!(svc.trigger_pending_paste());
    assert!(!svc.trigger_pending_paste());
}

#[test]
fn history_content_by_index() {
    let svc = service_with(&["c", "b"]);
    assert_eq!(svc.get_history_item_content(0), Some(s("c")));
    assert_eq!(svc.get_history_item_content(-1), None);
    assert_eq!(svc.get_history_item_content(2), None);
}

#[test]
fn bulk_paste_joins_prefix() {
    let mut svc = service_with(&["c", "b", "a"]);
    assert_eq!(svc.prepare_bulk_paste(1, "\t"), Some(s("c\tb")));
    assert!(svc.trigger_pending_paste());
    assert_eq!(svc.prepare_bulk_paste(9, "\n"), Some(s("c\nb\na")));
    assert_eq!(svc.prepare_bulk_paste(0, ""), Some(s("c")));
    assert_eq!(svc.prepare_bulk_paste(-1, ""), None);
    let mut empty = service_with(&[]);
    assert_eq!(empty.prepare_bulk_paste(0, ""), None);
    assert!(!empty.trigger_pending_paste());
}

#[test]
fn join_strings_examples() {
    assert_eq!(join_strings(&vec![], ","), "");
    assert_eq!(join_strings(&vec![s("a")], ","), "a");
    assert_eq!(join_strings(&vec![s("a"), s("b"), s("c")], ", "), "a, b, c");
}

#[test]
fn push_and_move_through_service() {
    let mut svc = service_with(&[]);
    assert!(svc.push_clipboard_text(s("x")));
    assert!(svc.push_clipboard_text(s("y")));
    assert!(!svc.push_clipboard_text(s("y")));
    assert!(!svc.move_history_to_front(0));
    assert!(!svc.move_history_to_front(-4));
    assert!(svc.move_history_to_front(1));
    assert_eq!(svc.get_history_item_content(0), Some(s("x")));
    let rows = svc.history_model();
    assert_eq!(rows.len(), 2);
}

#[test]
fn saved_items_through_service() {
    let mut svc = service_with(&[]);
    svc.add_group(s("work"));
    svc.add_saved_item("work", s("t"), s("c"));
    assert_eq!(svc.group_names(), vec![s("work"), s("デフォルト")]);
    assert_eq!(svc.active_group_index(), 1);
    assert!(svc.switch_group(0));
    assert_eq!(svc.active_group_index(), 0);
    assert!(!svc.switch_group(2));
    assert!(!svc.switch_group(-1));
    assert_eq!(svc.get_saved_item(0), Some((s("t"), s("c"))));
    assert_eq!(svc.get_saved_item(-1), None);
    assert_eq!(svc.prepare_paste_from_saved_index(0), Some(s("c")));
    assert_eq!(svc.prepare_paste_from_saved_index(1), None);
    assert!(svc.trigger_pending_paste());
    assert!(svc.update_saved_item(0, s("T"), s("C")));
    assert!(!svc.update_saved_item(-1, s("T"), s("C")));
    assert_eq!(svc.saved_items_model()[0].content, "C");
    assert!(!svc.remove_saved_item(-1));
    assert!(svc.remove_saved_item(0));
    assert!(svc.saved_items_model().is_empty());
    svc.set_active_group(s("new"));
    assert_eq!(svc.group_names(), vec![s("new"), s("work"), s("デフォルト")]);
}

#[test]
fn save_to_group_creates_group_and_appends() {
    let mut svc = service_with(&[]);
    svc.save_to_group(s("notes"), s("a"), s("first"));
    svc.save_to_group(s("notes"), s("b"), s("second"));
    assert_eq!(svc.group_names(), vec![s("notes"), s("デフォルト")]);
    assert!(svc.switch_group(0));
    assert_eq!(svc.get_saved_item(0), Some((s("a"), s("first"))));
    assert_eq!(svc.get_saved_item(1), Some((s("b"), s("second"))));
    assert_eq!(svc.get_saved_item(2), None);
}

#[test]
fn save_proposal_uses_first_line() {
    let svc = service_with(&["first line\nsecond"]);
    assert_eq!(svc.save_proposal(0), Some((s("first line"), s("first line\nsecond"))));
    assert_eq!(svc.save_proposal(1), None);
}

#[test]
fn persisted_history_round_trip() {
    let mut svc = service_with(&["c", "b", "a"]);
    svc.add_saved_item("g", s("t"), s("c"));
    svc.set_active_group(s("g"));
    svc.prepare_paste_from_history_index(2);
    let p = svc.persisted_snapshot();
    assert_eq!(p.version, HISTORY_FORMAT_VERSION);
    assert!(p.saved_items.is_empty());
    assert_eq!(p.items, vec![s("c"), s("b"), s("a")]);
    assert_eq!(p.active_group, Some(s("g")));
    let mut other = service_with(&[]);
    other.load_persisted(p);
    assert_eq!(other.get_history_item_content(2), Some(s("a")));
    assert_eq!(other.selected_index(), 2);
    assert_eq!(other.group_names(), vec![s("g"), s("デフォルト")]);
    assert_eq!(other.get_saved_item(0), Some((s("t"), s("c"))));
}

#[test]
fn persisted_history_older_format() {
    let p = PersistedClipboardHistory {
        version: 1,
        items: vec![s("x")],
        selected_index: 0,
        saved_items: vec![SavedItem { title: s("old"), content: s("oc") }],
        saved_groups: vec![],
        active_group: None,
    };
    let mut svc = service_with(&[]);
    svc.set_active_group(s("zzz"));
    svc.load_persisted(p);
    assert_eq!(svc.group_names(), vec![s("デフォルト")]);
    assert!(svc.switch_group(0));
    assert_eq!(svc.get_saved_item(0), Some((s("old"), s("oc"))));
    let none = PersistedClipboardHistory {
        version: 1,
        items: vec![],
        selected_index: 4,
        saved_items: vec![],
        saved_groups: vec![],
        active_group: None,
    };
    let mut keep = service_with(&["k"]);
    keep.add_group(s("kept"));
    keep.load_persisted(none);
    assert_eq!(keep.group_names(), vec![s("kept"), s("デフォルト")]);
    assert_eq!(keep.get_history_item_content(0), None);
    assert_eq!(keep.selected_index(), 4);
    let groups = PersistedClipboardHistory {
        version: 1,
        items: vec![],
        selected_index: 0,
        saved_items: vec![SavedItem { title: s("ignored"), content: s("i") }],
        saved_groups: vec![SavedGroup { name: s("a"), items: vec![] }],
        active_group: Some(s("a")),
    };
    let mut g = service_with(&[]);
    g.load_persisted(groups);
    assert_eq!(g.group_names(), vec![s("a"), s("デフォルト")]);
    assert_eq!(g.active_group_index(), 0);
    assert_eq!(g.get_saved_item(0), None);
}

#[test]
fn settings_updates_are_normalised() {
    let mut svc = SettingsService::new(SettingsState::default());
    svc.set_hotkey_mode(5);
    assert_eq!(svc.current_hotkey_settings().hotkey_mode, 2);
    svc.set_hotkey_mode(-1);
    assert_eq!(svc.current_hotkey_settings().hotkey_mode, 0);
    svc.set_hotkey_mode(1);
    assert_eq!(svc.current_hotkey_settings().hotkey_mode, 1);
    svc.set_combo_key(s(" q"));
    assert_eq!(svc.current_hotkey_settings().combo_key, "Q");
    svc.set_combo_ctrl_required(false);
    svc.set_combo_shift_required(true);
    let hk = svc.current_hotkey_settings();
    assert!(!hk.combo_ctrl_required);
    assert!(hk.combo_shift_required);
}

fn persisted(mode: i32, ctrl: Option<bool>, shift: Option<bool>, key: &str) -> PersistedSettings {
    PersistedSettings {
        version: 1,
        hotkey_mode: mode,
        hotkey_combo_ctrl_required: true,
        hotkey_combo_shift_required: true,
        hotkey_combo_key: s(key),
        hotkey_ctrl_double_tap_enabled: ctrl,
        hotkey_shift_double_tap_enabled: shift,
    }
}

#[test]
fn settings_migration() {
    let mut svc = SettingsService::new(SettingsState::default());
    svc.load_persisted(persisted(0, Some(true), None, "j"));
    assert_eq!(svc.current_hotkey_settings().hotkey_mode, 1);
    assert_eq!(svc.current_hotkey_settings().combo_key, "J");
    assert!(svc.current_hotkey_settings().combo_shift_required);
    svc.load_persisted(persisted(0, Some(false), Some(true), ""));
    assert_eq!(svc.current_hotkey_settings().hotkey_mode, 0);
    assert_eq!(svc.current_hotkey_settings().combo_key, "H");
    svc.load_persisted(persisted(2, Some(true), None, "x"));
    assert_eq!(svc.current_hotkey_settings().hotkey_mode, 2);
}

#[test]
fn settings_load_keeps_mode_in_range() {
    let mut svc = SettingsService::new(SettingsState::default());
    svc.load_persisted(persisted(7, None, None, "x"));
    assert_eq!(svc.current_hotkey_settings().hotkey_mode, 2);
    svc.load_persisted(persisted(-1, None, None, "x"));
    assert_eq!(svc.current_hotkey_settings().hotkey_mode, 0);
    svc.load_persisted(persisted(1, None, None, "x"));
    assert_eq!(svc.current_hotkey_settings().hotkey_mode, 1);
}

#[test]
fn settings_round_trip() {
    let mut svc = SettingsService::new(SettingsState::default());
    svc.set_hotkey_mode(2);
    svc.set_combo_key(s("m"));
    svc.set_combo_shift_required(true);
    let p = svc.persisted_snapshot();
    assert_eq!(p.version, SETTINGS_FORMAT_VERSION);
    assert_eq!(p.hotkey_ctrl_double_tap_enabled, None);
    let mut other = SettingsService::new(SettingsState::default());
    other.load_persisted(p);
    let a = svc.current_hotkey_settings();
    let b = other.current_hotkey_settings();
    assert_eq!((a.hotkey_mode, a.combo_ctrl_required, a.combo_shift_required, a.combo_key),
               (b.hotkey_mode, b.combo_ctrl_required, b.combo_shift_required, b.combo_key));
}
