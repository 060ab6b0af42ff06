use clip_keeper::calendar::{days_to_ymd, format_utc};
use clip_keeper::display::{generate_title_from_content, history_preview_text, initial_selection};
use clip_keeper::hotkey_logger::HotkeyLogger;
use clip_keeper::order::chars_less;
use clip_keeper::settings::normalize_combo_key;
use clip_keeper::text::{chars_of, decimal_chars, is_whitespace, push_padded, push_str, string_from_chars, to_ascii_upper};

#[test]
fn days_to_ymd_known_dates() {
    assert_eq!(days_to_ymd(0), (1970, 1, 1));
    assert_eq!(days_to_ymd(31), (1970, 2, 1));
    assert_eq!(days_to_ymd(59), (1970, 3, 1));
    assert_eq!(days_to_ymd(1095), (1972, 12, 31));
    assert_eq!(days_to_ymd(11016), (2000, 2, 29));
    assert_eq!(days_to_ymd(11017), (2000, 3, 1));
    assert_eq!(days_to_ymd(19723), (2024, 1, 1));
    assert_eq!(days_to_ymd(47541), (2100, 3, 1));
}

#[test]
fn days_to_ymd_steps_one_day() {
    assert_eq!(days_to_ymd(10956), (1999, 12, 31));
    assert_eq!(days_to_ymd(10957), (2000, 1, 1));
    assert_eq!(days_to_ymd(11015), (2000, 2, 28));
    assert_eq!(days_to_ymd(11016), (2000, 2, 29));
    assert_eq!(days_to_ymd(11017), (2000, 3, 1));
}

#[test]
fn format_utc_examples() {
    assert_eq!(format_utc(0), "1970-01-01 00:00:00 UTC");
    assert_eq!(format_utc(1725029869), "2024-08-30 14:57:49 UTC");
    assert_eq!(format_utc(951782400), "2000-02-29 00:00:00 UTC");
    assert_eq!(format_utc(4102444799), "2099-12-31 23:59:59 UTC");
}

#[test]
fn decimal_and_padding() {
    assert_eq!(decimal_chars(0), vec!['0']);
    assert_eq!(decimal_chars(907), vec!['9', '0', '7']);
    let mut s = String::from("x");
    push_padded(&mut s, 7, 3);
    assert_eq!(s, "x007");
    let mut t = String::new();
    push_padded(&mut t, 12345, 4);
    assert_eq!(t, "12345");
}

#[test]
fn string_helpers() {
    assert_eq!(chars_of("aデb"), vec!['a', 'デ', 'b']);
    assert_eq!(string_from_chars(&['x', 'y', 'z'], 2), "xy");
    let mut s = String::from("ab");
    push_str(&mut s, "cd");
    assert_eq!(s, "abcd");
    assert!(is_whitespace('\u{3000}'));
    assert!(is_whitespace('\t'));
    assert!(!is_whitespace('x'));
    assert_eq!(to_ascii_upper('q'), 'Q');
    assert_eq!(to_ascii_upper('é'), 'é');
    assert_eq!(to_ascii_upper('7'), '7');
}

#[test]
fn lexicographic_order() {
    assert!(chars_less(&['a'], &['b']));
    assert!(chars_less(&['a'], &['a', 'a']));
    assert!(!chars_less(&['a', 'a'], &['a']));
    assert!(!chars_less(&['a'], &['a']));
    assert!(chars_less(&['Z'], &['a']));
    assert!(chars_less(&['z'], &['デ']));
}

#[test]
fn history_preview_examples() {
    assert_eq!(history_preview_text("a\nb\rc"), "a b c");
    let exact: String = std::iter::repeat('y').take(120).collect();
    assert_eq!(history_preview_text(&exact), exact);
    assert_eq!(history_preview_text(""), "");
}

#[test]
fn title_examples() {
    assert_eq!(generate_title_from_content("hello\nworld"), "hello");
    assert_eq!(generate_title_from_content("abc\r\ndef"), "abc");
    assert_eq!(generate_title_from_content("abc\r"), "abc\r");
    assert_eq!(generate_title_from_content(""), "");
    assert_eq!(generate_title_from_content("\nsecond"), "");
    let thirty: String = std::iter::repeat('あ').take(30).collect();
    assert_eq!(generate_title_from_content(&thirty), thirty);
    let long = format!("{thirty}い");
    assert_eq!(generate_title_from_content(&long), format!("{thirty}..."));
}

#[test]
fn initial_selection_clamps() {
    assert_eq!(initial_selection(5, 3), 2);
    assert_eq!(initial_selection(-2, 3), 0);
    assert_eq!(initial_selection(1, 3), 1);
    assert_eq!(initial_selection(4, 0), 0);
}

#[test]
fn normalize_combo_key_examples() {
    assert_eq!(normalize_combo_key("  a"), "A");
    assert_eq!(normalize_combo_key("k9"), "K");
    assert_eq!(normalize_combo_key("7"), "7");
    assert_eq!(normalize_combo_key(""), "H");
    assert_eq!(normalize_combo_key("   "), "H");
    assert_eq!(normalize_combo_key("#x"), "H");
    assert_eq!(normalize_combo_key("\u{3000}x"), "X");
    assert_eq!(normalize_combo_key("é"), "H");
    assert_eq!(normalize_combo_key(&normalize_combo_key(" z")), "Z");
}

#[test]
fn logger_writes_only_when_enabled() {
    let mut logger = HotkeyLogger::new("log.txt".to_string());
    assert!(!logger.is_enabled());
    assert_eq!(logger.log_entry("x", 0), None);
    logger.enable();
    assert!(logger.is_enabled());
    assert_eq!(
        logger.log_entry("Shift double-tap", 1725029869),
        Some("[2024-08-30 14:57:49 UTC] Trigger: Shift double-tap\n".to_string())
    );
    logger.disable();
    assert_eq!(logger.log_entry("x", 0), None);
    logger.set_enabled(true);
    assert_eq!(logger.log_path(), "log.txt");
    let on = HotkeyLogger::new_with_enabled("p".to_string(), true);
    assert!(on.is_enabled());
}
