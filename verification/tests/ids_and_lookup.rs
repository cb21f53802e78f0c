use deadline::display::{more_note, status_column, tone, Tone};
use deadline::lookup::{find_by_id, Lookup};
use deadline::numerals::{deleted_tag, id_label, id_tag, short_id_of};
use deadline::text::deletion_confirmed;

#[test]
fn id_labels_are_six_upper_case_hex_digits() {
    assert_eq!(id_label(0xABC), "000ABC");
    assert_eq!(id_label(0), "000000");
    assert_eq!(id_label(0xFFFFFF), "FFFFFF");
    assert_eq!(id_label(0x1234567), "1234567");
    assert_eq!(id_label(0xABC), format!("{:0>6X}", 0xABC));
    assert_eq!(id_tag(0x12AB), "[0012AB] ");
}

#[test]
fn deleted_tag_fills_on_the_right() {
    assert_eq!(deleted_tag(0xABC), "[ABC000]");
    assert_eq!(deleted_tag(0xABC), format!("[{:0<6X}]", 0xABC));
    assert_eq!(deleted_tag(0x123456), "[123456]");
}

#[test]
fn short_ids_keep_the_low_24_bits() {
    assert_eq!(short_id_of(0x1234_5678_9ABC_DEF0), 0xBCDEF0);
    assert_eq!(short_id_of(0xFFFFFF), 0xFFFFFF);
    assert_eq!(short_id_of(0x1000000), 0);
}

#[test]
fn lookup_by_unique_prefix() {
    let ids = vec![0xABC123, 0xABD456, 0x00F00D];
    assert_eq!(find_by_id("abc", &ids), Lookup::Found(0));
    assert_eq!(find_by_id("ABC123", &ids), Lookup::Found(0));
    assert_eq!(find_by_id("00f", &ids), Lookup::Found(2));
    assert_eq!(find_by_id("AB", &ids), Lookup::Ambiguous(2));
    assert_eq!(find_by_id("", &ids), Lookup::Ambiguous(3));
    assert_eq!(find_by_id("zz", &ids), Lookup::Missing);
    assert_eq!(find_by_id("ABC1234", &ids), Lookup::Missing);
    assert_eq!(find_by_id("F00D", &ids), Lookup::Missing);
    assert_eq!(find_by_id("abc", &vec![]), Lookup::Missing);
}

#[test]
fn lookup_upper_cases_with_unicode_rules() {
    // U+FB00 (the ligature "ff") upper-cases to "FF"
    assert_eq!(find_by_id("\u{FB00}", &vec![0xFF0000, 0x000001]), Lookup::Found(0));
}

#[test]
fn status_column_is_five_wide() {
    assert_eq!(status_column(-3, false), "  -3d");
    assert_eq!(status_column(5, false), "   5d");
    assert_eq!(status_column(12, true), "✓ 12d");
    assert_eq!(status_column(1234, false), "1234d");
    assert_eq!(status_column(-100, true), "✓-100d");
    assert_eq!(status_column(7, false), format!("{:>5}", format!("{:>3}d", 7)));
}

#[test]
fn tones_follow_the_days_left() {
    assert_eq!(tone(-5, false), Tone::Urgent);
    assert_eq!(tone(-1, false), Tone::Urgent);
    assert_eq!(tone(0, false), Tone::Soon);
    assert_eq!(tone(1, false), Tone::Soon);
    assert_eq!(tone(2, false), Tone::Soon);
    assert_eq!(tone(4, false), Tone::Soon);
    assert_eq!(tone(5, false), Tone::Later);
    assert_eq!(tone(0, true), Tone::Done);
}

#[test]
fn closing_line_of_a_cut_listing() {
    assert_eq!(more_note(3, "item"), "+3 more items");
    assert_eq!(more_note(1, "event"), "+1 more event");
    assert_eq!(more_note(10, "event"), "+10 more events");
}

#[test]
fn deletion_needs_a_y() {
    assert!(deletion_confirmed("y\n"));
    assert!(deletion_confirmed("Y"));
    assert!(deletion_confirmed("  y  "));
    assert!(!deletion_confirmed("yes"));
    assert!(!deletion_confirmed("n"));
    assert!(!deletion_confirmed(""));
}

#[test]
fn trimming_as_std_trims() {
    for s in ["  y  ", "\u{3000}y\t", "\u{85}\u{a0}x y\u{2028}", "", "   ", "\u{200b}y", "a\u{202f}"] {
        let chars: Vec<char> = s.chars().collect();
        let trimmed: String = deadline::text::trim_chars(&chars).into_iter().collect();
        assert_eq!(trimmed, s.trim());
    }
    assert!(deletion_confirmed("\u{3000}Y\r\n"));
    assert!(!deletion_confirmed("\u{200b}y"));
}
