use klay::klc::{read_char, read_hb, st, quote_multi, CapsLockBehaviour, WinKeyLayout};
use klay::utf16::{AutoEndianReader, ByteReader};
use klay::KlayError;

fn utf16le_bytes(s: &str) -> Vec<u8> {
    let mut out = vec![0xFFu8, 0xFEu8];
    for u in s.encode_utf16() {
        out.push((u & 0xFF) as u8);
        out.push((u >> 8) as u8);
    }
    out
}

#[test]
fn bom_little_endian() {
    let rd = AutoEndianReader::new_auto_bom(ByteReader::new(vec![0xFF, 0xFE, 0x41, 0x00]));
    assert!(rd.is_little());
    assert!(!rd.is_big());
}

#[test]
fn bom_big_endian() {
    let rd = AutoEndianReader::new_auto_bom(ByteReader::new(vec![0xFE, 0xFF, 0x00, 0x41]));
    assert!(rd.is_big());
}

#[test]
fn bom_absent_defaults_to_little_and_keeps_data() {
    let mut rd = AutoEndianReader::new_auto_bom(ByteReader::new(vec![0x41, 0x00]));
    assert!(rd.is_little());
    // The non-matching leading unit stays in place as ordinary data.
    assert_eq!(rd.next_char(), Ok(Some('A')));
    assert_eq!(rd.next_char(), Ok(None));
}

#[test]
fn surrogate_pair_decodes_to_one_code_point() {
    // 0xD83D 0xDE00 little-endian: one emoji code point.
    let mut rd = AutoEndianReader::new_little(ByteReader::new(vec![0x3D, 0xD8, 0x00, 0xDE]));
    assert_eq!(rd.next_char(), Ok(Some('\u{1F600}')));
    assert_eq!(rd.next_char(), Ok(None));
}

#[test]
fn lone_high_surrogate_is_an_error() {
    let mut rd = AutoEndianReader::new_little(ByteReader::new(vec![0x3D, 0xD8]));
    assert_eq!(rd.next_char(), Err(KlayError::InvalidSurrogatePair));
}

#[test]
fn lone_low_surrogate_is_an_error() {
    let mut rd = AutoEndianReader::new_little(ByteReader::new(vec![0x00, 0xDE, 0x41, 0x00]));
    assert_eq!(rd.next_char(), Err(KlayError::InvalidSurrogatePair));
}

#[test]
fn lines_strip_terminators() {
    let bytes = utf16le_bytes("ab\r\ncd\n\r\nlast");
    let mut rd = AutoEndianReader::new_auto_bom(ByteReader::new(bytes));
    let lines = rd.utf16_lines().unwrap();
    assert_eq!(lines, vec!["ab", "cd", "", "last"]);
}

#[test]
fn read_char_field_forms() {
    assert_eq!(read_char("-1"), Ok(None));
    assert_eq!(read_char("0041"), Ok(Some('A')));
    assert_eq!(read_char("0301@"), Ok(Some('\u{0301}')));
    assert_eq!(read_char("zz"), Err(KlayError::MalformedSection));
    assert_eq!(read_char(""), Err(KlayError::MalformedSection));
    // A surrogate code point is not a character.
    assert_eq!(read_char("d800"), Err(KlayError::MalformedSection));
}

#[test]
fn read_hb_field_forms() {
    assert_eq!(read_hb("3b"), Some(0x3B));
    assert_eq!(read_hb("0"), Some(0));
    assert_eq!(read_hb("100"), None);
    assert_eq!(read_hb("g"), None);
}

#[test]
fn quote_stripping_and_adding() {
    assert_eq!(st("\"Layout name\""), "Layout name");
    assert_eq!(st("bare"), "bare");
    assert_eq!(quote_multi("Space bar"), "\"Space bar\"");
    assert_eq!(quote_multi("Esc"), "Esc");
    // Any white-space character triggers quoting, not only the space.
    assert_eq!(quote_multi("a\u{a0}b"), "\"a\u{a0}b\"");
    assert_eq!(quote_multi("a\rb"), "\"a\rb\"");
}

#[test]
fn caps_lock_values() {
    assert_eq!(CapsLockBehaviour::from_num(0), Some(CapsLockBehaviour::Never));
    assert_eq!(CapsLockBehaviour::from_num(1), Some(CapsLockBehaviour::ShiftOnCaps));
    assert_eq!(CapsLockBehaviour::from_num(4), Some(CapsLockBehaviour::ShiftOnCapsAlt));
    assert_eq!(CapsLockBehaviour::from_num(5), Some(CapsLockBehaviour::ShiftOnCapsAlways));
    assert_eq!(CapsLockBehaviour::from_num(2), None);
    assert_eq!(
        CapsLockBehaviour::ShiftOnCaps.combine(CapsLockBehaviour::ShiftOnCapsAlt),
        Some(CapsLockBehaviour::ShiftOnCapsAlways)
    );
    assert_eq!(
        CapsLockBehaviour::ShiftOnCaps.combine(CapsLockBehaviour::ShiftOnCaps),
        None
    );
}

fn sample_klc() -> String {
    let mut doc = String::new();
    doc.push_str("KBD\tsample\t\"Sample Layout\"\r\n\r\n");
    doc.push_str("COPYRIGHT\t\"(c) 2024\"\r\n\r\n");
    doc.push_str("COMPANY\t\"Nobody\"\r\n\r\n");
    doc.push_str("LOCALENAME\tda-DK\r\n\r\n");
    doc.push_str("LOCALEID\t\"00000406\"\r\n\r\n");
    doc.push_str("VERSION\t1.0\r\n\r\n");
    doc.push_str("SHIFTSTATE\r\n\r\n0\r\n1 // Shift\r\n2 // Ctrl\r\n6 // AltGr\r\n7 // Shift AltGr\r\n\r\n");
    doc.push_str("LAYOUT\t\t;an '@' indicates dead key\r\n\r\n");
    doc.push_str("10\tQ\t1\t0071\t0051\t-1\t-1\t-1\r\n");
    doc.push_str("11\tW\t1\t0077\t0057\t-1\t00e5\t00c5\r\n");
    doc.push_str("0c\tOEM_4\t0\t0301@\t-1\t-1\t-1\t-1\r\n");
    doc.push_str("\r\n\r\n");
    doc.push_str("DEADKEY\t0301\r\n\r\n");
    doc.push_str("0061\t00e1\t// a -> á\r\n");
    doc.push_str("0065\t00e9\t// e -> é\r\n");
    doc.push_str("\r\n\r\n");
    doc.push_str("KEYNAME\r\n\r\n01\tEsc\r\n0e\tBackspace\r\n\r\n");
    doc.push_str("KEYNAME_EXT\r\n\r\n54\t\"Sys Req\"\r\n\r\n");
    doc.push_str("KEYNAME_DEAD\r\n\r\n0301\t\"ACUTE ACCENT\"\r\n\r\n");
    doc.push_str("DESCRIPTIONS\r\n\r\n0409\tA sample layout\r\n\r\n");
    doc.push_str("LANGUAGENAMES\r\n\r\n0409\tDanish\r\n\r\n");
    doc.push_str("ENDKBD\r\n");
    doc
}

#[test]
fn klc_parse_reads_all_sections() {
    let bytes = utf16le_bytes(&sample_klc());
    let lay = WinKeyLayout::from_bytes(bytes).unwrap();
    assert_eq!(lay.id, "sample");
    assert_eq!(lay.name, "Sample Layout");
    assert_eq!(lay.copyright, "(c) 2024");
    assert_eq!(lay.company, "Nobody");
    assert_eq!(lay.locale_name, "da-DK");
    assert_eq!(lay.locale_id, "00000406");
    assert_eq!(lay.version, "1.0");
    assert_eq!(lay.layout.len(), 3);
    // Rows are kept sorted by scan code.
    assert_eq!(lay.layout[0].0, 0x0C);
    assert_eq!(lay.layout[1].0, 0x10);
    assert_eq!(lay.layout[2].0, 0x11);
    assert_eq!(lay.layout[1].1.virtual_key, "Q");
    assert_eq!(lay.layout[1].1.normal, Some('q'));
    assert_eq!(lay.layout[1].1.shift, Some('Q'));
    assert_eq!(lay.layout[1].1.ctrl, None);
    assert_eq!(lay.layout[0].1.normal, Some('\u{0301}'));
    assert_eq!(lay.deadkeys.len(), 1);
    assert_eq!(lay.deadkeys[0].0, '\u{0301}');
    assert_eq!(lay.deadkeys[0].1, vec![('a', '\u{e1}'), ('e', '\u{e9}')]);
    assert_eq!(lay.key_names, vec![(0x01, "Esc".to_string()), (0x0E, "Backspace".to_string())]);
    assert_eq!(lay.key_names_ext, vec![(0x54, "Sys Req".to_string())]);
    assert_eq!(lay.keynames_dead, vec![('\u{0301}', "ACUTE ACCENT".to_string())]);
    assert_eq!(lay.description, "A sample layout");
    assert_eq!(lay.language_name, "Danish");
}

#[test]
fn klc_round_trip_is_stable() {
    let bytes = utf16le_bytes(&sample_klc());
    let lay = WinKeyLayout::from_bytes(bytes).unwrap();
    let first = lay.write();
    let lay2 = WinKeyLayout::from_bytes(first.clone()).unwrap();
    let second = lay2.write();
    // Serializing the parse of a serialized document is byte-equal: the
    // writer's output is its own canonical form.
    assert_eq!(first, second);
    assert_eq!(lay2.id, "sample");
    assert_eq!(lay2.layout.len(), 3);
    assert_eq!(lay2.deadkeys[0].1, vec![('a', '\u{e1}'), ('e', '\u{e9}')]);
}

#[test]
fn klc_unknown_keyword_fails() {
    let bytes = utf16le_bytes("NONSENSE\tx\r\n");
    assert_eq!(WinKeyLayout::from_bytes(bytes).unwrap_err(), KlayError::UnknownSectionKeyword);
}

#[test]
fn klc_bad_caps_value_fails() {
    let doc = "KBD\tx\t\"X\"\r\nLAYOUT\r\n10\tQ\t9\t0071\t0051\t-1\t-1\t-1\r\nENDKBD\r\n";
    let bytes = utf16le_bytes(doc);
    assert_eq!(WinKeyLayout::from_bytes(bytes).unwrap_err(), KlayError::MalformedSection);
}

#[test]
fn klc_short_row_fails() {
    let doc = "KBD\tx\t\"X\"\r\nLAYOUT\r\n10\tQ\t1\t0071\r\nENDKBD\r\n";
    let bytes = utf16le_bytes(doc);
    assert_eq!(WinKeyLayout::from_bytes(bytes).unwrap_err(), KlayError::MalformedSection);
}

#[test]
fn klc_lines_after_endkbd_are_ignored() {
    let doc = "KBD\tx\t\"X\"\r\nENDKBD\r\nGARBAGE\tafter\r\n";
    let bytes = utf16le_bytes(doc);
    let lay = WinKeyLayout::from_bytes(bytes).unwrap();
    assert_eq!(lay.id, "x");
}

#[test]
fn klc_comments_are_stripped() {
    let doc = "KBD\tx\t\"X\"\r\nLAYOUT\r\n10\tQ\t1\t0071\t0051\t-1\t-1\t-1\t// trailing comment\r\nENDKBD\r\n";
    let bytes = utf16le_bytes(doc);
    let lay = WinKeyLayout::from_bytes(bytes).unwrap();
    assert_eq!(lay.layout.len(), 1);
    assert_eq!(lay.layout[0].1.normal, Some('q'));
}
