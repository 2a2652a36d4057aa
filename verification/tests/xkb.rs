use klay::convert::{
    convert_to_xkb, default_keys, linux_to_win, resolve_defaults, split_to_file_partial,
    win_to_linux,
};
use klay::klc::{CapsLockBehaviour, Key as WinKey, WinKeyLayout};
use klay::linux::{
    char_to_name, inherit_token, name_to_char, Character, Key, Layout, Output, PartialXkbSymbols,
};
use klay::names::BiMap;
use klay::KlayError;

fn names() -> BiMap {
    BiMap::standard()
}

fn lines_of(doc: &str) -> Vec<String> {
    doc.lines().map(|l| l.to_string()).collect()
}

fn sample_xkb() -> String {
    let mut doc = String::new();
    doc.push_str("// a comment\n");
    doc.push_str("default partial alphanumeric_keys\n");
    doc.push_str("xkb_symbols \"basic\" {\n");
    doc.push_str(&format!("    {} \"dk(extras)\"\n", inherit_token()));
    doc.push_str("    name[Group1]=\"Test Layout\";\n");
    doc.push_str("    key <AD01> { [ q, Q ] };\n");
    doc.push_str("    key <AD02> { [ w, W, aring, Aring ] };\n");
    doc.push_str("};\n");
    doc.push_str("\n");
    doc.push_str("partial alphanumeric_keys\n");
    doc.push_str("xkb_symbols \"extra\" {\n");
    doc.push_str("    key <AC01> { [ a, A, dead_acute ] };\n");
    doc.push_str("};\n");
    doc
}

#[test]
fn xkb_parse_reads_blocks() {
    let nm = names();
    let lay = Layout::from_lines(&nm, &lines_of(&sample_xkb())).unwrap();
    assert_eq!(lay.default_partial.name, "basic");
    assert_eq!(lay.default_partial.inherits, Some("dk(extras)".to_string()));
    assert_eq!(lay.default_partial.name_group1, Some("Test Layout".to_string()));
    assert_eq!(lay.default_partial.keys.len(), 2);
    assert_eq!(lay.default_partial.keys[0].0, Key::AD01);
    assert_eq!(lay.default_partial.keys[0].1.normal, Character::Char('q'));
    assert_eq!(lay.default_partial.keys[0].1.shift, Character::Char('Q'));
    assert_eq!(lay.default_partial.keys[0].1.altgr, Character::Char('\0'));
    assert_eq!(lay.default_partial.keys[1].1.altgr, Character::Char('\u{e5}'));
    assert_eq!(lay.partials.len(), 1);
    assert_eq!(lay.partials[0].name, "extra");
    assert_eq!(
        lay.partials[0].keys[0].1.altgr,
        Character::Dead("acute".to_string())
    );
}

#[test]
fn xkb_round_trip_keeps_keys_and_slots() {
    let nm = names();
    let lay = Layout::from_lines(&nm, &lines_of(&sample_xkb())).unwrap();
    let text = lay.write(&nm);
    let lay2 = Layout::from_lines(&nm, &lines_of(&text)).unwrap();
    assert_eq!(lay2.default_partial.name, lay.default_partial.name);
    assert_eq!(lay2.default_partial.inherits, lay.default_partial.inherits);
    assert_eq!(lay2.default_partial.name_group1, lay.default_partial.name_group1);
    assert_eq!(lay2.default_partial.keys, lay.default_partial.keys);
    assert_eq!(lay2.partials.len(), 1);
    assert_eq!(lay2.partials[0].keys, lay.partials[0].keys);
    // A second round trip is byte-stable.
    assert_eq!(lay2.write(&nm), text);
}

#[test]
fn xkb_duplicate_default_block_fails() {
    let nm = names();
    let doc = "default partial alphanumeric_keys\nxkb_symbols \"a\" {\n};\n\
               default partial alphanumeric_keys\nxkb_symbols \"b\" {\n};\n";
    assert_eq!(
        Layout::from_lines(&nm, &lines_of(doc)).unwrap_err(),
        KlayError::DuplicateDefaultBlock
    );
}

#[test]
fn xkb_missing_default_block_fails() {
    let nm = names();
    let doc = "partial alphanumeric_keys\nxkb_symbols \"a\" {\n};\n";
    assert_eq!(Layout::from_lines(&nm, &lines_of(doc)).unwrap_err(), KlayError::MalformedSection);
}

#[test]
fn xkb_unknown_symbol_in_key_line_fails() {
    let nm = names();
    let doc = "default partial alphanumeric_keys\nxkb_symbols \"a\" {\n\
               key <AD01> { [ notasymbol ] };\n};\n";
    assert_eq!(Layout::from_lines(&nm, &lines_of(doc)).unwrap_err(), KlayError::MalformedSection);
}

#[test]
fn xkb_unrecognized_body_lines_are_ignored() {
    let nm = names();
    let doc = "default partial alphanumeric_keys\nxkb_symbols \"a\" {\n\
               modifier_map Shift { Shift_L };\n};\n";
    let lay = Layout::from_lines(&nm, &lines_of(doc)).unwrap();
    assert_eq!(lay.default_partial.keys.len(), 0);
}

#[test]
fn symbolic_names_round_trip() {
    let nm = names();
    assert_eq!(char_to_name(&nm, 'a'), "a");
    assert_eq!(char_to_name(&nm, ' '), "space");
    assert_eq!(char_to_name(&nm, '\u{e5}'), "aring");
    assert_eq!(char_to_name(&nm, '\0'), "NoSymbol");
    // A code point with no table name falls back to the numeric form.
    assert_eq!(char_to_name(&nm, '\u{2603}'), "U2603");
    assert_eq!(name_to_char(&nm, "space"), Some(' '));
    assert_eq!(name_to_char(&nm, "U2603"), Some('\u{2603}'));
    assert_eq!(name_to_char(&nm, "nosuchname"), None);
    assert_eq!(name_to_char(&nm, char_to_name(&nm, '\u{1F600}').as_str()), Some('\u{1F600}'));
}

#[test]
fn scan_code_table_round_trips() {
    assert_eq!(win_to_linux(0x10), Some(Key::AD01));
    assert_eq!(win_to_linux(0x29), Some(Key::TLDE));
    assert_eq!(win_to_linux(0x01), None);
    assert_eq!(linux_to_win(Key::AD01), 0x10);
    assert_eq!(linux_to_win(Key::LSGT), 0x56);
    for code in 0u8..=255 {
        if let Some(k) = win_to_linux(code) {
            assert_eq!(linux_to_win(k), code);
        }
    }
}

#[test]
fn split_reference_forms() {
    let full: Vec<char> = "dk(basic)".chars().collect();
    let (f, p) = split_to_file_partial(&full).unwrap();
    assert_eq!(f.iter().collect::<String>(), "dk");
    assert_eq!(p.iter().collect::<String>(), "basic");
    let bare: Vec<char> = "dk".chars().collect();
    let (f, p) = split_to_file_partial(&bare).unwrap();
    assert_eq!(f.iter().collect::<String>(), "dk");
    assert_eq!(p.iter().collect::<String>(), "basic");
    let bad: Vec<char> = "dk(".chars().collect();
    assert_eq!(split_to_file_partial(&bad), Err(KlayError::MalformedSection));
}

fn base_layout_files(nm: &BiMap) -> Vec<(String, Layout)> {
    let doc = "default partial alphanumeric_keys\nxkb_symbols \"basic\" {\n\
               key <AD01> { [ q, Q ] };\nkey <AD02> { [ w, W ] };\n};\n";
    let lay = Layout::from_lines(nm, &lines_of(doc)).unwrap();
    vec![("dk".to_string(), lay)]
}

#[test]
fn default_keys_resolves_reference() {
    let nm = names();
    let files = base_layout_files(&nm);
    let spec: Vec<char> = "dk(basic)".chars().collect();
    let keys = default_keys(&files, &spec, files.len() + 1).unwrap();
    assert_eq!(keys.len(), 2);
    assert_eq!(keys[0].0, Key::AD01);
    assert_eq!(keys[0].1.normal, Character::Char('q'));
    let same = resolve_defaults(&files, &spec).unwrap();
    assert_eq!(same, keys);
}

#[test]
fn overlay_merges_slots_with_the_base() {
    let nm = names();
    // The base block binds AD01 to (q, Q); an inheriting block binds
    // only the first slot. The resolved key keeps the explicit slot and
    // inherits the rest.
    let doc = format!(
        "default partial alphanumeric_keys\nxkb_symbols \"basic\" {{\n\
         key <AD01> {{ [ q, Q ] }};\n}};\n\
         partial alphanumeric_keys\nxkb_symbols \"alt\" {{\n\
         {} \"dk(basic)\"\nkey <AD01> {{ [ x ] }};\n}};\n",
        inherit_token()
    );
    let lay = Layout::from_lines(&nm, &lines_of(&doc)).unwrap();
    let files = vec![("dk".to_string(), lay)];
    let spec: Vec<char> = "dk(alt)".chars().collect();
    let keys = resolve_defaults(&files, &spec).unwrap();
    assert_eq!(keys.len(), 1);
    assert_eq!(keys[0].0, Key::AD01);
    assert_eq!(keys[0].1.normal, Character::Char('x'));
    assert_eq!(keys[0].1.shift, Character::Char('Q'));
}

#[test]
fn acyclic_chain_through_one_file_resolves() {
    let nm = names();
    // Three blocks chained inside a single symbols file: acyclic, and
    // longer than the number of files.
    let doc = format!(
        "default partial alphanumeric_keys\nxkb_symbols \"basic\" {{\n\
         {tok} \"dk(b)\"\nkey <AD01> {{ [ q ] }};\n}};\n\
         partial alphanumeric_keys\nxkb_symbols \"b\" {{\n\
         {tok} \"dk(c)\"\nkey <AD02> {{ [ w ] }};\n}};\n\
         partial alphanumeric_keys\nxkb_symbols \"c\" {{\n\
         key <AC01> {{ [ a, A ] }};\n}};\n",
        tok = inherit_token()
    );
    let lay = Layout::from_lines(&nm, &lines_of(&doc)).unwrap();
    let files = vec![("dk".to_string(), lay)];
    let spec: Vec<char> = "dk(basic)".chars().collect();
    let keys = resolve_defaults(&files, &spec).unwrap();
    assert_eq!(keys.len(), 3);
    assert_eq!(keys[0].0, Key::AD01);
    assert_eq!(keys[1].0, Key::AD02);
    assert_eq!(keys[2].0, Key::AC01);
    assert_eq!(keys[2].1.shift, Character::Char('A'));
}

#[test]
fn default_keys_missing_file_fails() {
    let nm = names();
    let files = base_layout_files(&nm);
    let spec: Vec<char> = "se(basic)".chars().collect();
    assert_eq!(default_keys(&files, &spec, 2).unwrap_err(), KlayError::UnknownLayout);
}

#[test]
fn default_keys_cyclic_reference_fails() {
    let nm = names();
    let doc = format!(
        "default partial alphanumeric_keys\nxkb_symbols \"basic\" {{\n    {} \"dk(basic)\"\n}};\n",
        inherit_token()
    );
    let lay = Layout::from_lines(&nm, &lines_of(&doc)).unwrap();
    let files = vec![("dk".to_string(), lay)];
    let spec: Vec<char> = "dk(basic)".chars().collect();
    assert_eq!(
        default_keys(&files, &spec, files.len() + 1).unwrap_err(),
        KlayError::CyclicInheritance
    );
}

fn win_key(vk: &str, normal: char, shift: char) -> WinKey {
    WinKey {
        virtual_key: vk.to_string(),
        cap: CapsLockBehaviour::ShiftOnCaps,
        normal: if normal == '\0' { None } else { Some(normal) },
        shift: if shift == '\0' { None } else { Some(shift) },
        ctrl: None,
        ctrl_alt: None,
        shift_ctrl_alt: None,
    }
}

fn empty_win_layout() -> WinKeyLayout {
    WinKeyLayout {
        id: String::new(),
        name: "Converted".to_string(),
        copyright: String::new(),
        company: String::new(),
        locale_name: String::new(),
        locale_id: String::new(),
        version: String::new(),
        layout: Vec::new(),
        deadkeys: Vec::new(),
        key_names: Vec::new(),
        key_names_ext: Vec::new(),
        keynames_dead: Vec::new(),
        description: String::new(),
        language_name: String::new(),
    }
}

#[test]
fn conversion_emits_differing_keys_only() {
    let nm = names();
    let files = base_layout_files(&nm);
    let spec: Vec<char> = "dk(basic)".chars().collect();
    let defaults = default_keys(&files, &spec, files.len() + 1).unwrap();
    let mut win = empty_win_layout();
    // AD01 matches the baseline exactly, AD02 differs in the shift slot.
    win.layout.push((0x10, win_key("Q", 'q', 'Q')));
    win.layout.push((0x11, win_key("W", 'w', 'X')));
    let out = convert_to_xkb(&win, &defaults, &Vec::new()).unwrap();
    assert_eq!(out.default_partial.name, "basic");
    assert_eq!(out.default_partial.inherits, Some("dk(basic)".to_string()));
    assert_eq!(out.default_partial.name_group1, Some("Converted".to_string()));
    assert_eq!(out.default_partial.keys.len(), 1);
    assert_eq!(out.default_partial.keys[0].0, Key::AD02);
    // The merge keeps the explicit shift and inherits nothing there.
    assert_eq!(out.default_partial.keys[0].1.shift, Character::Char('X'));
    assert_eq!(out.partials.len(), 0);
}

#[test]
fn conversion_of_exact_match_emits_no_keys() {
    let nm = names();
    let files = base_layout_files(&nm);
    let spec: Vec<char> = "dk(basic)".chars().collect();
    let defaults = default_keys(&files, &spec, files.len() + 1).unwrap();
    let mut win = empty_win_layout();
    win.layout.push((0x10, win_key("Q", 'q', 'Q')));
    win.layout.push((0x11, win_key("W", 'w', 'W')));
    let out = convert_to_xkb(&win, &defaults, &Vec::new()).unwrap();
    assert_eq!(out.default_partial.keys.len(), 0);
}

#[test]
fn conversion_rejects_unsupported_scan_code() {
    let nm = names();
    let files = base_layout_files(&nm);
    let spec: Vec<char> = "dk(basic)".chars().collect();
    let defaults = default_keys(&files, &spec, files.len() + 1).unwrap();
    let mut win = empty_win_layout();
    win.layout.push((0x01, win_key("ESCAPE", '\u{1b}', '\0')));
    assert_eq!(
        convert_to_xkb(&win, &defaults, &Vec::new()).unwrap_err(),
        KlayError::UnsupportedScanCode(0x01)
    );
}

#[test]
fn conversion_classifies_dead_keys() {
    let defaults: Vec<(Key, Output)> = Vec::new();
    let mut win = empty_win_layout();
    // U+0301 appears both in the dead-key table and as a normal output.
    win.deadkeys.push(('\u{0301}', vec![('a', '\u{e1}')]));
    win.layout.push((0x0C, win_key("OEM", '\u{0301}', '\0')));
    let dead_names = vec![('\u{0301}', "acute".to_string())];
    let out = convert_to_xkb(&win, &defaults, &dead_names).unwrap();
    assert_eq!(out.default_partial.keys.len(), 1);
    assert_eq!(
        out.default_partial.keys[0].1.normal,
        Character::Dead("acute".to_string())
    );
    // With no resolved name the dead key stays a literal character.
    let out2 = convert_to_xkb(&win, &defaults, &Vec::new()).unwrap();
    assert_eq!(
        out2.default_partial.keys[0].1.normal,
        Character::Char('\u{0301}')
    );
}

#[test]
fn get_partial_finds_blocks() {
    let nm = names();
    let lay = Layout::from_lines(&nm, &lines_of(&sample_xkb())).unwrap();
    assert_eq!(lay.get_partial("basic").unwrap().name, "basic");
    assert_eq!(lay.get_partial("extra").unwrap().name, "extra");
    assert!(lay.get_partial("nope").is_none());
}

#[test]
fn partial_new_is_empty() {
    let p = PartialXkbSymbols::new("fresh".to_string());
    assert_eq!(p.name, "fresh");
    assert!(p.inherits.is_none());
    assert!(p.name_group1.is_none());
    assert!(p.keys.is_empty());
}
