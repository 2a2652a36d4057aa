use klay::keylayout::{convert as convert_keylayout, escape};
use klay::linux::{Character, Output};
use klay::names::BiMap;
use klay::{KeyboardKey, Metadata, Out, Outs, TooManyOuts};

fn ch(c: char) -> Character {
    Character::Char(c)
}

fn out(n: char, s: char, a: char, asft: char) -> Output {
    Output { normal: ch(n), shift: ch(s), altgr: ch(a), altgr_shift: ch(asft) }
}

#[test]
fn merge_is_idempotent() {
    let a = out('a', 'A', '\0', '\0');
    assert_eq!(a.clone() | a.clone(), a);
    let d = Output {
        normal: Character::Dead("acute".to_string()),
        shift: ch('\0'),
        altgr: ch('x'),
        altgr_shift: ch('\0'),
    };
    assert_eq!(d.clone() | d.clone(), d);
}

#[test]
fn merge_empty_is_identity_on_both_sides() {
    let e = out('\0', '\0', '\0', '\0');
    let b = out('a', 'A', '\u{e5}', '\u{c5}');
    assert_eq!(e.clone() | b.clone(), b);
    assert_eq!(b.clone() | e.clone(), b);
}

#[test]
fn merge_is_left_biased_not_commutative() {
    let a = out('x', '\0', '\0', '\0');
    let b = out('y', 'Y', '\0', '\0');
    // Both normal slots are present: the left operand prevails.
    assert_eq!((a.clone() | b.clone()).normal, ch('x'));
    assert_eq!((b.clone() | a.clone()).normal, ch('y'));
    // The empty left shift slot takes the right value.
    assert_eq!((a | b).shift, ch('Y'));
}

#[test]
fn character_is_zero_only_for_the_sentinel() {
    assert!(Character::Char('\0').is_zero());
    assert!(!Character::Char('a').is_zero());
    assert!(!Character::Dead("acute".to_string()).is_zero());
}

#[test]
fn outs_accepts_up_to_four() {
    let outs = Outs::try_from(vec![Out::Char('a'), Out::Char('b')]).unwrap();
    assert_eq!(outs.normal, Out::Char('a'));
    assert_eq!(outs.shift, Out::Char('b'));
    assert_eq!(outs.altgr, Out::Char('\0'));
    assert_eq!(outs.altgr_shift, Out::Char('\0'));
    let full = Outs::try_from(vec![
        Out::Char('a'),
        Out::Char('b'),
        Out::Special("dead".to_string()),
        Out::Char('d'),
    ])
    .unwrap();
    assert_eq!(full.altgr, Out::Special("dead".to_string()));
    assert_eq!(full.altgr_shift, Out::Char('d'));
}

#[test]
fn outs_rejects_more_than_four() {
    let five = vec![
        Out::Char('a'),
        Out::Char('b'),
        Out::Char('c'),
        Out::Char('d'),
        Out::Char('e'),
    ];
    assert_eq!(Outs::try_from(five), Err(TooManyOuts));
}

#[test]
fn metadata_default_is_empty() {
    let m = Metadata::default();
    assert_eq!(m.name, "");
    assert_eq!(m.author, "");
}

#[test]
fn keyboard_keys_are_distinct() {
    assert_ne!(KeyboardKey::TLD, KeyboardKey::SPC);
    assert_eq!(KeyboardKey::E01, KeyboardKey::E01);
}

#[test]
fn escape_keeps_printable_and_references_the_rest() {
    assert_eq!(escape("Plain text!"), "Plain text!");
    assert_eq!(escape("\n"), "&#x000A;");
    assert_eq!(escape("a\u{e5}b"), "a&#x00E5;b");
    assert_eq!(escape("\u{1F600}"), "&#x1F600;");
}

#[test]
fn keylayout_tree_has_fixed_shape() {
    let mut win = klay::klc::WinKeyLayout {
        id: String::new(),
        name: "Mac Layout".to_string(),
        copyright: String::new(),
        company: String::new(),
        locale_name: String::new(),
        locale_id: String::new(),
        version: String::new(),
        layout: Vec::new(),
        deadkeys: Vec::new(),
        key_names: Vec::new(),
        key_names_ext: Vec::new(),
        keynames_dead: Vec::new(),
        description: String::new(),
        language_name: String::new(),
    };
    win.layout.push((
        0x10,
        klay::klc::Key {
            virtual_key: "Q".to_string(),
            cap: klay::klc::CapsLockBehaviour::Never,
            normal: Some('q'),
            shift: Some('Q'),
            ctrl: None,
            ctrl_alt: None,
            shift_ctrl_alt: None,
        },
    ));
    let kl = convert_keylayout(&win, 1234);
    assert_eq!(kl.group, 126);
    assert_eq!(kl.id, 1234);
    assert_eq!(kl.name, "Mac Layout");
    assert_eq!(kl.layouts.layout.len(), 1);
    assert_eq!(kl.layouts.layout[0].first, 0);
    assert_eq!(kl.layouts.layout[0].last, 255);
    assert_eq!(kl.layouts.layout[0].map_set, "a");
    assert_eq!(kl.modifier_map.key_map_select.len(), 9);
    assert_eq!(kl.modifier_map.key_map_select[0].modifier.len(), 2);
    assert_eq!(
        kl.modifier_map.key_map_select[8].modifier[0].keys,
        "control command? anyOption? anyShift? caps?"
    );
    assert_eq!(kl.key_map_set.key_map.len(), 9);
    for (i, km) in kl.key_map_set.key_map.iter().enumerate() {
        assert_eq!(km.index as usize, i);
        assert!(km.key.is_empty());
    }
    assert!(kl.actions.action.is_empty());
    assert!(kl.terminators.when.is_empty());
}

#[test]
fn bimap_binds_both_directions() {
    let mut m = BiMap::new();
    m.insert("alpha", 'α');
    m.insert("beta", 'β');
    assert_eq!(m.get_char("alpha"), Some('α'));
    assert_eq!(m.get_name('β').as_deref(), Some("beta"));
    assert_eq!(m.get_char("gamma"), None);
    assert_eq!(m.get_name('γ'), None);
    // A younger binding shadows an older one.
    m.insert("alpha", 'a');
    assert_eq!(m.get_char("alpha"), Some('a'));
}

#[test]
fn standard_table_holds_the_sentinel_name() {
    let m = BiMap::standard();
    assert_eq!(m.get_char("NoSymbol"), Some('\0'));
    assert_eq!(m.get_name('\0').as_deref(), Some("NoSymbol"));
    assert_eq!(m.get_char("q"), Some('q'));
    assert_eq!(m.get_char("oslash"), Some('\u{f8}'));
    assert_eq!(m.get_char("ccedilla"), Some('\u{e7}'));
    assert_eq!(m.get_char("guillemotleft"), Some('\u{ab}'));
    // The shipped table binds every name and code point once, so the
    // proved lookup round-trip laws apply to it.
    assert!(m.is_well_formed());
    let mut dup = BiMap::new();
    dup.insert("alpha", 'a');
    dup.insert("alpha", 'b');
    assert!(!dup.is_well_formed());
}
