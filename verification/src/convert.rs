//! The fixed scan-code translation table: a total bidirectional mapping
//! between the Windows scan codes of the standard alphanumeric block and
//! the Linux key identifiers. A scan code outside the table is
//! unsupported, and a conversion must fail for that key rather than drop
//! it silently.

use vstd::prelude::*;
use crate::KlayError;
use crate::assoc::{assoc_contains, assoc_get, pair_view};
use crate::klc::{KeyView, WinKeyLayout, WinKeyLayoutView};
use crate::linux::{
    CharacterView, Character, Key, Layout, LayoutView, Output, OutputView, PartialXkbSymbols,
    PartialXkbSymbolsView, empty_slot, empty_output, merge_output, key_set_spec, key_set,
    xkb_keys_sorted, get_partial_spec, find_partial, partial_wf, layout_wf,
    lemma_key_set_preserves_wf, output_bitor, lemma_output_bitor_is_merge,
};

verus! {

/// The Linux key identifier of a Windows scan code, if the table covers
/// the code.
pub open spec fn win_to_linux_spec(k: u8) -> Option<Key> {
    if k == 0x02 {
        Some(Key::AE01)
    } else if k == 0x03 {
        Some(Key::AE02)
    } else if k == 0x04 {
        Some(Key::AE03)
    } else if k == 0x05 {
        Some(Key::AE04)
    } else if k == 0x06 {
        Some(Key::AE05)
    } else if k == 0x07 {
        Some(Key::AE06)
    } else if k == 0x08 {
        Some(Key::AE07)
    } else if k == 0x09 {
        Some(Key::AE08)
    } else if k == 0x0a {
        Some(Key::AE09)
    } else if k == 0x0b {
        Some(Key::AE10)
    } else if k == 0x0c {
        Some(Key::AE11)
    } else if k == 0x0d {
        Some(Key::AE12)
    } else if k == 0x10 {
        Some(Key::AD01)
    } else if k == 0x11 {
        Some(Key::AD02)
    } else if k == 0x12 {
        Some(Key::AD03)
    } else if k == 0x13 {
        Some(Key::AD04)
    } else if k == 0x14 {
        Some(Key::AD05)
    } else if k == 0x15 {
        Some(Key::AD06)
    } else if k == 0x16 {
        Some(Key::AD07)
    } else if k == 0x17 {
        Some(Key::AD08)
    } else if k == 0x18 {
        Some(Key::AD09)
    } else if k == 0x19 {
        Some(Key::AD10)
    } else if k == 0x1a {
        Some(Key::AD11)
    } else if k == 0x1b {
        Some(Key::AD12)
    } else if k == 0x1e {
        Some(Key::AC01)
    } else if k == 0x1f {
        Some(Key::AC02)
    } else if k == 0x20 {
        Some(Key::AC03)
    } else if k == 0x21 {
        Some(Key::AC04)
    } else if k == 0x22 {
        Some(Key::AC05)
    } else if k == 0x23 {
        Some(Key::AC06)
    } else if k == 0x24 {
        Some(Key::AC07)
    } else if k == 0x25 {
        Some(Key::AC08)
    } else if k == 0x26 {
        Some(Key::AC09)
    } else if k == 0x27 {
        Some(Key::AC10)
    } else if k == 0x28 {
        Some(Key::AC11)
    } else if k == 0x29 {
        Some(Key::TLDE)
    } else if k == 0x2b {
        Some(Key::BKSL)
    } else if k == 0x2c {
        Some(Key::AB01)
    } else if k == 0x2d {
        Some(Key::AB02)
    } else if k == 0x2e {
        Some(Key::AB03)
    } else if k == 0x2f {
        Some(Key::AB04)
    } else if k == 0x30 {
        Some(Key::AB05)
    } else if k == 0x31 {
        Some(Key::AB06)
    } else if k == 0x32 {
        Some(Key::AB07)
    } else if k == 0x33 {
        Some(Key::AB08)
    } else if k == 0x34 {
        Some(Key::AB09)
    } else if k == 0x35 {
        Some(Key::AB10)
    } else if k == 0x39 {
        Some(Key::SPCE)
    } else if k == 0x56 {
        Some(Key::LSGT)
    } else if k == 0x53 {
        Some(Key::KPDL)
    } else {
        None
    }
}

/// The Windows scan code of a Linux key identifier.
pub open spec fn linux_to_win_spec(k: Key) -> u8 {
    match k {
        Key::AE01 => 0x02,
        Key::AE02 => 0x03,
        Key::AE03 => 0x04,
        Key::AE04 => 0x05,
        Key::AE05 => 0x06,
        Key::AE06 => 0x07,
        Key::AE07 => 0x08,
        Key::AE08 => 0x09,
        Key::AE09 => 0x0a,
        Key::AE10 => 0x0b,
        Key::AE11 => 0x0c,
        Key::AE12 => 0x0d,
        Key::AD01 => 0x10,
        Key::AD02 => 0x11,
        Key::AD03 => 0x12,
        Key::AD04 => 0x13,
        Key::AD05 => 0x14,
        Key::AD06 => 0x15,
        Key::AD07 => 0x16,
        Key::AD08 => 0x17,
        Key::AD09 => 0x18,
        Key::AD10 => 0x19,
        Key::AD11 => 0x1a,
        Key::AD12 => 0x1b,
        Key::AC01 => 0x1e,
        Key::AC02 => 0x1f,
        Key::AC03 => 0x20,
        Key::AC04 => 0x21,
        Key::AC05 => 0x22,
        Key::AC06 => 0x23,
        Key::AC07 => 0x24,
        Key::AC08 => 0x25,
        Key::AC09 => 0x26,
        Key::AC10 => 0x27,
        Key::AC11 => 0x28,
        Key::TLDE => 0x29,
        Key::BKSL => 0x2b,
        Key::AB01 => 0x2c,
        Key::AB02 => 0x2d,
        Key::AB03 => 0x2e,
        Key::AB04 => 0x2f,
        Key::AB05 => 0x30,
        Key::AB06 => 0x31,
        Key::AB07 => 0x32,
        Key::AB08 => 0x33,
        Key::AB09 => 0x34,
        Key::AB10 => 0x35,
        Key::SPCE => 0x39,
        Key::LSGT => 0x56,
        Key::KPDL => 0x53,
    }
}

/// The Linux key identifier of a Windows scan code. Returns `None` for a
/// scan code the table does not cover: such a key is unsupported.
pub fn win_to_linux(k: u8) -> (r: Option<Key>)
    ensures
        r == win_to_linux_spec(k),
{
    if k == 0x02 {
        Some(Key::AE01)
    } else if k == 0x03 {
        Some(Key::AE02)
    } else if k == 0x04 {
        Some(Key::AE03)
    } else if k == 0x05 {
        Some(Key::AE04)
    } else if k == 0x06 {
        Some(Key::AE05)
    } else if k == 0x07 {
        Some(Key::AE06)
    } else if k == 0x08 {
        Some(Key::AE07)
    } else if k == 0x09 {
        Some(Key::AE08)
    } else if k == 0x0a {
        Some(Key::AE09)
    } else if k == 0x0b {
        Some(Key::AE10)
    } else if k == 0x0c {
        Some(Key::AE11)
    } else if k == 0x0d {
        Some(Key::AE12)
    } else if k == 0x10 {
        Some(Key::AD01)
    } else if k == 0x11 {
        Some(Key::AD02)
    } else if k == 0x12 {
        Some(Key::AD03)
    } else if k == 0x13 {
        Some(Key::AD04)
    } else if k == 0x14 {
        Some(Key::AD05)
    } else if k == 0x15 {
        Some(Key::AD06)
    } else if k == 0x16 {
        Some(Key::AD07)
    } else if k == 0x17 {
        Some(Key::AD08)
    } else if k == 0x18 {
        Some(Key::AD09)
    } else if k == 0x19 {
        Some(Key::AD10)
    } else if k == 0x1a {
        Some(Key::AD11)
    } else if k == 0x1b {
        Some(Key::AD12)
    } else if k == 0x1e {
        Some(Key::AC01)
    } else if k == 0x1f {
        Some(Key::AC02)
    } else if k == 0x20 {
        Some(Key::AC03)
    } else if k == 0x21 {
        Some(Key::AC04)
    } else if k == 0x22 {
        Some(Key::AC05)
    } else if k == 0x23 {
        Some(Key::AC06)
    } else if k == 0x24 {
        Some(Key::AC07)
    } else if k == 0x25 {
        Some(Key::AC08)
    } else if k == 0x26 {
        Some(Key::AC09)
    } else if k == 0x27 {
        Some(Key::AC10)
    } else if k == 0x28 {
        Some(Key::AC11)
    } else if k == 0x29 {
        Some(Key::TLDE)
    } else if k == 0x2b {
        Some(Key::BKSL)
    } else if k == 0x2c {
        Some(Key::AB01)
    } else if k == 0x2d {
        Some(Key::AB02)
    } else if k == 0x2e {
        Some(Key::AB03)
    } else if k == 0x2f {
        Some(Key::AB04)
    } else if k == 0x30 {
        Some(Key::AB05)
    } else if k == 0x31 {
        Some(Key::AB06)
    } else if k == 0x32 {
        Some(Key::AB07)
    } else if k == 0x33 {
        Some(Key::AB08)
    } else if k == 0x34 {
        Some(Key::AB09)
    } else if k == 0x35 {
        Some(Key::AB10)
    } else if k == 0x39 {
        Some(Key::SPCE)
    } else if k == 0x56 {
        Some(Key::LSGT)
    } else if k == 0x53 {
        Some(Key::KPDL)
    } else {
        None
    }
}

/// The Windows scan code of a Linux key identifier. Total: every key
/// identifier has a scan code.
pub fn linux_to_win(k: Key) -> (r: u8)
    ensures
        r == linux_to_win_spec(k),
{
    match k {
        Key::AE01 => 0x02,
        Key::AE02 => 0x03,
        Key::AE03 => 0x04,
        Key::AE04 => 0x05,
        Key::AE05 => 0x06,
        Key::AE06 => 0x07,
        Key::AE07 => 0x08,
        Key::AE08 => 0x09,
        Key::AE09 => 0x0a,
        Key::AE10 => 0x0b,
        Key::AE11 => 0x0c,
        Key::AE12 => 0x0d,
        Key::AD01 => 0x10,
        Key::AD02 => 0x11,
        Key::AD03 => 0x12,
        Key::AD04 => 0x13,
        Key::AD05 => 0x14,
        Key::AD06 => 0x15,
        Key::AD07 => 0x16,
        Key::AD08 => 0x17,
        Key::AD09 => 0x18,
        Key::AD10 => 0x19,
        Key::AD11 => 0x1a,
        Key::AD12 => 0x1b,
        Key::AC01 => 0x1e,
        Key::AC02 => 0x1f,
        Key::AC03 => 0x20,
        Key::AC04 => 0x21,
        Key::AC05 => 0x22,
        Key::AC06 => 0x23,
        Key::AC07 => 0x24,
        Key::AC08 => 0x25,
        Key::AC09 => 0x26,
        Key::AC10 => 0x27,
        Key::AC11 => 0x28,
        Key::TLDE => 0x29,
        Key::BKSL => 0x2b,
        Key::AB01 => 0x2c,
        Key::AB02 => 0x2d,
        Key::AB03 => 0x2e,
        Key::AB04 => 0x2f,
        Key::AB05 => 0x30,
        Key::AB06 => 0x31,
        Key::AB07 => 0x32,
        Key::AB08 => 0x33,
        Key::AB09 => 0x34,
        Key::AB10 => 0x35,
        Key::SPCE => 0x39,
        Key::LSGT => 0x56,
        Key::KPDL => 0x53,
    }
}

/// Every scan code the table accepts maps to a key identifier whose scan
/// code is the original one.
pub proof fn lemma_scan_code_round_trip(c: u8)
    requires
        win_to_linux_spec(c) is Some,
    ensures
        linux_to_win_spec(win_to_linux_spec(c)->Some_0) == c,
{
}

/// Every key identifier's scan code maps back to that key identifier.
pub proof fn lemma_key_round_trip(k: Key)
    ensures
        win_to_linux_spec(linux_to_win_spec(k)) == Some(k),
{
}

/// The file part and the block part of an inherit reference: the form
/// `file(block)` splits at the parenthesis, a bare `file` implies the
/// block `basic`. A reference whose parenthesis opens at the very end
/// is malformed.
pub open spec fn split_spec_parts(s: Seq<char>) -> Result<(Seq<char>, Seq<char>), KlayError> {
    match crate::text::find_from_spec(s, '(', 0) {
        None => Ok((s, "basic"@)),
        Some(i) => if i + 1 <= s.len() - 1 {
            Ok((s.take(i), s.subrange(i + 1, s.len() - 1)))
        } else {
            Err(KlayError::MalformedSection)
        },
    }
}

/// Splits an inherit reference into its file part and its block part.
pub fn split_to_file_partial(s: &Vec<char>) -> (r: Result<(Vec<char>, Vec<char>), KlayError>)
    ensures
        match r {
            Ok(p) => split_spec_parts(s@) == Ok::<(Seq<char>, Seq<char>), KlayError>(
                (p.0@, p.1@),
            ),
            Err(e) => split_spec_parts(s@) == Err::<(Seq<char>, Seq<char>), KlayError>(e),
        },
{
    match crate::text::find_from(s, '(', 0) {
        None => {
            let file = crate::text::sub_chars(s, 0, s.len());
            let part = crate::text::string_to_chars("basic");
            proof {
                assert(file@ =~= s@);
                assert(file@ =~= s@.take(s@.len() as int));
            }
            Ok((file, part))
        },
        Some(i) => {
            if s.len() - i >= 2 {
                let file = crate::text::sub_chars(s, 0, i);
                let part = crate::text::sub_chars(s, i + 1, s.len() - 1);
                proof {
                    assert(file@ =~= s@.take(i as int));
                }
                Ok((file, part))
            } else {
                Err(KlayError::MalformedSection)
            }
        },
    }
}

/// The models of a list of loaded symbols documents, keyed by file
/// name.
pub open spec fn files_view(fs: Seq<(String, Layout)>) -> Seq<(Seq<char>, LayoutView)> {
    fs.map_values(|p: (String, Layout)| (p.0@, p.1@))
}

/// The first loaded document with the given file name.
pub open spec fn find_file(fs: Seq<(Seq<char>, LayoutView)>, name: Seq<char>) -> Option<
    LayoutView,
>
    decreases fs.len(),
{
    if fs.len() == 0 {
        None
    } else if fs.first().0 == name {
        Some(fs.first().1)
    } else {
        find_file(fs.drop_first(), name)
    }
}

/// A key table with the rows of a block laid over it, row by row:
/// where the base already binds a row's key, the row's slots merge over
/// the base's, so an explicit slot wins and an empty slot inherits; a
/// key the base lacks is bound to the row's output alone.
pub open spec fn overlay_keys(
    base: Seq<(Key, OutputView)>,
    rows: Seq<(Key, OutputView)>,
) -> Seq<(Key, OutputView)>
    decreases rows.len(),
{
    if rows.len() == 0 {
        base
    } else {
        let bound = match assoc_get(base, rows.first().0) {
            Some(b) => merge_output(rows.first().1, b),
            None => rows.first().1,
        };
        overlay_keys(key_set_spec(base, rows.first().0, bound), rows.drop_first())
    }
}

/// Laying rows over a sorted table keeps it sorted.
proof fn lemma_overlay_keys_sorted(base: Seq<(Key, OutputView)>, rows: Seq<(Key, OutputView)>)
    requires
        xkb_keys_sorted(base),
    ensures
        xkb_keys_sorted(overlay_keys(base, rows)),
    decreases rows.len(),
{
    if rows.len() > 0 {
        let bound = match assoc_get(base, rows.first().0) {
            Some(b) => merge_output(rows.first().1, b),
            None => rows.first().1,
        };
        lemma_key_set_preserves_wf(base, rows.first().0, bound);
        lemma_overlay_keys_sorted(key_set_spec(base, rows.first().0, bound), rows.drop_first());
    }
}

/// What resolving an inherit reference yields: the named file's named
/// block, its own inherited base resolved first, with the block's
/// explicit rows merged on top slot by slot, so an explicit slot wins
/// and an empty one inherits. The step bound falls with each link of
/// the chain, so a cyclic chain is rejected rather than followed
/// forever.
pub open spec fn default_keys_spec(
    fs: Seq<(Seq<char>, LayoutView)>,
    spec_str: Seq<char>,
    fuel: nat,
) -> Result<Seq<(Key, OutputView)>, KlayError>
    decreases fuel,
{
    if fuel == 0 {
        Err(KlayError::CyclicInheritance)
    } else {
        match split_spec_parts(spec_str) {
            Err(e) => Err(e),
            Ok(parts) => match find_file(fs, parts.0) {
                None => Err(KlayError::UnknownLayout),
                Some(lay) => match get_partial_spec(lay, parts.1) {
                    None => Err(KlayError::UnknownLayout),
                    Some(part) => {
                        let base = match part.inherits {
                            Some(inc) => default_keys_spec(fs, inc, (fuel - 1) as nat),
                            None => Ok(Seq::<(Key, OutputView)>::empty()),
                        };
                        match base {
                            Err(e) => Err(e),
                            Ok(b) => Ok(overlay_keys(b, part.keys)),
                        }
                    },
                },
            },
        }
    }
}

/// Resolves an inherit reference against the loaded documents, with a
/// step bound that rejects cyclic chains.
pub fn default_keys(
    files: &Vec<(String, Layout)>,
    spec_str: &Vec<char>,
    fuel: usize,
) -> (r: Result<Vec<(Key, Output)>, KlayError>)
    ensures
        match r {
            Ok(keys) => default_keys_spec(files_view(files@), spec_str@, fuel as nat) == Ok::<
                Seq<(Key, OutputView)>,
                KlayError,
            >(pair_view(keys@)) && xkb_keys_sorted(pair_view(keys@)),
            Err(e) => default_keys_spec(files_view(files@), spec_str@, fuel as nat) == Err::<
                Seq<(Key, OutputView)>,
                KlayError,
            >(e),
        },
    decreases fuel,
{
    if fuel == 0 {
        return Err(KlayError::CyclicInheritance);
    }
    let parts = match split_to_file_partial(spec_str) {
        Ok(p) => p,
        Err(e) => {
            return Err(e);
        },
    };
    let ghost fv = files_view(files@);
    let file_name = crate::text::chars_to_string(&parts.0);
    let n: usize = files.len();
    let mut i: usize = 0;
    proof {
        assert(fv.skip(0) =~= fv);
        assert(forall|k: int| 0 <= k < files@.len() ==> fv[k] == ((#[trigger] files@[k]).0@, files@[k].1@));
    }
    while i < n
        invariant
            i <= n,
            n == files@.len(),
            fv == files_view(files@),
            fv.len() == n,
            forall|k: int|
                0 <= k < files@.len() ==> fv[k] == ((#[trigger] files@[k]).0@, files@[k].1@),
            fuel >= 1,
            file_name@ == parts.0@,
            split_spec_parts(spec_str@) == Ok::<(Seq<char>, Seq<char>), KlayError>(
                (parts.0@, parts.1@),
            ),
            find_file(fv, parts.0@) == find_file(fv.skip(i as int), parts.0@),
        decreases n - i,
    {
        proof {
            assert(fv.skip(i as int).first() == fv[i as int]);
            assert(fv.skip(i as int).drop_first() =~= fv.skip(i + 1));
        }
        if crate::text::str_eq(files[i].0.as_str(), file_name.as_str()) {
            let lay: &Layout = &files[i].1;
            proof {
                assert(find_file(fv, parts.0@) == Some(lay@));
            }
            let part_name = crate::text::chars_to_string(&parts.1);
            let part = match lay.get_partial(part_name.as_str()) {
                Some(p) => p,
                None => {
                    return Err(KlayError::UnknownLayout);
                },
            };
            let mut base: Vec<(Key, Output)> = match &part.inherits {
                Some(inc) => {
                    let inc_chars = crate::text::string_to_chars(inc.as_str());
                    match default_keys(files, &inc_chars, fuel - 1) {
                        Ok(b) => b,
                        Err(e) => {
                            return Err(e);
                        },
                    }
                },
                None => {
                    let b: Vec<(Key, Output)> = Vec::new();
                    proof {
                        assert(pair_view(b@) =~= Seq::<(Key, OutputView)>::empty());
                    }
                    b
                },
            };
            let ghost base0 = pair_view(base@);
            let ghost rows = part@.keys;
            let m: usize = part.keys.len();
            let mut j: usize = 0;
            proof {
                assert(rows.skip(0) =~= rows);
            }
            while j < m
                invariant
                    j <= m,
                    m == part.keys@.len(),
                    rows == part@.keys,
                    rows.len() == m,
                    xkb_keys_sorted(pair_view(base@)),
                    fuel >= 1,
                    overlay_keys(base0, rows) == overlay_keys(
                        pair_view(base@),
                        rows.skip(j as int),
                    ),
                decreases m - j,
            {
                proof {
                    assert(rows.skip(j as int).first() == rows[j as int]);
                    assert(rows[j as int] == (part.keys@[j as int].0, part.keys@[j as int].1@));
                    assert(rows.skip(j as int).drop_first() =~= rows.skip(j + 1));
                }
                let ghost base_pre = pair_view(base@);
                let kv = part.keys[j].1.clone();
                let kk: Key = part.keys[j].0;
                proof {
                    assert(kv@ == part.keys@[j as int].1@);
                }
                let bound = match defaults_get(&base, kk) {
                    Some(b) => {
                        let ghost gkv = kv;
                        let ghost gb = b;
                        let merged = kv | b;
                        proof {
                            lemma_output_bitor_is_merge(gkv, gb);
                            assert(merged@ == merge_output(rows[j as int].1, gb@));
                        }
                        merged
                    },
                    None => kv,
                };
                let ghost gbound = bound;
                key_set(&mut base, kk, bound);
                proof {
                    lemma_key_set_preserves_wf(base_pre, kk, gbound@);
                }
                j = j + 1;
            }
            proof {
                assert(rows.skip(m as int) =~= Seq::<(Key, OutputView)>::empty());
            }
            return Ok(base);
        }
        i = i + 1;
    }
    proof {
        assert(fv.skip(n as int) =~= Seq::<(Seq<char>, LayoutView)>::empty());
    }
    Err(KlayError::UnknownLayout)
}


/// The character a raw shift-state field contributes: the empty
/// sentinel where the field is absent.
pub open spec fn slot_or_empty(oc: Option<char>) -> char {
    match oc {
        Some(c) => c,
        None => '\0',
    }
}

/// What a converted slot holds: a code point that also keys the
/// source's dead-key table is classified as a dead key and carries its
/// resolved name; one with no resolved name stays a literal; any other
/// code point stays a literal.
pub open spec fn char_or_dead_spec(
    deadkeys: Seq<(char, Seq<(char, char)>)>,
    dead_names: Seq<(char, Seq<char>)>,
    c: char,
) -> CharacterView {
    if assoc_contains(deadkeys, c) {
        match assoc_get(dead_names, c) {
            Some(n) => CharacterView::Dead(n),
            None => CharacterView::Lit(c),
        }
    } else {
        CharacterView::Lit(c)
    }
}

/// Classifies one converted slot, resolving dead keys through the
/// given name table.
pub fn char_or_dead(
    deadkeys: &Vec<(char, Vec<(char, char)>)>,
    dead_names: &Vec<(char, String)>,
    c: char,
) -> (r: Character)
    ensures
        r@ == char_or_dead_spec(pair_view(deadkeys@), pair_view(dead_names@), c),
{
    let is_dead = crate::assoc::assoc_contains_char(deadkeys, c);
    proof {
        crate::assoc::lemma_pair_view_contains(deadkeys@, c);
    }
    if is_dead {
        match crate::assoc::assoc_index_char(dead_names, c) {
            Some(i) => {
                let r = Character::Dead(dead_names[i].1.clone());
                proof {
                    assert(forall|j: int|
                        0 <= j < dead_names@.len() ==> (#[trigger] pair_view(dead_names@)[j]).0
                            == dead_names@[j].0);
                    crate::assoc::lemma_assoc_get_found(pair_view(dead_names@), c, i as int);
                }
                r
            },
            None => {
                proof {
                    crate::assoc::lemma_pair_view_contains(dead_names@, c);
                    crate::assoc::lemma_assoc_get_absent(pair_view(dead_names@), c);
                }
                Character::Char(c)
            },
        }
    } else {
        Character::Char(c)
    }
}

/// The number of blocks across the loaded documents: each document
/// holds its default block and its named blocks.
pub open spec fn block_count(fs: Seq<(Seq<char>, LayoutView)>) -> nat
    decreases fs.len(),
{
    if fs.len() == 0 {
        0
    } else {
        block_count(fs.drop_last()) + 1 + fs.last().1.partials.len()
    }
}

/// A prefix of the documents holds no more blocks than all of them.
proof fn lemma_block_count_prefix(fs: Seq<(Seq<char>, LayoutView)>, j: int)
    requires
        0 <= j <= fs.len(),
    ensures
        block_count(fs.take(j)) <= block_count(fs),
    decreases fs.len(),
{
    if j < fs.len() {
        assert(fs.drop_last().take(j) =~= fs.take(j));
        lemma_block_count_prefix(fs.drop_last(), j);
    } else {
        assert(fs.take(j) =~= fs);
    }
}

/// Resolves an inherit reference against the loaded documents: an
/// acyclic chain visits each block at most once, so the step bound of
/// one more than the total number of blocks admits every acyclic chain
/// and rejects every cyclic one.
pub fn resolve_defaults(files: &Vec<(String, Layout)>, spec_str: &Vec<char>) -> (r: Result<
    Vec<(Key, Output)>,
    KlayError,
>)
    requires
        block_count(files_view(files@)) < usize::MAX,
    ensures
        ({
            let fuel = block_count(files_view(files@)) + 1;
            match r {
                Ok(keys) => default_keys_spec(files_view(files@), spec_str@, fuel) == Ok::<
                    Seq<(Key, OutputView)>,
                    KlayError,
                >(pair_view(keys@)) && xkb_keys_sorted(pair_view(keys@)),
                Err(e) => default_keys_spec(files_view(files@), spec_str@, fuel) == Err::<
                    Seq<(Key, OutputView)>,
                    KlayError,
                >(e),
            }
        }),
{
    let ghost fv = files_view(files@);
    let n: usize = files.len();
    let mut total: usize = 0;
    let mut i: usize = 0;
    proof {
        assert(fv.take(0) =~= Seq::<(Seq<char>, LayoutView)>::empty());
        assert(forall|k: int|
            0 <= k < files@.len() ==> fv[k] == ((#[trigger] files@[k]).0@, files@[k].1@));
    }
    while i < n
        invariant
            i <= n,
            n == files@.len(),
            fv == files_view(files@),
            fv.len() == n,
            forall|k: int|
                0 <= k < files@.len() ==> fv[k] == ((#[trigger] files@[k]).0@, files@[k].1@),
            block_count(fv) < usize::MAX,
            total as nat == block_count(fv.take(i as int)),
        decreases n - i,
    {
        let np: usize = files[i].1.partials.len();
        proof {
            assert(fv.take(i + 1).drop_last() =~= fv.take(i as int));
            assert(fv.take(i + 1).last() == fv[i as int]);
            assert(fv[i as int].1.partials.len() == np as nat) by {
                assert(fv[i as int].1.partials == crate::linux::partials_view(
                    files@[i as int].1.partials@,
                ));
            }
            lemma_block_count_prefix(fv, i + 1);
            assert(block_count(fv.take(i + 1)) == total as nat + 1 + np as nat);
        }
        total = total + 1 + np;
        i = i + 1;
    }
    proof {
        assert(fv.take(n as int) =~= fv);
    }
    default_keys(files, spec_str, total + 1)
}

/// The Linux output of one Windows key row: the plain, shift and two
/// AltGr fields carry over, each classified against the dead-key
/// table; the plain Ctrl field is deliberately not carried over.
pub open spec fn convert_output_spec(
    deadkeys: Seq<(char, Seq<(char, char)>)>,
    dead_names: Seq<(char, Seq<char>)>,
    k: KeyView,
) -> OutputView {
    OutputView {
        normal: char_or_dead_spec(deadkeys, dead_names, slot_or_empty(k.normal)),
        shift: char_or_dead_spec(deadkeys, dead_names, slot_or_empty(k.shift)),
        altgr: char_or_dead_spec(deadkeys, dead_names, slot_or_empty(k.ctrl_alt)),
        altgr_shift: char_or_dead_spec(deadkeys, dead_names, slot_or_empty(k.shift_ctrl_alt)),
    }
}

/// Builds the Linux output of one Windows key row.
pub fn convert_output(
    deadkeys: &Vec<(char, Vec<(char, char)>)>,
    dead_names: &Vec<(char, String)>,
    win_key: &crate::klc::Key,
) -> (r: Output)
    ensures
        r@ == convert_output_spec(pair_view(deadkeys@), pair_view(dead_names@), win_key@),
{
    let normal: char = match win_key.normal {
        Some(c) => c,
        None => '\0',
    };
    let shift: char = match win_key.shift {
        Some(c) => c,
        None => '\0',
    };
    let altgr: char = match win_key.ctrl_alt {
        Some(c) => c,
        None => '\0',
    };
    let altgr_shift: char = match win_key.shift_ctrl_alt {
        Some(c) => c,
        None => '\0',
    };
    Output {
        normal: char_or_dead(deadkeys, dead_names, normal),
        shift: char_or_dead(deadkeys, dead_names, shift),
        altgr: char_or_dead(deadkeys, dead_names, altgr),
        altgr_shift: char_or_dead(deadkeys, dead_names, altgr_shift),
    }
}

/// Dead-key propagation: a code point that keys the source's dead-key
/// table and has a resolved name becomes a named dead marker in the
/// converted output, never the literal combining character.
pub proof fn lemma_dead_key_propagation(
    deadkeys: Seq<(char, Seq<(char, char)>)>,
    dead_names: Seq<(char, Seq<char>)>,
    k: KeyView,
    n: Seq<char>,
)
    requires
        k.normal is Some,
        assoc_contains(deadkeys, k.normal->Some_0),
        assoc_get(dead_names, k.normal->Some_0) == Some(n),
    ensures
        convert_output_spec(deadkeys, dead_names, k).normal == CharacterView::Dead(n),
{
}

/// The emitted key rows of a conversion: each scan code must have a
/// Linux key identifier; the converted output merges against the
/// baseline for that identifier, and a key whose merged output equals
/// its baseline is omitted.
pub open spec fn convert_rows(
    defaults: Seq<(Key, OutputView)>,
    deadkeys: Seq<(char, Seq<(char, char)>)>,
    dead_names: Seq<(char, Seq<char>)>,
    rows: Seq<(u8, KeyView)>,
    keys: Seq<(Key, OutputView)>,
) -> Result<Seq<(Key, OutputView)>, KlayError>
    decreases rows.len(),
{
    if rows.len() == 0 {
        Ok(keys)
    } else {
        match win_to_linux_spec(rows.first().0) {
            None => Err(KlayError::UnsupportedScanCode(rows.first().0)),
            Some(kc) => {
                let out = convert_output_spec(deadkeys, dead_names, rows.first().1);
                let keys2 = match assoc_get(defaults, kc) {
                    Some(defout) => if merge_output(out, defout) == defout {
                        keys
                    } else {
                        key_set_spec(keys, kc, merge_output(out, defout))
                    },
                    None => key_set_spec(keys, kc, out),
                };
                convert_rows(defaults, deadkeys, dead_names, rows.drop_first(), keys2)
            },
        }
    }
}

/// What converting a Windows layout yields: one default block named
/// `basic`, inheriting `dk(basic)`, displaying the source layout's
/// name, holding exactly the keys whose merged output differs from the
/// baseline.
pub open spec fn convert_spec(
    defaults: Seq<(Key, OutputView)>,
    dead_names: Seq<(char, Seq<char>)>,
    win: WinKeyLayoutView,
) -> Result<LayoutView, KlayError> {
    match convert_rows(defaults, win.deadkeys, dead_names, win.layout, Seq::empty()) {
        Err(e) => Err(e),
        Ok(keys) => Ok(
            LayoutView {
                default_partial: PartialXkbSymbolsView {
                    name: "basic"@,
                    inherits: Some("dk(basic)"@),
                    name_group1: Some(win.name),
                    keys: keys,
                },
                partials: Seq::empty(),
            },
        ),
    }
}

/// The baseline output of a Linux key identifier.
fn defaults_get(defaults: &Vec<(Key, Output)>, kc: Key) -> (r: Option<Output>)
    ensures
        match r {
            Some(o) => assoc_get(pair_view(defaults@), kc) == Some(o@),
            None => assoc_get(pair_view(defaults@), kc) is None,
        },
{
    proof {
        assert(forall|j: int|
            0 <= j < defaults@.len() ==> (#[trigger] pair_view(defaults@)[j]).0
                == defaults@[j].0);
    }
    let n: usize = defaults.len();
    let mut i: usize = 0;
    while i < n
        invariant
            i <= n,
            n == defaults@.len(),
            forall|j: int| 0 <= j < i ==> (#[trigger] defaults@[j]).0 != kc,
        decreases n - i,
    {
        if defaults[i].0 == kc {
            let r = defaults[i].1.clone();
            proof {
                assert(forall|j: int|
                    0 <= j < defaults@.len() ==> (#[trigger] pair_view(defaults@)[j]).0
                        == defaults@[j].0);
                crate::assoc::lemma_assoc_get_found(pair_view(defaults@), kc, i as int);
            }
            return Some(r);
        }
        i = i + 1;
    }
    proof {
        assert(!assoc_contains(defaults@, kc));
        crate::assoc::lemma_pair_view_contains(defaults@, kc);
        crate::assoc::lemma_assoc_get_absent(pair_view(defaults@), kc);
    }
    None
}

/// Converts a Windows layout to a Linux symbols document, against a
/// resolved baseline and a table of resolved dead-key names, as
/// [`convert_spec`] states. A scan code outside the translation table
/// fails the conversion rather than dropping the key.
pub fn convert_to_xkb(
    win: &WinKeyLayout,
    defaults: &Vec<(Key, Output)>,
    dead_names: &Vec<(char, String)>,
) -> (r: Result<Layout, KlayError>)
    ensures
        match r {
            Ok(l) => convert_spec(pair_view(defaults@), pair_view(dead_names@), win@) == Ok::<
                LayoutView,
                KlayError,
            >(l@) && layout_wf(l@),
            Err(e) => convert_spec(pair_view(defaults@), pair_view(dead_names@), win@) == Err::<
                LayoutView,
                KlayError,
            >(e),
        },
{
    let ghost dv = pair_view(defaults@);
    let ghost dnv = pair_view(dead_names@);
    let ghost dkv = win@.deadkeys;
    let ghost rows = win@.layout;
    let mut keys: Vec<(Key, Output)> = Vec::new();
    let n: usize = win.layout.len();
    let mut i: usize = 0;
    proof {
        assert(rows.skip(0) =~= rows);
        assert(pair_view(keys@) =~= Seq::<(Key, OutputView)>::empty());
    }
    while i < n
        invariant
            i <= n,
            n == win.layout@.len(),
            rows == win@.layout,
            rows.len() == n,
            dv == pair_view(defaults@),
            dnv == pair_view(dead_names@),
            dkv == win@.deadkeys,
            xkb_keys_sorted(pair_view(keys@)),
            convert_rows(dv, dkv, dnv, rows, Seq::<(Key, OutputView)>::empty()) == convert_rows(
                dv,
                dkv,
                dnv,
                rows.skip(i as int),
                pair_view(keys@),
            ),
        decreases n - i,
    {
        proof {
            assert(rows.skip(i as int).first() == rows[i as int]);
            assert(rows[i as int] == (win.layout@[i as int].0, win.layout@[i as int].1@));
            assert(rows.skip(i as int).drop_first() =~= rows.skip(i + 1));
        }
        let sc: u8 = win.layout[i].0;
        let kc = match win_to_linux(sc) {
            Some(kc) => kc,
            None => {
                return Err(KlayError::UnsupportedScanCode(sc));
            },
        };
        let out = convert_output(&win.deadkeys, dead_names, &win.layout[i].1);
        let ghost gout = out;
        match defaults_get(defaults, kc) {
            Some(defout) => {
                let defc = defout.clone();
                let ghost gdefc = defc;
                let merged = out | defc;
                proof {
                    lemma_output_bitor_is_merge(gout, gdefc);
                    assert(merged@ == merge_output(gout@, defout@));
                }
                if merged != defout {
                    let ghost keys_pre = pair_view(keys@);
                    let ghost gmerged = merged;
                    key_set(&mut keys, kc, merged);
                    proof {
                        lemma_key_set_preserves_wf(keys_pre, kc, gmerged@);
                    }
                }
            },
            None => {
                let ghost keys_pre = pair_view(keys@);
                key_set(&mut keys, kc, out);
                proof {
                    lemma_key_set_preserves_wf(keys_pre, kc, gout@);
                }
            },
        }
        i = i + 1;
    }
    proof {
        assert(rows.skip(n as int) =~= Seq::<(u8, KeyView)>::empty());
    }
    let ghost final_keys = pair_view(keys@);
    let mut dp = PartialXkbSymbols::new("basic".to_owned());
    dp.inherits = Some("dk(basic)".to_owned());
    dp.name_group1 = Some(win.name.clone());
    dp.keys = keys;
    let r = Layout { default_partial: dp, partials: Vec::new() };
    proof {
        assert(r@.partials =~= Seq::<PartialXkbSymbolsView>::empty());
        assert(r@.default_partial.keys == final_keys);
        assert(convert_spec(dv, dnv, win@) == Ok::<LayoutView, KlayError>(r@));
    }
    Ok(r)
}

/// Conversion compression: a Windows layout whose every key, merged
/// with its baseline, equals exactly that baseline converts to a block
/// with no explicit keys.
pub proof fn lemma_conversion_compression(
    defaults: Seq<(Key, OutputView)>,
    deadkeys: Seq<(char, Seq<(char, char)>)>,
    dead_names: Seq<(char, Seq<char>)>,
    rows: Seq<(u8, KeyView)>,
)
    requires
        forall|i: int|
            0 <= i < rows.len() ==> {
                let sc = (#[trigger] rows[i]).0;
                &&& win_to_linux_spec(sc) is Some
                &&& assoc_get(defaults, win_to_linux_spec(sc)->Some_0) is Some
                &&& merge_output(
                    convert_output_spec(deadkeys, dead_names, rows[i].1),
                    assoc_get(defaults, win_to_linux_spec(sc)->Some_0)->Some_0,
                ) == assoc_get(defaults, win_to_linux_spec(sc)->Some_0)->Some_0
            },
    ensures
        convert_rows(defaults, deadkeys, dead_names, rows, Seq::<(Key, OutputView)>::empty())
            == Ok::<Seq<(Key, OutputView)>, KlayError>(Seq::<(Key, OutputView)>::empty()),
    decreases rows.len(),
{
    if rows.len() > 0 {
        assert(rows[0] == rows.first());
        assert(forall|i: int|
            0 <= i < rows.drop_first().len() ==> (#[trigger] rows.drop_first()[i]) == rows[i
                + 1]);
        lemma_conversion_compression(defaults, deadkeys, dead_names, rows.drop_first());
    }
}

} // verus!
