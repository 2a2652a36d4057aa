//! The Windows KLC codec: a state machine over tab-delimited,
//! comment-stripped lines, and the serializer that reproduces the
//! section order with fixed field widths.

use vstd::prelude::*;
use crate::KlayError;
use crate::assoc::{assoc_contains, assoc_get, assoc_set, assoc_set_char, assoc_set_u8, assoc_index_char, copy_char_pairs, keys_sorted_u8, lemma_assoc_get_absent, lemma_assoc_get_found, lemma_assoc_set_found, lemma_assoc_set_view, lemma_sorted_set_sorted, lemma_sorted_set_view, pair_view, sorted_set_spec, sorted_set_u8};
use crate::text::{char_from_u32, chars_to_string, parse_hex, parse_hex_spec, parse_dec_u8, parse_dec_u8_spec, push_str, str_eq, hex_pad, push_hex, to_hex};

verus! {

broadcast use vstd::string::group_string_axioms;

/// How the caps-lock key affects a key's output. The values combine as
/// additive bit flags; any other numeric value is a hard parse error.
#[derive(Debug, Copy, Clone, PartialEq, Eq, Structural)]
pub enum CapsLockBehaviour {
    Never,
    ShiftOnCaps,
    ShiftOnCapsAlt,
    ShiftOnCapsAlways,
}

/// The numeric flag value of a caps-lock behaviour.
pub open spec fn cap_num_spec(c: CapsLockBehaviour) -> u8 {
    match c {
        CapsLockBehaviour::Never => 0,
        CapsLockBehaviour::ShiftOnCaps => 1,
        CapsLockBehaviour::ShiftOnCapsAlt => 4,
        CapsLockBehaviour::ShiftOnCapsAlways => 5,
    }
}

/// The caps-lock behaviour a numeric flag value denotes, if any.
pub open spec fn cap_from_num_spec(n: u8) -> Option<CapsLockBehaviour> {
    if n == 0 {
        Some(CapsLockBehaviour::Never)
    } else if n == 1 {
        Some(CapsLockBehaviour::ShiftOnCaps)
    } else if n == 4 {
        Some(CapsLockBehaviour::ShiftOnCapsAlt)
    } else if n == 5 {
        Some(CapsLockBehaviour::ShiftOnCapsAlways)
    } else {
        None
    }
}

impl CapsLockBehaviour {
    /// The numeric flag value of this behaviour.
    pub fn to_num(self) -> (r: u8)
        ensures
            r == cap_num_spec(self),
    {
        match self {
            CapsLockBehaviour::Never => 0,
            CapsLockBehaviour::ShiftOnCaps => 1,
            CapsLockBehaviour::ShiftOnCapsAlt => 4,
            CapsLockBehaviour::ShiftOnCapsAlways => 5,
        }
    }

    /// Reads a behaviour from its numeric flag value; values outside the
    /// closed set are rejected.
    pub fn from_num(n: u8) -> (r: Option<CapsLockBehaviour>)
        ensures
            r == cap_from_num_spec(n),
    {
        if n == 0 {
            Some(CapsLockBehaviour::Never)
        } else if n == 1 {
            Some(CapsLockBehaviour::ShiftOnCaps)
        } else if n == 4 {
            Some(CapsLockBehaviour::ShiftOnCapsAlt)
        } else if n == 5 {
            Some(CapsLockBehaviour::ShiftOnCapsAlways)
        } else {
            None
        }
    }

    /// Combines two behaviours as additive bit flags; a sum outside the
    /// closed set is rejected.
    pub fn combine(self, other: CapsLockBehaviour) -> (r: Option<CapsLockBehaviour>)
        ensures
            r == cap_from_num_spec((cap_num_spec(self) + cap_num_spec(other)) as u8),
    {
        CapsLockBehaviour::from_num(self.to_num() + other.to_num())
    }
}

/// Mathematical model of a [`Key`] row.
pub struct KeyView {
    pub virtual_key: Seq<char>,
    pub cap: CapsLockBehaviour,
    pub normal: Option<char>,
    pub shift: Option<char>,
    pub ctrl: Option<char>,
    pub ctrl_alt: Option<char>,
    pub shift_ctrl_alt: Option<char>,
}

/// One row of the Windows layout table: the virtual-key name, the
/// caps-lock behaviour, and the five raw shift-state outputs. An absent
/// output (the literal `-1`) is `None`, distinct from the empty sentinel
/// used in output merging.
#[derive(Debug, Clone)]
pub struct Key {
    pub virtual_key: String,
    pub cap: CapsLockBehaviour,
    pub normal: Option<char>,
    pub shift: Option<char>,
    pub ctrl: Option<char>,
    pub ctrl_alt: Option<char>,
    pub shift_ctrl_alt: Option<char>,
}

impl View for Key {
    type V = KeyView;

    open spec fn view(&self) -> KeyView {
        KeyView {
            virtual_key: self.virtual_key@,
            cap: self.cap,
            normal: self.normal,
            shift: self.shift,
            ctrl: self.ctrl,
            ctrl_alt: self.ctrl_alt,
            shift_ctrl_alt: self.shift_ctrl_alt,
        }
    }
}

/// Mathematical model of a [`WinKeyLayout`].
pub struct WinKeyLayoutView {
    pub id: Seq<char>,
    pub name: Seq<char>,
    pub copyright: Seq<char>,
    pub company: Seq<char>,
    pub locale_name: Seq<char>,
    pub locale_id: Seq<char>,
    pub version: Seq<char>,
    pub layout: Seq<(u8, KeyView)>,
    pub deadkeys: Seq<(char, Seq<(char, char)>)>,
    pub key_names: Seq<(u8, Seq<char>)>,
    pub key_names_ext: Seq<(u8, Seq<char>)>,
    pub keynames_dead: Seq<(char, Seq<char>)>,
    pub description: Seq<char>,
    pub language_name: Seq<char>,
}

/// A Windows keyboard layout: header metadata, the layout table from
/// scan code to key row, the dead-key composition tables, display-name
/// tables, and the description strings.
#[derive(Debug, Clone)]
pub struct WinKeyLayout {
    pub id: String,
    pub name: String,
    pub copyright: String,
    pub company: String,
    pub locale_name: String,
    pub locale_id: String,
    pub version: String,
    pub layout: Vec<(u8, Key)>,
    pub deadkeys: Vec<(char, Vec<(char, char)>)>,
    pub key_names: Vec<(u8, String)>,
    pub key_names_ext: Vec<(u8, String)>,
    pub keynames_dead: Vec<(char, String)>,
    pub description: String,
    pub language_name: String,
}

impl View for WinKeyLayout {
    type V = WinKeyLayoutView;

    open spec fn view(&self) -> WinKeyLayoutView {
        WinKeyLayoutView {
            id: self.id@,
            name: self.name@,
            copyright: self.copyright@,
            company: self.company@,
            locale_name: self.locale_name@,
            locale_id: self.locale_id@,
            version: self.version@,
            layout: pair_view(self.layout@),
            deadkeys: pair_view(self.deadkeys@),
            key_names: pair_view(self.key_names@),
            key_names_ext: pair_view(self.key_names_ext@),
            keynames_dead: pair_view(self.keynames_dead@),
            description: self.description@,
            language_name: self.language_name@,
        }
    }
}

/// The model of a layout with every field empty.
pub open spec fn empty_win_layout() -> WinKeyLayoutView {
    WinKeyLayoutView {
        id: Seq::empty(),
        name: Seq::empty(),
        copyright: Seq::empty(),
        company: Seq::empty(),
        locale_name: Seq::empty(),
        locale_id: Seq::empty(),
        version: Seq::empty(),
        layout: Seq::empty(),
        deadkeys: Seq::empty(),
        key_names: Seq::empty(),
        key_names_ext: Seq::empty(),
        keynames_dead: Seq::empty(),
        description: Seq::empty(),
        language_name: Seq::empty(),
    }
}

impl WinKeyLayout {
    /// A layout with every field empty.
    pub fn new() -> (r: WinKeyLayout)
        ensures
            r@ == empty_win_layout(),
    {
        let r = WinKeyLayout {
            id: String::new(),
            name: String::new(),
            copyright: String::new(),
            company: String::new(),
            locale_name: String::new(),
            locale_id: String::new(),
            version: String::new(),
            layout: Vec::new(),
            deadkeys: Vec::new(),
            key_names: Vec::new(),
            key_names_ext: Vec::new(),
            keynames_dead: Vec::new(),
            description: String::new(),
            language_name: String::new(),
        };
        proof {
            assert(r@.layout =~= empty_win_layout().layout);
            assert(r@.deadkeys =~= empty_win_layout().deadkeys);
            assert(r@.key_names =~= empty_win_layout().key_names);
            assert(r@.key_names_ext =~= empty_win_layout().key_names_ext);
            assert(r@.keynames_dead =~= empty_win_layout().keynames_dead);
        }
        r
    }
}

/// What a character field means: the literal `-1` is an absent output;
/// anything else is a hexadecimal code point, with a trailing `@`
/// (marking a composing character) stripped first. A field that is not
/// a code point violates the row grammar.
pub open spec fn read_char_spec(s: Seq<char>) -> Result<Option<char>, KlayError> {
    if s.len() == 2 && s[0] == '-' && s[1] == '1' {
        Ok(None)
    } else {
        let t = if s.len() > 0 && s.last() == '@' {
            s.drop_last()
        } else {
            s
        };
        match parse_hex_spec(t) {
            Some(u) => if u < 0xD800 || (0xE000 <= u && u <= 0x10FFFF) {
                Ok(Some(u as char))
            } else {
                Err(KlayError::MalformedSection)
            },
            None => Err(KlayError::MalformedSection),
        }
    }
}

/// Reads a character field of a layout or dead-key row.
pub fn read_char(s: &str) -> (r: Result<Option<char>, KlayError>)
    ensures
        r == read_char_spec(s@),
{
    let n: usize = s.unicode_len();
    if n == 2 && s.get_char(0) == '-' && s.get_char(1) == '1' {
        return Ok(None);
    }
    let t: &str = if n > 0 && s.get_char(n - 1) == '@' {
        s.substring_char(0, n - 1)
    } else {
        s
    };
    proof {
        if n > 0 && s@.last() == '@' {
            assert(t@ =~= s@.drop_last());
        }
    }
    match parse_hex(t) {
        Some(u) => {
            if u < 0xD800 || (0xE000 <= u && u <= 0x10FFFF) {
                match char_from_u32(u) {
                    Some(c) => {
                        proof {
                            vstd::utf8::char_u32_cast(c, u);
                        }
                        Ok(Some(c))
                    },
                    None => {
                        proof {
                            assert(false);
                        }
                        Err(KlayError::MalformedSection)
                    },
                }
            } else {
                Err(KlayError::MalformedSection)
            }
        },
        None => Err(KlayError::MalformedSection),
    }
}

/// What a scan-code field means: a hexadecimal byte.
pub open spec fn read_hb_spec(s: Seq<char>) -> Option<u8> {
    match parse_hex_spec(s) {
        Some(u) => if u <= 0xFF {
            Some(u as u8)
        } else {
            None
        },
        None => None,
    }
}

/// Reads a scan-code field: a hexadecimal byte.
pub fn read_hb(s: &str) -> (r: Option<u8>)
    ensures
        r == read_hb_spec(s@),
{
    match parse_hex(s) {
        Some(u) => if u <= 0xFF {
            Some(u as u8)
        } else {
            None
        },
        None => None,
    }
}

/// What stripping surrounding quotes means: both present, both removed.
pub open spec fn st_spec(s: Seq<char>) -> Seq<char> {
    if s.len() >= 2 && s[0] == '"' && s.last() == '"' {
        s.subrange(1, s.len() - 1)
    } else {
        s
    }
}

/// Strips one pair of surrounding double quotes, where both are there.
pub fn st(s: &str) -> (r: String)
    ensures
        r@ == st_spec(s@),
{
    let n: usize = s.unicode_len();
    if n >= 2 && s.get_char(0) == '"' && s.get_char(n - 1) == '"' {
        let t = s.substring_char(1, n - 1);
        t.to_owned()
    } else {
        s.to_owned()
    }
}

/// The white-space characters the quoting rule looks for: the Unicode
/// white-space code points.
pub open spec fn is_white_space(c: char) -> bool {
    c == ' ' || c == '\t' || c == '\n' || c == '\u{B}' || c == '\u{C}' || c == '\r' || c
        == '\u{85}' || c == '\u{A0}' || c == '\u{1680}' || ('\u{2000}' <= c && c <= '\u{200A}')
        || c == '\u{2028}' || c == '\u{2029}' || c == '\u{202F}' || c == '\u{205F}' || c
        == '\u{3000}'
}

/// Whether one character is white space, by the same class.
fn white_space(c: char) -> (r: bool)
    ensures
        r == is_white_space(c),
{
    c == ' ' || c == '\t' || c == '\n' || c == '\u{B}' || c == '\u{C}' || c == '\r' || c
        == '\u{85}' || c == '\u{A0}' || c == '\u{1680}' || ('\u{2000}' <= c && c <= '\u{200A}')
        || c == '\u{2028}' || c == '\u{2029}' || c == '\u{202F}' || c == '\u{205F}' || c
        == '\u{3000}'
}

/// What quoting a display name means: surrounded with double quotes
/// when it holds whitespace, kept as it is otherwise.
pub open spec fn quote_multi_spec(s: Seq<char>) -> Seq<char> {
    if exists|i: int| 0 <= i < s.len() && is_white_space(#[trigger] s[i]) {
        seq!['"'] + s + seq!['"']
    } else {
        s
    }
}

/// Quotes a display name that holds whitespace.
pub fn quote_multi(s: &str) -> (r: String)
    ensures
        r@ == quote_multi_spec(s@),
{
    let n: usize = s.unicode_len();
    let mut i: usize = 0;
    let mut has_space: bool = false;
    while i < n
        invariant
            i <= n,
            n == s@.len(),
            has_space == exists|j: int| 0 <= j < i && is_white_space(#[trigger] s@[j]),
        decreases n - i,
    {
        let c = s.get_char(i);
        if white_space(c) {
            has_space = true;
        }
        i = i + 1;
    }
    if has_space {
        let mut out: Vec<char> = Vec::new();
        out.push('"');
        push_str(&mut out, s);
        out.push('"');
        let r = chars_to_string(&out);
        proof {
            assert(r@ =~= quote_multi_spec(s@));
        }
        r
    } else {
        s.to_owned()
    }
}

/// The fields of a line, split at every tab character.
pub open spec fn split_tab(s: Seq<char>) -> Seq<Seq<char>>
    decreases s.len(),
{
    if s.len() == 0 {
        seq![Seq::<char>::empty()]
    } else if s.first() == '\t' {
        seq![Seq::<char>::empty()] + split_tab(s.drop_first())
    } else {
        let rest = split_tab(s.drop_first());
        seq![seq![s.first()] + rest.first()] + rest.drop_first()
    }
}

/// Splitting yields at least one field.
proof fn lemma_split_tab_nonempty(s: Seq<char>)
    ensures
        split_tab(s).len() >= 1,
    decreases s.len(),
{
    if s.len() > 0 && s.first() != '\t' {
        lemma_split_tab_nonempty(s.drop_first());
    }
}

/// A field that opens a comment: `//` or `;`.
pub open spec fn is_comment_tok(t: Seq<char>) -> bool {
    (t.len() >= 2 && t[0] == '/' && t[1] == '/') || (t.len() >= 1 && t[0] == ';')
}

/// The fields before the first comment field.
pub open spec fn keep_until_comment(ts: Seq<Seq<char>>) -> Seq<Seq<char>>
    decreases ts.len(),
{
    if ts.len() == 0 {
        Seq::empty()
    } else if is_comment_tok(ts.first()) {
        Seq::empty()
    } else {
        seq![ts.first()] + keep_until_comment(ts.drop_first())
    }
}

/// The fields with the empty ones dropped.
pub open spec fn drop_empty(ts: Seq<Seq<char>>) -> Seq<Seq<char>>
    decreases ts.len(),
{
    if ts.len() == 0 {
        Seq::empty()
    } else if ts.first().len() == 0 {
        drop_empty(ts.drop_first())
    } else {
        seq![ts.first()] + drop_empty(ts.drop_first())
    }
}

/// The arguments of a line: its tab-separated fields, cut at the first
/// comment field, with empty fields dropped.
pub open spec fn line_args_spec(s: Seq<char>) -> Seq<Seq<char>> {
    drop_empty(keep_until_comment(split_tab(s)))
}

/// The remaining fields with the gathered prefix joined onto the first.
spec fn prepend_first(p: Seq<char>, ts: Seq<Seq<char>>) -> Seq<Seq<char>>
    recommends
        ts.len() >= 1,
{
    seq![p + ts.first()] + ts.drop_first()
}

/// Splits a line at every tab character.
fn tokenize(s: &str) -> (r: Vec<String>)
    ensures
        r.deep_view() == split_tab(s@),
{
    let n: usize = s.unicode_len();
    let mut tokens: Vec<String> = Vec::new();
    let mut cur: Vec<char> = Vec::new();
    let mut i: usize = 0;
    proof {
        lemma_split_tab_nonempty(s@);
        assert(s@.skip(0) =~= s@);
        assert(prepend_first(cur@, split_tab(s@.skip(0))) =~~= split_tab(s@));
        assert(tokens.deep_view() + prepend_first(cur@, split_tab(s@.skip(0))) =~~= split_tab(
            s@,
        ));
    }
    while i < n
        invariant
            i <= n,
            n == s@.len(),
            split_tab(s@.skip(i as int)).len() >= 1,
            tokens.deep_view() + prepend_first(cur@, split_tab(s@.skip(i as int))) =~~= split_tab(
                s@,
            ),
        decreases n - i,
    {
        let c = s.get_char(i);
        let ghost tail = s@.skip(i as int);
        proof {
            assert(tail.first() == c);
            assert(tail.drop_first() =~= s@.skip(i + 1));
            lemma_split_tab_nonempty(s@.skip(i + 1));
        }
        if c == '\t' {
            let ghost toks_pre = tokens.deep_view();
            tokens.push(chars_to_string(&cur));
            cur = Vec::new();
            proof {
                assert(tokens.deep_view() =~~= toks_pre.push(tokens@.last()@));
                assert(tokens.deep_view() + prepend_first(cur@, split_tab(s@.skip(i + 1)))
                    =~~= split_tab(s@));
            }
        } else {
            cur.push(c);
            proof {
                assert(tokens.deep_view() + prepend_first(cur@, split_tab(s@.skip(i + 1)))
                    =~~= split_tab(s@));
            }
        }
        i = i + 1;
    }
    proof {
        assert(s@.skip(n as int) =~= Seq::<char>::empty());
    }
    let ghost toks_pre = tokens.deep_view();
    tokens.push(chars_to_string(&cur));
    proof {
        assert(tokens.deep_view() =~~= toks_pre.push(tokens@.last()@));
        assert(tokens.deep_view() =~~= split_tab(s@));
    }
    tokens
}

/// Whether a field opens a comment.
fn is_comment_field(t: &str) -> (r: bool)
    ensures
        r == is_comment_tok(t@),
{
    let n: usize = t.unicode_len();
    if n >= 2 && t.get_char(0) == '/' && t.get_char(1) == '/' {
        true
    } else if n >= 1 && t.get_char(0) == ';' {
        true
    } else {
        false
    }
}

/// The arguments of a line: its tab-separated fields, cut at the first
/// comment field, with empty fields dropped.
pub fn line_args(s: &str) -> (r: Vec<String>)
    ensures
        r.deep_view() == line_args_spec(s@),
{
    let tokens = tokenize(s);
    let ghost tv = tokens.deep_view();
    let mut args: Vec<String> = Vec::new();
    let mut j: usize = 0;
    proof {
        assert(tv.skip(0) =~~= tv);
        assert(args.deep_view() + drop_empty(keep_until_comment(tv.skip(0))) =~~= line_args_spec(
            s@,
        ));
    }
    while j < tokens.len()
        invariant
            j <= tokens@.len(),
            tv == tokens.deep_view(),
            tv.len() == tokens@.len(),
            args.deep_view() + drop_empty(keep_until_comment(tv.skip(j as int)))
                =~~= line_args_spec(s@),
        decreases tokens@.len() - j,
    {
        let ghost tail = tv.skip(j as int);
        proof {
            assert(tail.first() == tv[j as int]);
            assert(tv[j as int] == tokens@[j as int]@);
            assert(tail.drop_first() =~= tv.skip(j + 1));
        }
        if is_comment_field(tokens[j].as_str()) {
            proof {
                assert(keep_until_comment(tail) =~~= Seq::<Seq<char>>::empty());
                assert(args.deep_view() =~~= line_args_spec(s@));
            }
            return args;
        }
        if tokens[j].as_str().unicode_len() > 0 {
            let ghost args_pre = args.deep_view();
            args.push(tokens[j].clone());
            proof {
                let ku = keep_until_comment(tail);
                assert(args.deep_view() =~~= args_pre.push(args@.last()@));
                assert(ku == seq![tail.first()] + keep_until_comment(tail.drop_first()));
                assert(ku.first() == tail.first());
                assert(ku.drop_first() =~= keep_until_comment(tv.skip(j + 1)));
                assert(ku.first().len() > 0);
                assert(drop_empty(ku) == seq![ku.first()] + drop_empty(ku.drop_first()));
                assert(args.deep_view() + drop_empty(keep_until_comment(tv.skip(j + 1)))
                    =~~= line_args_spec(s@));
            }
        } else {
            proof {
                let ku = keep_until_comment(tail);
                assert(ku == seq![tail.first()] + keep_until_comment(tail.drop_first()));
                assert(ku.first() == tail.first());
                assert(ku.drop_first() =~= keep_until_comment(tv.skip(j + 1)));
                assert(ku.first().len() == 0);
                assert(drop_empty(ku) == drop_empty(ku.drop_first()));
            }
        }
        j = j + 1;
    }
    proof {
        assert(tv.skip(tv.len() as int) =~~= Seq::<Seq<char>>::empty());
        assert(args.deep_view() =~~= line_args_spec(s@));
    }
    args
}


/// The section a parsed line belongs to. The parser starts outside any
/// section.
#[derive(Debug, Copy, Clone, PartialEq, Eq, Structural)]
pub enum Table {
    Unset,
    Attributes,
    ShiftState,
    LayoutTable,
    Deadkey(char),
    Keyname,
    KeynameExt,
    KeynameDead,
    Descriptions,
    LanguageNames,
}

/// A well-formed layout keeps its table rows sorted by scan code.
pub open spec fn win_wf(v: WinKeyLayoutView) -> bool {
    keys_sorted_u8(v.layout)
}

/// What one non-empty, non-terminating line does to the parser state:
/// header keys set their field in any section, section keywords switch
/// the section, and any other line is a row of the active section.
pub open spec fn klc_step(t: Table, st: WinKeyLayoutView, args: Seq<Seq<char>>) -> Result<
    (Table, WinKeyLayoutView),
    KlayError,
>
    recommends
        args.len() >= 1,
{
    if args[0] == "ATTRIBUTES"@ {
        Ok((Table::Attributes, st))
    } else if args[0] == "SHIFTSTATE"@ {
        Ok((Table::ShiftState, st))
    } else if args[0] == "LAYOUT"@ {
        Ok((Table::LayoutTable, st))
    } else if args[0] == "DEADKEY"@ {
        if args.len() < 2 {
            Err(KlayError::MalformedSection)
        } else {
            match read_char_spec(args[1]) {
                Ok(oc) => match oc {
                    Some(c) => Ok(
                        (
                            Table::Deadkey(c),
                            WinKeyLayoutView {
                                deadkeys: assoc_set(st.deadkeys, c, Seq::<(char, char)>::empty()),
                                ..st
                            },
                        ),
                    ),
                    None => Err(KlayError::MalformedSection),
                },
                Err(_) => Err(KlayError::MalformedSection),
            }
        }
    } else if args[0] == "KEYNAME"@ {
        Ok((Table::Keyname, st))
    } else if args[0] == "KEYNAME_EXT"@ {
        Ok((Table::KeynameExt, st))
    } else if args[0] == "KEYNAME_DEAD"@ {
        Ok((Table::KeynameDead, st))
    } else if args[0] == "DESCRIPTIONS"@ {
        Ok((Table::Descriptions, st))
    } else if args[0] == "LANGUAGENAMES"@ {
        Ok((Table::LanguageNames, st))
    } else if args[0] == "KBD"@ {
        if args.len() < 3 {
            Err(KlayError::MalformedSection)
        } else {
            Ok((t, WinKeyLayoutView { id: args[1], name: st_spec(args[2]), ..st }))
        }
    } else if args[0] == "COPYRIGHT"@ {
        if args.len() < 2 {
            Err(KlayError::MalformedSection)
        } else {
            Ok((t, WinKeyLayoutView { copyright: st_spec(args[1]), ..st }))
        }
    } else if args[0] == "COMPANY"@ {
        if args.len() < 2 {
            Err(KlayError::MalformedSection)
        } else {
            Ok((t, WinKeyLayoutView { company: st_spec(args[1]), ..st }))
        }
    } else if args[0] == "LOCALENAME"@ {
        if args.len() < 2 {
            Err(KlayError::MalformedSection)
        } else {
            Ok((t, WinKeyLayoutView { locale_name: st_spec(args[1]), ..st }))
        }
    } else if args[0] == "LOCALEID"@ {
        if args.len() < 2 {
            Err(KlayError::MalformedSection)
        } else {
            Ok((t, WinKeyLayoutView { locale_id: st_spec(args[1]), ..st }))
        }
    } else if args[0] == "VERSION"@ {
        if args.len() < 2 {
            Err(KlayError::MalformedSection)
        } else {
            Ok((t, WinKeyLayoutView { version: args[1], ..st }))
        }
    } else {
        match t {
            Table::Unset => Err(KlayError::UnknownSectionKeyword),
            Table::Attributes => Ok((t, st)),
            Table::ShiftState => Ok((t, st)),
            Table::LayoutTable => klc_layout_row(t, st, args),
            Table::Deadkey(c) => klc_deadkey_row(t, st, args, c),
            Table::Keyname => klc_name_row(t, st, args, false),
            Table::KeynameExt => klc_name_row(t, st, args, true),
            Table::KeynameDead => klc_dead_name_row(t, st, args),
            Table::Descriptions => if args.len() < 2 {
                Err(KlayError::MalformedSection)
            } else {
                Ok((t, WinKeyLayoutView { description: args[1], ..st }))
            },
            Table::LanguageNames => if args.len() < 2 {
                Err(KlayError::MalformedSection)
            } else {
                Ok((t, WinKeyLayoutView { language_name: args[1], ..st }))
            },
        }
    }
}

/// A row of the layout section: scan code, virtual key, caps-lock flag
/// and five character fields.
pub open spec fn klc_layout_row(t: Table, st: WinKeyLayoutView, args: Seq<Seq<char>>) -> Result<
    (Table, WinKeyLayoutView),
    KlayError,
> {
    if args.len() < 8 {
        Err(KlayError::MalformedSection)
    } else {
        match read_hb_spec(args[0]) {
            None => Err(KlayError::MalformedSection),
            Some(sc) => match parse_dec_u8_spec(args[2]) {
                None => Err(KlayError::MalformedSection),
                Some(n) => match cap_from_num_spec(n) {
                    None => Err(KlayError::MalformedSection),
                    Some(cap) => if read_char_spec(args[3]) is Err || read_char_spec(args[4])
                        is Err || read_char_spec(args[5]) is Err || read_char_spec(args[6]) is Err
                        || read_char_spec(args[7]) is Err {
                        Err(KlayError::MalformedSection)
                    } else {
                        let key = KeyView {
                            virtual_key: args[1],
                            cap: cap,
                            normal: read_char_spec(args[3])->Ok_0,
                            shift: read_char_spec(args[4])->Ok_0,
                            ctrl: read_char_spec(args[5])->Ok_0,
                            ctrl_alt: read_char_spec(args[6])->Ok_0,
                            shift_ctrl_alt: read_char_spec(args[7])->Ok_0,
                        };
                        Ok(
                            (
                                t,
                                WinKeyLayoutView {
                                    layout: sorted_set_spec(st.layout, sc, key),
                                    ..st
                                },
                            ),
                        )
                    },
                },
            },
        }
    }
}

/// A row of an active dead-key section: a combining code point and the
/// code point the composition yields.
pub open spec fn klc_deadkey_row(
    t: Table,
    st: WinKeyLayoutView,
    args: Seq<Seq<char>>,
    c: char,
) -> Result<(Table, WinKeyLayoutView), KlayError> {
    if args.len() < 2 {
        Err(KlayError::MalformedSection)
    } else {
        match (read_char_spec(args[0]), read_char_spec(args[1])) {
            (Ok(Some(from)), Ok(Some(to))) => match assoc_get(st.deadkeys, c) {
                None => Err(KlayError::MalformedSection),
                Some(inner) => Ok(
                    (
                        t,
                        WinKeyLayoutView {
                            deadkeys: assoc_set(st.deadkeys, c, assoc_set(inner, from, to)),
                            ..st
                        },
                    ),
                ),
            },
            _ => Err(KlayError::MalformedSection),
        }
    }
}

/// A row of a key-name section: a scan code and a display name.
pub open spec fn klc_name_row(
    t: Table,
    st: WinKeyLayoutView,
    args: Seq<Seq<char>>,
    ext: bool,
) -> Result<(Table, WinKeyLayoutView), KlayError> {
    if args.len() < 2 {
        Err(KlayError::MalformedSection)
    } else {
        match read_hb_spec(args[0]) {
            None => Err(KlayError::MalformedSection),
            Some(sc) => if ext {
                Ok(
                    (
                        t,
                        WinKeyLayoutView {
                            key_names_ext: assoc_set(st.key_names_ext, sc, st_spec(args[1])),
                            ..st
                        },
                    ),
                )
            } else {
                Ok(
                    (
                        t,
                        WinKeyLayoutView {
                            key_names: assoc_set(st.key_names, sc, st_spec(args[1])),
                            ..st
                        },
                    ),
                )
            },
        }
    }
}

/// A row of the dead-key-name section: a code point and a display name.
pub open spec fn klc_dead_name_row(t: Table, st: WinKeyLayoutView, args: Seq<Seq<char>>) -> Result<
    (Table, WinKeyLayoutView),
    KlayError,
> {
    if args.len() < 2 {
        Err(KlayError::MalformedSection)
    } else {
        match read_char_spec(args[0]) {
            Ok(Some(c)) => Ok(
                (
                    t,
                    WinKeyLayoutView {
                        keynames_dead: assoc_set(st.keynames_dead, c, st_spec(args[1])),
                        ..st
                    },
                ),
            ),
            _ => Err(KlayError::MalformedSection),
        }
    }
}

/// What the whole line sequence parses to: lines fold through the step
/// function; empty lines are skipped and `ENDKBD` ends parsing at once.
pub open spec fn klc_fold(lines: Seq<Seq<char>>, t: Table, st: WinKeyLayoutView) -> Result<
    WinKeyLayoutView,
    KlayError,
>
    decreases lines.len(),
{
    if lines.len() == 0 {
        Ok(st)
    } else {
        let args = line_args_spec(lines.first());
        if args.len() == 0 {
            klc_fold(lines.drop_first(), t, st)
        } else if args[0] == "ENDKBD"@ {
            Ok(st)
        } else {
            match klc_step(t, st, args) {
                Ok(p) => klc_fold(lines.drop_first(), p.0, p.1),
                Err(e) => Err(e),
            }
        }
    }
}

/// What a KLC document's lines parse to, from the initial state.
pub open spec fn klc_parse_spec(lines: Seq<Seq<char>>) -> Result<WinKeyLayoutView, KlayError> {
    klc_fold(lines, Table::Unset, empty_win_layout())
}


impl WinKeyLayout {
    /// Applies one non-empty, non-terminating line to the layout being
    /// built, returning the next section state.
    fn apply_line(&mut self, t: Table, args: &Vec<String>) -> (r: Result<Table, KlayError>)
        requires
            args@.len() >= 1,
            win_wf(old(self)@),
        ensures
            win_wf(final(self)@),
            match r {
                Ok(t2) => klc_step(t, old(self)@, args.deep_view()) == Ok::<
                    (Table, WinKeyLayoutView),
                    KlayError,
                >((t2, final(self)@)),
                Err(e) => klc_step(t, old(self)@, args.deep_view()) == Err::<
                    (Table, WinKeyLayoutView),
                    KlayError,
                >(e) && *final(self) == *old(self),
            },
    {
        let ghost adv = args.deep_view();
        proof {
            assert(forall|i: int| 0 <= i < args@.len() ==> adv[i] == (#[trigger] args@[i])@);
        }
        let a0 = args[0].as_str();
        if str_eq(a0, "ATTRIBUTES") {
            Ok(Table::Attributes)
        } else if str_eq(a0, "SHIFTSTATE") {
            Ok(Table::ShiftState)
        } else if str_eq(a0, "LAYOUT") {
            Ok(Table::LayoutTable)
        } else if str_eq(a0, "DEADKEY") {
            if args.len() < 2 {
                return Err(KlayError::MalformedSection);
            }
            let c = match read_char(args[1].as_str()) {
                Ok(Some(c)) => c,
                _ => {
                    return Err(KlayError::MalformedSection);
                },
            };
            let ghost dk_pre = self.deadkeys@;
            let empty_tab: Vec<(char, char)> = Vec::new();
            let ghost ev = empty_tab;
            assoc_set_char(&mut self.deadkeys, c, empty_tab);
            proof {
                lemma_assoc_set_view(dk_pre, c, ev);
                assert(ev@ =~= Seq::<(char, char)>::empty());
                assert(self@ =~= WinKeyLayoutView {
                    deadkeys: assoc_set(old(self)@.deadkeys, c, Seq::<(char, char)>::empty()),
                    ..old(self)@
                });
            }
            Ok(Table::Deadkey(c))
        } else if str_eq(a0, "KEYNAME") {
            Ok(Table::Keyname)
        } else if str_eq(a0, "KEYNAME_EXT") {
            Ok(Table::KeynameExt)
        } else if str_eq(a0, "KEYNAME_DEAD") {
            Ok(Table::KeynameDead)
        } else if str_eq(a0, "DESCRIPTIONS") {
            Ok(Table::Descriptions)
        } else if str_eq(a0, "LANGUAGENAMES") {
            Ok(Table::LanguageNames)
        } else if str_eq(a0, "KBD") {
            if args.len() < 3 {
                return Err(KlayError::MalformedSection);
            }
            self.id = args[1].clone();
            self.name = st(args[2].as_str());
            Ok(t)
        } else if str_eq(a0, "COPYRIGHT") {
            if args.len() < 2 {
                return Err(KlayError::MalformedSection);
            }
            self.copyright = st(args[1].as_str());
            Ok(t)
        } else if str_eq(a0, "COMPANY") {
            if args.len() < 2 {
                return Err(KlayError::MalformedSection);
            }
            self.company = st(args[1].as_str());
            Ok(t)
        } else if str_eq(a0, "LOCALENAME") {
            if args.len() < 2 {
                return Err(KlayError::MalformedSection);
            }
            self.locale_name = st(args[1].as_str());
            Ok(t)
        } else if str_eq(a0, "LOCALEID") {
            if args.len() < 2 {
                return Err(KlayError::MalformedSection);
            }
            self.locale_id = st(args[1].as_str());
            Ok(t)
        } else if str_eq(a0, "VERSION") {
            if args.len() < 2 {
                return Err(KlayError::MalformedSection);
            }
            self.version = args[1].clone();
            Ok(t)
        } else {
            match t {
                Table::Unset => Err(KlayError::UnknownSectionKeyword),
                Table::Attributes => Ok(t),
                Table::ShiftState => Ok(t),
                Table::LayoutTable => {
                    if args.len() < 8 {
                        return Err(KlayError::MalformedSection);
                    }
                    let sc = match read_hb(args[0].as_str()) {
                        Some(sc) => sc,
                        None => {
                            return Err(KlayError::MalformedSection);
                        },
                    };
                    let capn = match parse_dec_u8(args[2].as_str()) {
                        Some(n) => n,
                        None => {
                            return Err(KlayError::MalformedSection);
                        },
                    };
                    let cap = match CapsLockBehaviour::from_num(capn) {
                        Some(cap) => cap,
                        None => {
                            return Err(KlayError::MalformedSection);
                        },
                    };
                    let normal = match read_char(args[3].as_str()) {
                        Ok(v) => v,
                        Err(_) => {
                            return Err(KlayError::MalformedSection);
                        },
                    };
                    let shift = match read_char(args[4].as_str()) {
                        Ok(v) => v,
                        Err(_) => {
                            return Err(KlayError::MalformedSection);
                        },
                    };
                    let ctrl = match read_char(args[5].as_str()) {
                        Ok(v) => v,
                        Err(_) => {
                            return Err(KlayError::MalformedSection);
                        },
                    };
                    let ctrl_alt = match read_char(args[6].as_str()) {
                        Ok(v) => v,
                        Err(_) => {
                            return Err(KlayError::MalformedSection);
                        },
                    };
                    let shift_ctrl_alt = match read_char(args[7].as_str()) {
                        Ok(v) => v,
                        Err(_) => {
                            return Err(KlayError::MalformedSection);
                        },
                    };
                    let key = Key {
                        virtual_key: args[1].clone(),
                        cap,
                        normal,
                        shift,
                        ctrl,
                        ctrl_alt,
                        shift_ctrl_alt,
                    };
                    let ghost lay_pre = self.layout@;
                    let ghost gkey = key;
                    let ghost keyv = key@;
                    sorted_set_u8(&mut self.layout, sc, key);
                    proof {
                        lemma_sorted_set_view(lay_pre, sc, gkey);
                    }
                    proof {
                        let kv = KeyView {
                            virtual_key: adv[1],
                            cap: cap,
                            normal: read_char_spec(adv[3])->Ok_0,
                            shift: read_char_spec(adv[4])->Ok_0,
                            ctrl: read_char_spec(adv[5])->Ok_0,
                            ctrl_alt: read_char_spec(adv[6])->Ok_0,
                            shift_ctrl_alt: read_char_spec(adv[7])->Ok_0,
                        };
                        assert(keyv == kv);
                        lemma_sorted_set_sorted(pair_view(lay_pre), sc, keyv);
                        assert(self@ =~= WinKeyLayoutView {
                            layout: sorted_set_spec(old(self)@.layout, sc, kv),
                            ..old(self)@
                        });
                    }
                    Ok(t)
                },
                Table::Deadkey(c) => {
                    if args.len() < 2 {
                        return Err(KlayError::MalformedSection);
                    }
                    let from = match read_char(args[0].as_str()) {
                        Ok(Some(v)) => v,
                        _ => {
                            return Err(KlayError::MalformedSection);
                        },
                    };
                    let to = match read_char(args[1].as_str()) {
                        Ok(Some(v)) => v,
                        _ => {
                            return Err(KlayError::MalformedSection);
                        },
                    };
                    let idx = match assoc_index_char(&self.deadkeys, c) {
                        Some(i) => i,
                        None => {
                            proof {
                                assert(forall|j: int|
                                    0 <= j < self@.deadkeys.len() ==> (
                                    #[trigger] self@.deadkeys[j]).0 == self.deadkeys@[j].0);
                                assert(!assoc_contains(self@.deadkeys, c));
                                lemma_assoc_get_absent(self@.deadkeys, c);
                            }
                            return Err(KlayError::MalformedSection);
                        },
                    };
                    let ghost dk_pre = self.deadkeys@;
                    let ghost dkv_pre = self@.deadkeys;
                    let mut inner = copy_char_pairs(&self.deadkeys[idx].1);
                    let ghost inner_pre = inner@;
                    assoc_set_char(&mut inner, from, to);
                    self.deadkeys.set(idx, (c, inner));
                    proof {
                        assert(forall|j: int|
                            0 <= j < dkv_pre.len() ==> (#[trigger] dkv_pre[j]).0 == dk_pre[j].0);
                        lemma_assoc_get_found(dkv_pre, c, idx as int);
                        assert(assoc_get(dkv_pre, c) == Some(inner_pre));
                        lemma_assoc_set_found(
                            dkv_pre,
                            c,
                            assoc_set(inner_pre, from, to),
                            idx as int,
                        );
                        assert(pair_view(self.deadkeys@) =~= dkv_pre.update(
                            idx as int,
                            (c, assoc_set(inner_pre, from, to)),
                        ));
                        assert(self@ =~= WinKeyLayoutView {
                            deadkeys: assoc_set(
                                old(self)@.deadkeys,
                                c,
                                assoc_set(inner_pre, from, to),
                            ),
                            ..old(self)@
                        });
                    }
                    Ok(t)
                },
                Table::Keyname => {
                    if args.len() < 2 {
                        return Err(KlayError::MalformedSection);
                    }
                    let sc = match read_hb(args[0].as_str()) {
                        Some(sc) => sc,
                        None => {
                            return Err(KlayError::MalformedSection);
                        },
                    };
                    let ghost kn_pre = self.key_names@;
                    let v = st(args[1].as_str());
                    let ghost gv = v;
                    assoc_set_u8(&mut self.key_names, sc, v);
                    proof {
                        lemma_assoc_set_view(kn_pre, sc, gv);
                        assert(self@ =~= WinKeyLayoutView {
                            key_names: assoc_set(old(self)@.key_names, sc, st_spec(adv[1])),
                            ..old(self)@
                        });
                    }
                    Ok(t)
                },
                Table::KeynameExt => {
                    if args.len() < 2 {
                        return Err(KlayError::MalformedSection);
                    }
                    let sc = match read_hb(args[0].as_str()) {
                        Some(sc) => sc,
                        None => {
                            return Err(KlayError::MalformedSection);
                        },
                    };
                    let ghost kn_pre = self.key_names_ext@;
                    let v = st(args[1].as_str());
                    let ghost gv = v;
                    assoc_set_u8(&mut self.key_names_ext, sc, v);
                    proof {
                        lemma_assoc_set_view(kn_pre, sc, gv);
                        assert(self@ =~= WinKeyLayoutView {
                            key_names_ext: assoc_set(old(self)@.key_names_ext, sc, st_spec(adv[1])),
                            ..old(self)@
                        });
                    }
                    Ok(t)
                },
                Table::KeynameDead => {
                    if args.len() < 2 {
                        return Err(KlayError::MalformedSection);
                    }
                    let c = match read_char(args[0].as_str()) {
                        Ok(Some(v)) => v,
                        _ => {
                            return Err(KlayError::MalformedSection);
                        },
                    };
                    let ghost kn_pre = self.keynames_dead@;
                    let v = st(args[1].as_str());
                    let ghost gv = v;
                    assoc_set_char(&mut self.keynames_dead, c, v);
                    proof {
                        lemma_assoc_set_view(kn_pre, c, gv);
                        assert(self@ =~= WinKeyLayoutView {
                            keynames_dead: assoc_set(old(self)@.keynames_dead, c, st_spec(adv[1])),
                            ..old(self)@
                        });
                    }
                    Ok(t)
                },
                Table::Descriptions => {
                    if args.len() < 2 {
                        return Err(KlayError::MalformedSection);
                    }
                    self.description = args[1].clone();
                    Ok(t)
                },
                Table::LanguageNames => {
                    if args.len() < 2 {
                        return Err(KlayError::MalformedSection);
                    }
                    self.language_name = args[1].clone();
                    Ok(t)
                },
            }
        }
    }

    /// Parses the lines of a KLC document: a state machine over
    /// tab-delimited, trimmed, comment-stripped lines, with one current
    /// section, as [`klc_parse_spec`] states.
    pub fn parse(lines: &Vec<String>) -> (r: Result<WinKeyLayout, KlayError>)
        ensures
            match r {
                Ok(l) => klc_parse_spec(lines.deep_view()) == Ok::<WinKeyLayoutView, KlayError>(l@)
                    && win_wf(l@),
                Err(e) => klc_parse_spec(lines.deep_view()) == Err::<WinKeyLayoutView, KlayError>(
                    e,
                ),
            },
    {
        let ghost ldv = lines.deep_view();
        let mut ret = WinKeyLayout::new();
        let mut tab = Table::Unset;
        let mut i: usize = 0;
        proof {
            assert(forall|k: int| 0 <= k < lines@.len() ==> ldv[k] == (#[trigger] lines@[k])@);
            assert(ldv.skip(0) =~~= ldv);
        }
        while i < lines.len()
            invariant
                i <= lines@.len(),
                ldv == lines.deep_view(),
                ldv.len() == lines@.len(),
                forall|k: int| 0 <= k < lines@.len() ==> ldv[k] == (#[trigger] lines@[k])@,
                win_wf(ret@),
                klc_parse_spec(ldv) == klc_fold(ldv.skip(i as int), tab, ret@),
            decreases lines@.len() - i,
        {
            let ghost tail = ldv.skip(i as int);
            proof {
                assert(tail.first() == ldv[i as int]);
                assert(tail.drop_first() =~~= ldv.skip(i + 1));
            }
            let args = line_args(lines[i].as_str());
            if args.len() > 0 {
                if str_eq(args[0].as_str(), "ENDKBD") {
                    proof {
                        assert(args.deep_view()[0] == args@[0int]@);
                        assert(klc_fold(tail, tab, ret@) == Ok::<WinKeyLayoutView, KlayError>(
                            ret@,
                        ));
                    }
                    return Ok(ret);
                }
                proof {
                    assert(args.deep_view()[0] == args@[0int]@);
                }
                match ret.apply_line(tab, &args) {
                    Ok(t2) => {
                        tab = t2;
                    },
                    Err(e) => {
                        return Err(e);
                    },
                }
            }
            i = i + 1;
        }
        proof {
            assert(ldv.skip(ldv.len() as int) =~~= Seq::<Seq<char>>::empty());
        }
        Ok(ret)
    }
}


/// The decimal digit of a caps-lock flag value.
pub open spec fn cap_char_spec(c: CapsLockBehaviour) -> char {
    match c {
        CapsLockBehaviour::Never => '0',
        CapsLockBehaviour::ShiftOnCaps => '1',
        CapsLockBehaviour::ShiftOnCapsAlt => '4',
        CapsLockBehaviour::ShiftOnCapsAlways => '5',
    }
}

/// A header line with a quoted argument, written only when the argument
/// is non-empty.
pub open spec fn key_arg_spec(key: Seq<char>, arg: Seq<char>) -> Seq<char> {
    if arg.len() == 0 {
        Seq::empty()
    } else {
        key + "\t\""@ + arg + "\"\r\n\r\n"@
    }
}

/// A character field of a layout row: `-1` for an absent output, else
/// the code point in four hexadecimal digits, with `@` appended for a
/// character the dead-key table composes with.
pub open spec fn slot_spec(deadkeys: Seq<(char, Seq<(char, char)>)>, oc: Option<char>) -> Seq<
    char,
> {
    match oc {
        None => "-1"@,
        Some(c) => hex_pad((c as u32) as nat, 4) + if assoc_contains(deadkeys, c) {
            "@"@
        } else {
            Seq::<char>::empty()
        },
    }
}

/// The eight serialized fields of one layout row, joined by tabs.
pub open spec fn layout_row_body_spec(
    deadkeys: Seq<(char, Seq<(char, char)>)>,
    sc: u8,
    k: KeyView,
) -> Seq<char> {
    hex_pad(sc as nat, 2) + "\t"@ + k.virtual_key + "\t"@ + seq![cap_char_spec(k.cap)] + "\t"@
        + slot_spec(deadkeys, k.normal) + "\t"@ + slot_spec(deadkeys, k.shift) + "\t"@
        + slot_spec(deadkeys, k.ctrl) + "\t"@ + slot_spec(deadkeys, k.ctrl_alt) + "\t"@
        + slot_spec(deadkeys, k.shift_ctrl_alt)
}

/// One row of the layout section.
pub open spec fn layout_row_spec(
    deadkeys: Seq<(char, Seq<(char, char)>)>,
    sc: u8,
    k: KeyView,
) -> Seq<char> {
    layout_row_body_spec(deadkeys, sc, k) + "\r\n"@
}

/// The rows of the layout section, in table order.
pub open spec fn layout_rows_spec(
    deadkeys: Seq<(char, Seq<(char, char)>)>,
    rows: Seq<(u8, KeyView)>,
) -> Seq<char>
    decreases rows.len(),
{
    if rows.len() == 0 {
        Seq::empty()
    } else {
        layout_rows_spec(deadkeys, rows.drop_last()) + layout_row_spec(
            deadkeys,
            rows.last().0,
            rows.last().1,
        )
    }
}

/// One row of a dead-key composition block, with its comment.
pub open spec fn deadkey_row_spec(a: char, b: char) -> Seq<char> {
    hex_pad((a as u32) as nat, 4) + "\t"@ + hex_pad((b as u32) as nat, 4) + "\t// "@ + seq![a] + " -> "@ + seq![b]
        + "\r\n"@
}

/// The rows of one dead-key composition block.
pub open spec fn deadkey_rows_spec(inner: Seq<(char, char)>) -> Seq<char>
    decreases inner.len(),
{
    if inner.len() == 0 {
        Seq::empty()
    } else {
        deadkey_rows_spec(inner.drop_last()) + deadkey_row_spec(inner.last().0, inner.last().1)
    }
}

/// One dead-key block: the directive with the base code point, then the
/// composition rows.
pub open spec fn deadkey_block_spec(c: char, inner: Seq<(char, char)>) -> Seq<char> {
    "DEADKEY\t"@ + hex_pad((c as u32) as nat, 4) + "\r\n\r\n"@ + deadkey_rows_spec(inner) + "\r\n"@
}

/// All the dead-key blocks, in table order.
pub open spec fn deadkey_blocks_spec(dks: Seq<(char, Seq<(char, char)>)>) -> Seq<char>
    decreases dks.len(),
{
    if dks.len() == 0 {
        Seq::empty()
    } else {
        deadkey_blocks_spec(dks.drop_last()) + deadkey_block_spec(dks.last().0, dks.last().1)
    }
}

/// The dead-key section: absent when the table is empty.
pub open spec fn deadkey_section_spec(dks: Seq<(char, Seq<(char, char)>)>) -> Seq<char> {
    if dks.len() == 0 {
        Seq::empty()
    } else {
        deadkey_blocks_spec(dks) + "\r\n"@
    }
}

/// The rows of a key-name section.
pub open spec fn name_rows_spec(rows: Seq<(u8, Seq<char>)>) -> Seq<char>
    decreases rows.len(),
{
    if rows.len() == 0 {
        Seq::empty()
    } else {
        name_rows_spec(rows.drop_last()) + hex_pad(rows.last().0 as nat, 2) + "\t"@
            + quote_multi_spec(rows.last().1) + "\r\n"@
    }
}

/// The rows of the dead-key-name section.
pub open spec fn dead_name_rows_spec(rows: Seq<(char, Seq<char>)>) -> Seq<char>
    decreases rows.len(),
{
    if rows.len() == 0 {
        Seq::empty()
    } else {
        dead_name_rows_spec(rows.drop_last()) + hex_pad((rows.last().0 as u32) as nat, 4) + "\t\""@
            + rows.last().1 + "\"\r\n"@
    }
}

/// The whole serialized document: header, the fixed shift-state block,
/// the layout rows in scan-code order, the dead-key blocks if any, the
/// key-name sections, the description strings, and the terminator.
pub open spec fn win_write_spec(v: WinKeyLayoutView) -> Seq<char> {
    "KBD\t"@ + v.id + "\t\""@ + v.name + "\"\r\n\r\n"@ + key_arg_spec("COPYRIGHT"@, v.copyright)
        + key_arg_spec("COMPANY"@, v.company) + key_arg_spec("LOCALENAME"@, v.locale_name)
        + key_arg_spec("LOCALEID"@, v.locale_id) + "VERSION\t"@ + v.version + "\r\n\r\n"@
        + "SHIFTSTATE\r\n\r\n0\r\n1 // Shift\r\n2 // Ctrl\r\n6 // AltGr\r\n7 // Shift AltGr\r\n\r\n"@
        + "LAYOUT\t\t;an '@' indicates dead key\r\n\r\n"@ + layout_rows_spec(v.deadkeys, v.layout)
        + "\r\n\r\n"@ + deadkey_section_spec(v.deadkeys) + "KEYNAME\r\n\r\n"@ + name_rows_spec(
        v.key_names,
    ) + "\r\n"@ + "KEYNAME_EXT\r\n\r\n"@ + name_rows_spec(v.key_names_ext) + "\r\n"@ + (
    if v.keynames_dead.len() > 0 {
        "KEYNAME_DEAD\r\n\r\n"@ + dead_name_rows_spec(v.keynames_dead) + "\r\n"@
    } else {
        Seq::<char>::empty()
    }) + "DESCRIPTIONS\r\n\r\n0409\t"@ + v.description + "\r\n\r\nLANGUAGENAMES\r\n\r\n0409\t"@
        + v.language_name + "\r\n\r\nENDKBD\r\n"@
}

/// Writes one character field of a layout row.
fn push_slot(out: &mut Vec<char>, deadkeys: &Vec<(char, Vec<(char, char)>)>, oc: Option<char>)
    ensures
        final(out)@ == old(out)@ + slot_spec(pair_view(deadkeys@), oc),
{
    match oc {
        None => {
            push_str(out, "-1");
        },
        Some(c) => {
            push_hex(out, c as u32, 4);
            let dead = crate::assoc::assoc_contains_char(deadkeys, c);
            proof {
                crate::assoc::lemma_pair_view_contains(deadkeys@, c);
            }
            if dead {
                push_str(out, "@");
            }
            proof {
                vstd::utf8::char_is_scalar(c);
                assert(out@ =~= old(out)@ + slot_spec(pair_view(deadkeys@), oc));
            }
        },
    }
}

/// Writes one row of the layout section.
#[verifier::rlimit(50)]
#[verifier::spinoff_prover]
fn push_layout_row(
    out: &mut Vec<char>,
    deadkeys: &Vec<(char, Vec<(char, char)>)>,
    sc: u8,
    key: &Key,
)
    ensures
        final(out)@ == old(out)@ + layout_row_spec(pair_view(deadkeys@), sc, key@),
{
    push_hex(out, sc as u32, 2);
    push_str(out, "\t");
    push_str(out, key.virtual_key.as_str());
    push_str(out, "\t");
    let capc: char = match key.cap {
        CapsLockBehaviour::Never => '0',
        CapsLockBehaviour::ShiftOnCaps => '1',
        CapsLockBehaviour::ShiftOnCapsAlt => '4',
        CapsLockBehaviour::ShiftOnCapsAlways => '5',
    };
    out.push(capc);
    push_str(out, "\t");
    push_slot(out, deadkeys, key.normal);
    push_str(out, "\t");
    push_slot(out, deadkeys, key.shift);
    push_str(out, "\t");
    push_slot(out, deadkeys, key.ctrl);
    push_str(out, "\t");
    push_slot(out, deadkeys, key.ctrl_alt);
    push_str(out, "\t");
    push_slot(out, deadkeys, key.shift_ctrl_alt);
    push_str(out, "\r\n");
    proof {
        assert(out@ =~= old(out)@ + layout_row_spec(pair_view(deadkeys@), sc, key@));
    }
}

impl WinKeyLayout {
    /// Serializes the layout to text, reproducing the section order with
    /// two-digit scan codes, four-digit code points, `@` marks on
    /// composing characters, and carriage-return line endings.
    #[verifier::rlimit(80)]
    pub fn to_text(&self) -> (r: Vec<char>)
        ensures
            r@ == win_write_spec(self@),
    {
        let mut out: Vec<char> = Vec::new();
        push_str(&mut out, "KBD\t");
        push_str(&mut out, self.id.as_str());
        push_str(&mut out, "\t\"");
        push_str(&mut out, self.name.as_str());
        push_str(&mut out, "\"\r\n\r\n");
        self.push_key_arg(&mut out, "COPYRIGHT", 0);
        self.push_key_arg(&mut out, "COMPANY", 1);
        self.push_key_arg(&mut out, "LOCALENAME", 2);
        self.push_key_arg(&mut out, "LOCALEID", 3);
        push_str(&mut out, "VERSION\t");
        push_str(&mut out, self.version.as_str());
        push_str(&mut out, "\r\n\r\n");
        push_str(
            &mut out,
            "SHIFTSTATE\r\n\r\n0\r\n1 // Shift\r\n2 // Ctrl\r\n6 // AltGr\r\n7 // Shift AltGr\r\n\r\n",
        );
        push_str(&mut out, "LAYOUT\t\t;an '@' indicates dead key\r\n\r\n");
        let ghost pre_rows = out@;
        let mut i: usize = 0;
        proof {
            assert(self@.layout.take(0) =~= Seq::<(u8, KeyView)>::empty());
            assert(out@ =~= pre_rows + layout_rows_spec(self@.deadkeys, self@.layout.take(0)));
        }
        while i < self.layout.len()
            invariant
                i <= self.layout@.len(),
                self@.layout.len() == self.layout@.len(),
                out@ == pre_rows + layout_rows_spec(self@.deadkeys, self@.layout.take(i as int)),
            decreases self.layout@.len() - i,
        {
            push_layout_row(&mut out, &self.deadkeys, self.layout[i].0, &self.layout[i].1);
            i = i + 1;
            proof {
                assert(self@.layout.take(i as int).drop_last() =~= self@.layout.take(i - 1));
                assert(self@.layout.take(i as int).last() == self@.layout[i - 1]);
                assert(self@.layout[i - 1] == (self.layout@[i - 1].0, self.layout@[i - 1].1@));
                assert(out@ =~= pre_rows + layout_rows_spec(
                    self@.deadkeys,
                    self@.layout.take(i as int),
                ));
            }
        }
        proof {
            assert(self@.layout.take(self@.layout.len() as int) =~= self@.layout);
        }
        push_str(&mut out, "\r\n\r\n");
        self.push_deadkey_section(&mut out);
        push_str(&mut out, "KEYNAME\r\n\r\n");
        self.push_name_rows(&mut out, false);
        push_str(&mut out, "\r\n");
        push_str(&mut out, "KEYNAME_EXT\r\n\r\n");
        self.push_name_rows(&mut out, true);
        push_str(&mut out, "\r\n");
        if self.keynames_dead.len() > 0 {
            push_str(&mut out, "KEYNAME_DEAD\r\n\r\n");
            let ghost pre_dn = out@;
            let mut j: usize = 0;
            proof {
                assert(self@.keynames_dead.take(0) =~= Seq::<(char, Seq<char>)>::empty());
                assert(out@ =~= pre_dn + dead_name_rows_spec(self@.keynames_dead.take(0)));
            }
            while j < self.keynames_dead.len()
                invariant
                    j <= self.keynames_dead@.len(),
                    self@.keynames_dead.len() == self.keynames_dead@.len(),
                    out@ == pre_dn + dead_name_rows_spec(self@.keynames_dead.take(j as int)),
                decreases self.keynames_dead@.len() - j,
            {
                let c: char = self.keynames_dead[j].0;
                push_hex(&mut out, c as u32, 4);
                push_str(&mut out, "\t\"");
                push_str(&mut out, self.keynames_dead[j].1.as_str());
                push_str(&mut out, "\"\r\n");
                j = j + 1;
                proof {
                    vstd::utf8::char_is_scalar(c);
                    assert(self@.keynames_dead.take(j as int).drop_last()
                        =~= self@.keynames_dead.take(j - 1));
                    assert(self@.keynames_dead.take(j as int).last() == self@.keynames_dead[j
                        - 1]);
                    assert(self@.keynames_dead[j - 1] == (
                        self.keynames_dead@[j - 1].0,
                        self.keynames_dead@[j - 1].1@,
                    ));
                    assert(out@ =~= pre_dn + dead_name_rows_spec(
                        self@.keynames_dead.take(j as int),
                    ));
                }
            }
            push_str(&mut out, "\r\n");
            proof {
                assert(self@.keynames_dead.take(self@.keynames_dead.len() as int)
                    =~= self@.keynames_dead);
            }
        }
        push_str(&mut out, "DESCRIPTIONS\r\n\r\n0409\t");
        push_str(&mut out, self.description.as_str());
        push_str(&mut out, "\r\n\r\nLANGUAGENAMES\r\n\r\n0409\t");
        push_str(&mut out, self.language_name.as_str());
        push_str(&mut out, "\r\n\r\nENDKBD\r\n");
        proof {
            assert(out@ =~= win_write_spec(self@));
        }
        out
    }

    /// Writes one optional header line, chosen by position: copyright,
    /// company, locale name or locale id.
    fn push_key_arg(&self, out: &mut Vec<char>, key: &str, which: u8)
        requires
            which < 4,
        ensures
            final(out)@ == old(out)@ + key_arg_spec(
                key@,
                if which == 0 {
                    self@.copyright
                } else if which == 1 {
                    self@.company
                } else if which == 2 {
                    self@.locale_name
                } else {
                    self@.locale_id
                },
            ),
    {
        let arg: &String = if which == 0 {
            &self.copyright
        } else if which == 1 {
            &self.company
        } else if which == 2 {
            &self.locale_name
        } else {
            &self.locale_id
        };
        if arg.as_str().unicode_len() > 0 {
            push_str(out, key);
            push_str(out, "\t\"");
            push_str(out, arg.as_str());
            push_str(out, "\"\r\n\r\n");
            proof {
                assert(out@ =~= old(out)@ + key_arg_spec(key@, arg@));
            }
        }
    }

    /// Writes the dead-key section: one block per base character.
    fn push_deadkey_section(&self, out: &mut Vec<char>)
        ensures
            final(out)@ == old(out)@ + deadkey_section_spec(self@.deadkeys),
    {
        if self.deadkeys.len() == 0 {
            return ;
        }
        let ghost pre = out@;
        let mut i: usize = 0;
        proof {
            assert(self@.deadkeys.take(0) =~= Seq::<(char, Seq<(char, char)>)>::empty());
            assert(out@ =~= pre + deadkey_blocks_spec(self@.deadkeys.take(0)));
        }
        while i < self.deadkeys.len()
            invariant
                i <= self.deadkeys@.len(),
                self@.deadkeys.len() == self.deadkeys@.len(),
                out@ == pre + deadkey_blocks_spec(self@.deadkeys.take(i as int)),
            decreases self.deadkeys@.len() - i,
        {
            let c: char = self.deadkeys[i].0;
            push_str(out, "DEADKEY\t");
            push_hex(out, c as u32, 4);
            push_str(out, "\r\n\r\n");
            let ghost pre_rows = out@;
            let ghost innerv = self@.deadkeys[i as int].1;
            let mut j: usize = 0;
            proof {
                vstd::utf8::char_is_scalar(c);
                assert(self@.deadkeys[i as int] == (
                    self.deadkeys@[i as int].0,
                    self.deadkeys@[i as int].1@,
                ));
                assert(innerv.take(0) =~= Seq::<(char, char)>::empty());
                assert(out@ =~= pre_rows + deadkey_rows_spec(innerv.take(0)));
            }
            while j < self.deadkeys[i].1.len()
                invariant
                    i < self.deadkeys@.len(),
                    j <= self.deadkeys@[i as int].1@.len(),
                    innerv == self.deadkeys@[i as int].1@,
                    out@ == pre_rows + deadkey_rows_spec(innerv.take(j as int)),
                decreases self.deadkeys@[i as int].1@.len() - j,
            {
                let a: char = self.deadkeys[i].1[j].0;
                let b: char = self.deadkeys[i].1[j].1;
                push_hex(out, a as u32, 4);
                push_str(out, "\t");
                push_hex(out, b as u32, 4);
                push_str(out, "\t// ");
                out.push(a);
                push_str(out, " -> ");
                out.push(b);
                push_str(out, "\r\n");
                j = j + 1;
                proof {
                    vstd::utf8::char_is_scalar(a);
                    vstd::utf8::char_is_scalar(b);
                    assert(innerv.take(j as int).drop_last() =~= innerv.take(j - 1));
                    assert(innerv.take(j as int).last() == innerv[j - 1]);
                    assert(out@ =~= pre_rows + deadkey_rows_spec(innerv.take(j as int)));
                }
            }
            push_str(out, "\r\n");
            i = i + 1;
            proof {
                assert(innerv.take(innerv.len() as int) =~= innerv);
                assert(self@.deadkeys.take(i as int).drop_last() =~= self@.deadkeys.take(i - 1));
                assert(self@.deadkeys.take(i as int).last() == self@.deadkeys[i - 1]);
                assert(out@ =~= pre + deadkey_blocks_spec(self@.deadkeys.take(i as int)));
            }
        }
        push_str(out, "\r\n");
        proof {
            assert(self@.deadkeys.take(self@.deadkeys.len() as int) =~= self@.deadkeys);
        }
    }

    /// Writes the rows of one key-name section.
    fn push_name_rows(&self, out: &mut Vec<char>, ext: bool)
        ensures
            final(out)@ == old(out)@ + name_rows_spec(
                if ext {
                    self@.key_names_ext
                } else {
                    self@.key_names
                },
            ),
    {
        let rows: &Vec<(u8, String)> = if ext {
            &self.key_names_ext
        } else {
            &self.key_names
        };
        let ghost rowsv = pair_view(rows@);
        let mut i: usize = 0;
        proof {
            assert(rowsv.take(0) =~= Seq::<(u8, Seq<char>)>::empty());
            assert(out@ =~= old(out)@ + name_rows_spec(rowsv.take(0)));
        }
        while i < rows.len()
            invariant
                i <= rows@.len(),
                rowsv == pair_view(rows@),
                rowsv.len() == rows@.len(),
                out@ == old(out)@ + name_rows_spec(rowsv.take(i as int)),
            decreases rows@.len() - i,
        {
            push_hex(out, rows[i].0 as u32, 2);
            push_str(out, "\t");
            let q = quote_multi(rows[i].1.as_str());
            push_str(out, q.as_str());
            push_str(out, "\r\n");
            i = i + 1;
            proof {
                assert(rowsv.take(i as int).drop_last() =~= rowsv.take(i - 1));
                assert(rowsv.take(i as int).last() == rowsv[i - 1]);
                assert(rowsv[i - 1] == (rows@[i - 1].0, rows@[i - 1].1@));
                assert(out@ =~= old(out)@ + name_rows_spec(rowsv.take(i as int)));
            }
        }
        proof {
            assert(rowsv.take(rowsv.len() as int) =~= rowsv);
        }
    }
}


/// What parsing a whole KLC byte stream yields: the byte-order mark
/// picks the endianness, the stream splits into lines, and the lines
/// fold through the section machine.
pub open spec fn win_from_bytes_spec(bytes: Seq<u8>) -> Result<WinKeyLayoutView, KlayError> {
    let has_unit = 2 <= bytes.len();
    let u = crate::utf16::unit_val(bytes[0], bytes[1], true);
    let little = !(has_unit && u == 0xFFFE);
    let pos: int = if has_unit && (u == 0xFEFF || u == 0xFFFE) {
        2
    } else {
        0
    };
    match crate::utf16::lines_spec(bytes, pos, little) {
        Ok(lines) => klc_parse_spec(lines),
        Err(e) => Err(e),
    }
}

/// The serialized document as UTF-16 bytes: a little-endian byte-order
/// mark, then the text.
pub open spec fn win_to_bytes_spec(v: WinKeyLayoutView) -> Seq<u8> {
    seq![0xFFu8, 0xFEu8] + crate::utf16::encode_utf16_le(win_write_spec(v))
}

impl WinKeyLayout {
    /// Reads a KLC document from UTF-16 bytes of either endianness.
    pub fn from_bytes(bytes: Vec<u8>) -> (r: Result<WinKeyLayout, KlayError>)
        ensures
            match r {
                Ok(l) => win_from_bytes_spec(bytes@) == Ok::<WinKeyLayoutView, KlayError>(l@)
                    && win_wf(l@),
                Err(e) => win_from_bytes_spec(bytes@) == Err::<WinKeyLayoutView, KlayError>(e),
            },
    {
        let rd0 = crate::utf16::ByteReader::new(bytes);
        let mut rd = crate::utf16::AutoEndianReader::new_auto_bom(rd0);
        match rd.utf16_lines() {
            Err(e) => Err(e),
            Ok(lines) => WinKeyLayout::parse(&lines),
        }
    }

    /// Writes the document as UTF-16 little-endian bytes with a leading
    /// byte-order mark.
    pub fn write(&self) -> (r: Vec<u8>)
        ensures
            r@ == win_to_bytes_spec(self@),
    {
        let text = self.to_text();
        let mut out: Vec<u8> = Vec::new();
        out.push(0xFF);
        out.push(0xFE);
        proof {
            assert(out@ =~= seq![0xFFu8, 0xFEu8]);
        }
        crate::utf16::push_utf16_le(&mut out, &text);
        out
    }
}

/// Round trip of a character field: a present output serialized by the
/// layout writer reads back as the same code point, and an absent one
/// reads back as absent.
pub proof fn lemma_slot_round_trip(deadkeys: Seq<(char, Seq<(char, char)>)>, oc: Option<char>)
    ensures
        read_char_spec(slot_spec(deadkeys, oc)) == Ok::<Option<char>, KlayError>(oc),
{
    reveal_strlit("-1");
    reveal_strlit("@");
    assert("-1"@.len() == 2);
    assert("-1"@[0] == '-');
    assert("-1"@[1] == '1');
    match oc {
        None => {},
        Some(c) => {
            vstd::utf8::char_is_scalar(c);
            let u: u32 = c as u32;
            crate::text::lemma_hex_round_trip(u, 4);
            crate::text::lemma_hex_pad_len(u as nat, 4);
            let h = hex_pad(u as nat, 4);
            let s = slot_spec(deadkeys, oc);
            if assoc_contains(deadkeys, c) {
                assert("@"@.len() == 1);
                assert("@"@[0] == '@');
                assert(s == h + "@"@);
                assert(s.last() == '@');
                assert(s.drop_last() =~= h);
                assert(s.len() >= 5);
                assert(!(s.len() == 2 && s[0] == '-' && s[1] == '1'));
                vstd::utf8::char_u32_cast(c, u);
            } else {
                assert(s =~= h);
                assert(s.len() >= 4);
                assert(parse_hex_spec(s) == Some(u));
                assert(s.len() > 0 && crate::text::all_hex(s));
                assert(crate::text::is_hex_digit(s.last()));
                assert(s.last() != '@');
                vstd::utf8::char_u32_cast(c, u);
            }
        },
    }
}

/// Round trip of a scan-code field: a two-digit serialized scan code
/// reads back as itself.
pub proof fn lemma_scan_field_round_trip(sc: u8)
    ensures
        read_hb_spec(hex_pad(sc as nat, 2)) == Some(sc),
{
    crate::text::lemma_hex_round_trip(sc as u32, 2);
}

/// Round trip of the caps-lock flag: the digit the writer emits reads
/// back as the same behaviour.
pub proof fn lemma_cap_round_trip(c: CapsLockBehaviour)
    ensures
        parse_dec_u8_spec(seq![cap_char_spec(c)]) == Some(cap_num_spec(c)),
        cap_from_num_spec(cap_num_spec(c)) == Some(c),
{
    let s = seq![cap_char_spec(c)];
    assert(s.drop_last() =~= Seq::<char>::empty());
    assert(s.last() == cap_char_spec(c));
    assert(crate::text::dec_value(Seq::<char>::empty()) == 0);
    match c {
        CapsLockBehaviour::Never => {
            assert(crate::text::dec_value(s) == 0);
        },
        CapsLockBehaviour::ShiftOnCaps => {
            assert(crate::text::dec_value(s) == 1);
        },
        CapsLockBehaviour::ShiftOnCapsAlt => {
            assert(crate::text::dec_value(s) == 4);
        },
        CapsLockBehaviour::ShiftOnCapsAlways => {
            assert(crate::text::dec_value(s) == 5);
        },
    }
    assert(crate::text::all_dec(s)) by {
        assert(s[0] == cap_char_spec(c));
    }
}

/// Round trip of display-name quoting: stripping quotes undoes the
/// quoting, for any name that is not itself already wrapped in quotes.
pub proof fn lemma_quote_round_trip(s: Seq<char>)
    requires
        (exists|i: int| 0 <= i < s.len() && is_white_space(#[trigger] s[i])) || !(s.len() >= 2
            && s[0] == '"' && s.last() == '"'),
    ensures
        st_spec(quote_multi_spec(s)) == s,
{
    if exists|i: int| 0 <= i < s.len() && is_white_space(#[trigger] s[i]) {
        let q = seq!['"'] + s + seq!['"'];
        assert(q.len() == s.len() + 2);
        assert(q[0] == '"');
        assert(q.last() == '"');
        assert(q.subrange(1, q.len() - 1) =~= s);
    }
}


/// A text without tabs splits into itself alone.
proof fn lemma_split_tab_single(a: Seq<char>)
    requires
        forall|i: int| 0 <= i < a.len() ==> a[i] != '\t',
    ensures
        split_tab(a) == seq![a],
    decreases a.len(),
{
    if a.len() == 0 {
        assert(split_tab(a) =~~= seq![a]);
    } else {
        assert(a.first() == a[0]);
        assert(forall|i: int|
            0 <= i < a.drop_first().len() ==> (#[trigger] a.drop_first()[i]) == a[i + 1]);
        lemma_split_tab_single(a.drop_first());
        assert(split_tab(a) =~~= seq![a]);
    }
}

/// Splitting a tab-free field, a tab, and a remainder yields the field
/// followed by the split of the remainder.
proof fn lemma_split_tab_concat(a: Seq<char>, rest: Seq<char>)
    requires
        forall|i: int| 0 <= i < a.len() ==> a[i] != '\t',
    ensures
        split_tab(a + seq!['\t'] + rest) == seq![a] + split_tab(rest),
    decreases a.len(),
{
    let s = a + seq!['\t'] + rest;
    if a.len() == 0 {
        assert(s.first() == '\t');
        assert(s.drop_first() =~= rest);
        assert(split_tab(s) =~~= seq![a] + split_tab(rest));
    } else {
        assert(s.first() == a[0]);
        assert(a[0] != '\t');
        assert(s.drop_first() =~= a.drop_first() + seq!['\t'] + rest);
        assert(forall|i: int|
            0 <= i < a.drop_first().len() ==> (#[trigger] a.drop_first()[i]) == a[i + 1]);
        lemma_split_tab_concat(a.drop_first(), rest);
        let r = split_tab(s.drop_first());
        assert(r == seq![a.drop_first()] + split_tab(rest));
        assert(r.first() == a.drop_first());
        assert(seq![s.first()] + r.first() =~= a);
        assert(r.drop_first() =~= split_tab(rest));
        assert(split_tab(s) =~~= seq![a] + split_tab(rest));
    }
}

/// Fields that are non-empty and open no comment pass the argument
/// filters unchanged.
proof fn lemma_args_clean(ts: Seq<Seq<char>>)
    requires
        forall|i: int| 0 <= i < ts.len() ==> !is_comment_tok(#[trigger] ts[i]),
        forall|i: int| 0 <= i < ts.len() ==> (#[trigger] ts[i]).len() > 0,
    ensures
        keep_until_comment(ts) == ts,
        drop_empty(ts) == ts,
    decreases ts.len(),
{
    if ts.len() > 0 {
        assert(ts.first() == ts[0]);
        assert(forall|i: int|
            0 <= i < ts.drop_first().len() ==> (#[trigger] ts.drop_first()[i]) == ts[i + 1]);
        lemma_args_clean(ts.drop_first());
        assert(keep_until_comment(ts) =~~= ts);
        assert(drop_empty(ts) =~~= ts);
    }
}

/// A scan code's two-digit form is exactly two digits wide.
proof fn lemma_scan_field_len(sc: u8)
    ensures
        hex_pad(sc as nat, 2).len() == 2,
{
    crate::text::lemma_hex_pad_len(sc as nat, 2);
    if sc < 16 {
    } else {
        assert(sc as nat / 16 < 16);
        assert(to_hex(sc as nat) == to_hex(sc as nat / 16) + seq![
            crate::text::hex_digit_char(sc as nat % 16),
        ]);
    }
}

/// A serialized character field is non-empty, free of tabs, and opens
/// no comment.
proof fn lemma_slot_field_good(deadkeys: Seq<(char, Seq<(char, char)>)>, oc: Option<char>)
    ensures
        slot_spec(deadkeys, oc).len() > 0,
        !is_comment_tok(slot_spec(deadkeys, oc)),
        forall|i: int|
            0 <= i < slot_spec(deadkeys, oc).len() ==> (#[trigger] slot_spec(deadkeys, oc)[i])
                != '\t',
{
    let f = slot_spec(deadkeys, oc);
    match oc {
        None => {
            reveal_strlit("-1");
            assert(f.len() == 2);
            assert(f[0] == '-');
            assert(f[1] == '1');
            assert(forall|i: int| 0 <= i < f.len() ==> f[i] != '\t') by {
                assert(f[0] != '\t' && f[1] != '\t');
            }
        },
        Some(c) => {
            let h = hex_pad((c as u32) as nat, 4);
            crate::text::lemma_hex_pad_len((c as u32) as nat, 4);
            assert(forall|i: int|
                0 <= i < h.len() ==> crate::text::is_hex_digit(#[trigger] h[i]));
            if assoc_contains(deadkeys, c) {
                reveal_strlit("@");
                assert(f =~= h + seq!['@']);
                assert(f[0] == h[0]);
                assert(forall|i: int| 0 <= i < f.len() ==> f[i] != '\t') by {
                    assert(forall|i: int| 0 <= i < h.len() ==> f[i] == h[i]);
                    assert(f[f.len() - 1] == '@');
                }
            } else {
                assert(f =~= h);
            }
        },
    }
}

/// A two-character field matches no section or header keyword.
proof fn lemma_not_keyword(f: Seq<char>)
    requires
        f.len() == 2,
    ensures
        f != "ATTRIBUTES"@ && f != "SHIFTSTATE"@ && f != "LAYOUT"@ && f != "DEADKEY"@ && f
            != "KEYNAME"@ && f != "KEYNAME_EXT"@ && f != "KEYNAME_DEAD"@ && f != "DESCRIPTIONS"@
            && f != "LANGUAGENAMES"@ && f != "KBD"@ && f != "COPYRIGHT"@ && f != "COMPANY"@ && f
            != "LOCALENAME"@ && f != "LOCALEID"@ && f != "VERSION"@,
{
    reveal_strlit("ATTRIBUTES");
    reveal_strlit("SHIFTSTATE");
    reveal_strlit("LAYOUT");
    reveal_strlit("DEADKEY");
    reveal_strlit("KEYNAME");
    reveal_strlit("KEYNAME_EXT");
    reveal_strlit("KEYNAME_DEAD");
    reveal_strlit("DESCRIPTIONS");
    reveal_strlit("LANGUAGENAMES");
    reveal_strlit("KBD");
    reveal_strlit("COPYRIGHT");
    reveal_strlit("COMPANY");
    reveal_strlit("LOCALENAME");
    reveal_strlit("LOCALEID");
    reveal_strlit("VERSION");
}

/// The writer's row body splits back into its eight fields.
#[verifier::rlimit(100)]
#[verifier::spinoff_prover]
proof fn lemma_row_fields(d: Seq<(char, Seq<(char, char)>)>, sc: u8, k: KeyView)
    requires
        k.virtual_key.len() > 0,
        !is_comment_tok(k.virtual_key),
        forall|i: int| 0 <= i < k.virtual_key.len() ==> (#[trigger] k.virtual_key[i]) != '\t',
    ensures
        line_args_spec(layout_row_body_spec(d, sc, k)) == seq![
            hex_pad(sc as nat, 2),
            k.virtual_key,
            seq![cap_char_spec(k.cap)],
            slot_spec(d, k.normal),
            slot_spec(d, k.shift),
            slot_spec(d, k.ctrl),
            slot_spec(d, k.ctrl_alt),
            slot_spec(d, k.shift_ctrl_alt),
        ],
{
    let f0 = hex_pad(sc as nat, 2);
    let f1 = k.virtual_key;
    let f2 = seq![cap_char_spec(k.cap)];
    let f3 = slot_spec(d, k.normal);
    let f4 = slot_spec(d, k.shift);
    let f5 = slot_spec(d, k.ctrl);
    let f6 = slot_spec(d, k.ctrl_alt);
    let f7 = slot_spec(d, k.shift_ctrl_alt);
    let t = seq!['\t'];
    reveal_strlit("\t");
    assert("\t"@ =~= t);
    let line = layout_row_body_spec(d, sc, k);

    crate::text::lemma_hex_pad_len(sc as nat, 2);
    lemma_slot_field_good(d, k.normal);
    lemma_slot_field_good(d, k.shift);
    lemma_slot_field_good(d, k.ctrl);
    lemma_slot_field_good(d, k.ctrl_alt);
    lemma_slot_field_good(d, k.shift_ctrl_alt);
    assert(forall|i: int| 0 <= i < f0.len() ==> (#[trigger] f0[i]) != '\t') by {
        assert(forall|i: int| 0 <= i < f0.len() ==> crate::text::is_hex_digit(#[trigger] f0[i]));
    }
    assert(!is_comment_tok(f0)) by {
        assert(crate::text::is_hex_digit(f0[0]));
    }
    assert(forall|i: int| 0 <= i < f2.len() ==> (#[trigger] f2[i]) != '\t') by {
        assert(f2[0] == cap_char_spec(k.cap));
    }
    assert(!is_comment_tok(f2)) by {
        assert(f2[0] == cap_char_spec(k.cap));
    }

    let r6 = f6 + t + f7;
    let r5 = f5 + t + r6;
    let r4 = f4 + t + r5;
    let r3 = f3 + t + r4;
    let r2 = f2 + t + r3;
    let r1 = f1 + t + r2;
    assert(line =~= f0 + t + r1);
    lemma_split_tab_single(f7);
    lemma_split_tab_concat(f6, f7);
    lemma_split_tab_concat(f5, r6);
    lemma_split_tab_concat(f4, r5);
    lemma_split_tab_concat(f3, r4);
    lemma_split_tab_concat(f2, r3);
    lemma_split_tab_concat(f1, r2);
    lemma_split_tab_concat(f0, r1);
    let args = seq![f0, f1, f2, f3, f4, f5, f6, f7];
    assert(split_tab(line) =~~= args);
    assert(forall|i: int| 0 <= i < args.len() ==> !is_comment_tok(#[trigger] args[i])) by {
        assert(args[0] == f0 && args[1] == f1 && args[2] == f2 && args[3] == f3 && args[4] == f4
            && args[5] == f5 && args[6] == f6 && args[7] == f7);
    }
    assert(forall|i: int| 0 <= i < args.len() ==> (#[trigger] args[i]).len() > 0) by {
        assert(args[0] == f0 && args[1] == f1 && args[2] == f2 && args[3] == f3 && args[4] == f4
            && args[5] == f5 && args[6] == f6 && args[7] == f7);
    }
    lemma_args_clean(args);
}

/// Round trip of a layout row: the row the writer emits, taken as one
/// input line, reads back as exactly the same key row placed in the
/// table, for any virtual-key name that is non-empty, holds no tab, and
/// opens no comment.
#[verifier::rlimit(100)]
pub proof fn lemma_layout_row_round_trip(st: WinKeyLayoutView, sc: u8, k: KeyView)
    requires
        k.virtual_key.len() > 0,
        !is_comment_tok(k.virtual_key),
        forall|i: int| 0 <= i < k.virtual_key.len() ==> (#[trigger] k.virtual_key[i]) != '\t',
    ensures
        klc_step(
            Table::LayoutTable,
            st,
            line_args_spec(layout_row_body_spec(st.deadkeys, sc, k)),
        ) == Ok::<(Table, WinKeyLayoutView), KlayError>(
            (
                Table::LayoutTable,
                WinKeyLayoutView { layout: sorted_set_spec(st.layout, sc, k), ..st },
            ),
        ),
{
    let d = st.deadkeys;
    lemma_row_fields(d, sc, k);
    let args = line_args_spec(layout_row_body_spec(d, sc, k));
    assert(args.len() == 8);
    assert(args[0] == hex_pad(sc as nat, 2));
    lemma_scan_field_len(sc);
    lemma_not_keyword(args[0]);
    lemma_scan_field_round_trip(sc);
    lemma_cap_round_trip(k.cap);
    lemma_slot_round_trip(d, k.normal);
    lemma_slot_round_trip(d, k.shift);
    lemma_slot_round_trip(d, k.ctrl);
    lemma_slot_round_trip(d, k.ctrl_alt);
    lemma_slot_round_trip(d, k.shift_ctrl_alt);
    let kv = KeyView {
        virtual_key: args[1],
        cap: k.cap,
        normal: read_char_spec(args[3])->Ok_0,
        shift: read_char_spec(args[4])->Ok_0,
        ctrl: read_char_spec(args[5])->Ok_0,
        ctrl_alt: read_char_spec(args[6])->Ok_0,
        shift_ctrl_alt: read_char_spec(args[7])->Ok_0,
    };
    assert(kv == k);
}

/// A field fit for one line: non-empty, free of tabs, and opening no
/// comment.
pub open spec fn plain_field(t: Seq<char>) -> bool {
    t.len() > 0 && !is_comment_tok(t) && forall|i: int| 0 <= i < t.len() ==> t[i] != '\t'
}

/// A line of two plain fields splits into exactly those fields.
proof fn lemma_two_field_args(key: Seq<char>, tok: Seq<char>)
    requires
        plain_field(key),
        plain_field(tok),
    ensures
        line_args_spec(key + seq!['\t'] + tok) == seq![key, tok],
{
    lemma_split_tab_single(tok);
    lemma_split_tab_concat(key, tok);
    let args = seq![key, tok];
    assert(split_tab(key + seq!['\t'] + tok) =~~= args);
    assert(forall|i: int| 0 <= i < args.len() ==> !is_comment_tok(#[trigger] args[i])) by {
        assert(args[0] == key && args[1] == tok);
    }
    assert(forall|i: int| 0 <= i < args.len() ==> (#[trigger] args[i]).len() > 0) by {
        assert(args[0] == key && args[1] == tok);
    }
    lemma_args_clean(args);
}

/// A line of three plain fields splits into exactly those fields.
proof fn lemma_three_field_args(key: Seq<char>, t1: Seq<char>, t2: Seq<char>)
    requires
        plain_field(key),
        plain_field(t1),
        plain_field(t2),
    ensures
        line_args_spec(key + seq!['\t'] + t1 + seq!['\t'] + t2) == seq![key, t1, t2],
{
    lemma_split_tab_single(t2);
    lemma_split_tab_concat(t1, t2);
    lemma_split_tab_concat(key, t1 + seq!['\t'] + t2);
    let line = key + seq!['\t'] + t1 + seq!['\t'] + t2;
    assert(line =~= key + seq!['\t'] + (t1 + seq!['\t'] + t2));
    let args = seq![key, t1, t2];
    assert(split_tab(line) =~~= args);
    assert(forall|i: int| 0 <= i < args.len() ==> !is_comment_tok(#[trigger] args[i])) by {
        assert(args[0] == key && args[1] == t1 && args[2] == t2);
    }
    assert(forall|i: int| 0 <= i < args.len() ==> (#[trigger] args[i]).len() > 0) by {
        assert(args[0] == key && args[1] == t1 && args[2] == t2);
    }
    lemma_args_clean(args);
}

/// A quoted display value is a plain field whenever the value holds no
/// tab, and stripping the quotes gives the value back.
proof fn lemma_quoted_field(arg: Seq<char>)
    requires
        forall|i: int| 0 <= i < arg.len() ==> arg[i] != '\t',
    ensures
        plain_field(seq!['"'] + arg + seq!['"']),
        st_spec(seq!['"'] + arg + seq!['"']) == arg,
{
    let q = seq!['"'] + arg + seq!['"'];
    assert(q[0] == '"');
    assert(q.last() == '"');
    assert(forall|i: int| 0 <= i < q.len() ==> q[i] != '\t') by {
        assert(forall|i: int| 1 <= i < arg.len() + 1 ==> q[i] == arg[i - 1]);
        assert(q[q.len() - 1] == '"');
    }
    assert(q.subrange(1, q.len() - 1) =~= arg);
}

/// Round trip of the quoted header lines: a copyright, company, locale
/// name or locale id line the writer emits reads back as exactly that
/// field, for any tab-free value.
pub proof fn lemma_quoted_header_round_trip(t: Table, st: WinKeyLayoutView, arg: Seq<char>)
    requires
        forall|i: int| 0 <= i < arg.len() ==> arg[i] != '\t',
    ensures
        klc_step(t, st, line_args_spec("COPYRIGHT"@ + seq!['\t', '"'] + arg + seq!['"'])) == Ok::<
            (Table, WinKeyLayoutView),
            KlayError,
        >((t, WinKeyLayoutView { copyright: arg, ..st })),
        klc_step(t, st, line_args_spec("COMPANY"@ + seq!['\t', '"'] + arg + seq!['"'])) == Ok::<
            (Table, WinKeyLayoutView),
            KlayError,
        >((t, WinKeyLayoutView { company: arg, ..st })),
        klc_step(t, st, line_args_spec("LOCALENAME"@ + seq!['\t', '"'] + arg + seq!['"'])) == Ok::<
            (Table, WinKeyLayoutView),
            KlayError,
        >((t, WinKeyLayoutView { locale_name: arg, ..st })),
        klc_step(t, st, line_args_spec("LOCALEID"@ + seq!['\t', '"'] + arg + seq!['"'])) == Ok::<
            (Table, WinKeyLayoutView),
            KlayError,
        >((t, WinKeyLayoutView { locale_id: arg, ..st })),
{
    reveal_strlit("ATTRIBUTES");
    reveal_strlit("SHIFTSTATE");
    reveal_strlit("LAYOUT");
    reveal_strlit("DEADKEY");
    reveal_strlit("KEYNAME");
    reveal_strlit("KEYNAME_EXT");
    reveal_strlit("KEYNAME_DEAD");
    reveal_strlit("DESCRIPTIONS");
    reveal_strlit("LANGUAGENAMES");
    reveal_strlit("KBD");
    reveal_strlit("COPYRIGHT");
    reveal_strlit("COMPANY");
    reveal_strlit("LOCALENAME");
    reveal_strlit("LOCALEID");
    lemma_quoted_field(arg);
    let q = seq!['"'] + arg + seq!['"'];
    assert(plain_field("COPYRIGHT"@)) by {
        assert("COPYRIGHT"@[0] == 'C');
        assert(forall|i: int|
            0 <= i < "COPYRIGHT"@.len() ==> #[trigger] "COPYRIGHT"@[i] != '\t');
    }
    assert(plain_field("COMPANY"@)) by {
        assert("COMPANY"@[0] == 'C');
        assert(forall|i: int| 0 <= i < "COMPANY"@.len() ==> #[trigger] "COMPANY"@[i] != '\t');
    }
    assert(plain_field("LOCALENAME"@)) by {
        assert("LOCALENAME"@[0] == 'L');
        assert(forall|i: int|
            0 <= i < "LOCALENAME"@.len() ==> #[trigger] "LOCALENAME"@[i] != '\t');
    }
    assert(plain_field("LOCALEID"@)) by {
        assert("LOCALEID"@[0] == 'L');
        assert(forall|i: int| 0 <= i < "LOCALEID"@.len() ==> #[trigger] "LOCALEID"@[i] != '\t');
    }
    lemma_two_field_args("COPYRIGHT"@, q);
    lemma_two_field_args("COMPANY"@, q);
    lemma_two_field_args("LOCALENAME"@, q);
    lemma_two_field_args("LOCALEID"@, q);
    assert("COPYRIGHT"@ + seq!['\t', '"'] + arg + seq!['"'] =~= "COPYRIGHT"@ + seq!['\t'] + q);
    assert("COMPANY"@ + seq!['\t', '"'] + arg + seq!['"'] =~= "COMPANY"@ + seq!['\t'] + q);
    assert("LOCALENAME"@ + seq!['\t', '"'] + arg + seq!['"'] =~= "LOCALENAME"@ + seq!['\t'] + q);
    assert("LOCALEID"@ + seq!['\t', '"'] + arg + seq!['"'] =~= "LOCALEID"@ + seq!['\t'] + q);
}

/// Round trip of the version header line the writer emits, for a plain
/// version field.
pub proof fn lemma_version_line_round_trip(t: Table, st: WinKeyLayoutView, v: Seq<char>)
    requires
        plain_field(v),
    ensures
        klc_step(t, st, line_args_spec("VERSION"@ + seq!['\t'] + v)) == Ok::<
            (Table, WinKeyLayoutView),
            KlayError,
        >((t, WinKeyLayoutView { version: v, ..st })),
{
    reveal_strlit("ATTRIBUTES");
    reveal_strlit("SHIFTSTATE");
    reveal_strlit("LAYOUT");
    reveal_strlit("DEADKEY");
    reveal_strlit("KEYNAME");
    reveal_strlit("KEYNAME_EXT");
    reveal_strlit("KEYNAME_DEAD");
    reveal_strlit("DESCRIPTIONS");
    reveal_strlit("LANGUAGENAMES");
    reveal_strlit("KBD");
    reveal_strlit("COPYRIGHT");
    reveal_strlit("COMPANY");
    reveal_strlit("LOCALENAME");
    reveal_strlit("LOCALEID");
    reveal_strlit("VERSION");
    assert(plain_field("VERSION"@)) by {
        assert("VERSION"@[0] == 'V');
        assert(forall|i: int| 0 <= i < "VERSION"@.len() ==> #[trigger] "VERSION"@[i] != '\t');
    }
    lemma_two_field_args("VERSION"@, v);
}

/// Round trip of the opening header line the writer emits: the layout
/// id and the quoted display name read back as themselves, for a plain
/// id and a tab-free name.
pub proof fn lemma_kbd_line_round_trip(
    t: Table,
    st: WinKeyLayoutView,
    id: Seq<char>,
    name: Seq<char>,
)
    requires
        plain_field(id),
        forall|i: int| 0 <= i < name.len() ==> name[i] != '\t',
    ensures
        klc_step(
            t,
            st,
            line_args_spec("KBD"@ + seq!['\t'] + id + seq!['\t', '"'] + name + seq!['"']),
        ) == Ok::<(Table, WinKeyLayoutView), KlayError>(
            (t, WinKeyLayoutView { id: id, name: name, ..st }),
        ),
{
    reveal_strlit("ATTRIBUTES");
    reveal_strlit("SHIFTSTATE");
    reveal_strlit("LAYOUT");
    reveal_strlit("DEADKEY");
    reveal_strlit("KEYNAME");
    reveal_strlit("KEYNAME_EXT");
    reveal_strlit("KEYNAME_DEAD");
    reveal_strlit("DESCRIPTIONS");
    reveal_strlit("LANGUAGENAMES");
    reveal_strlit("KBD");
    lemma_quoted_field(name);
    let q = seq!['"'] + name + seq!['"'];
    assert(plain_field("KBD"@)) by {
        assert("KBD"@[0] == 'K');
        assert(forall|i: int| 0 <= i < "KBD"@.len() ==> #[trigger] "KBD"@[i] != '\t');
    }
    lemma_three_field_args("KBD"@, id, q);
    assert("KBD"@ + seq!['\t'] + id + seq!['\t', '"'] + name + seq!['"'] =~= "KBD"@ + seq!['\t']
        + id + seq!['\t'] + q);
}

/// A four-digit code-point field reads back as its character.
proof fn lemma_hex4_round_trip(c: char)
    ensures
        read_char_spec(hex_pad((c as u32) as nat, 4)) == Ok::<Option<char>, KlayError>(
            Some(c),
        ),
        plain_field(hex_pad((c as u32) as nat, 4)),
{
    let h = hex_pad((c as u32) as nat, 4);
    crate::text::lemma_hex_pad_len((c as u32) as nat, 4);
    assert(h.len() >= 4);
    assert(!(h.len() == 2 && h[0] == '-' && h[1] == '1'));
    assert(crate::text::is_hex_digit(h.last()));
    assert(h.last() != '@');
    crate::text::lemma_hex_round_trip(c as u32, 4);
    vstd::utf8::char_is_scalar(c);
    vstd::utf8::char_u32_cast(c, c as u32);
    assert(!is_comment_tok(h)) by {
        assert(crate::text::is_hex_digit(h[0]));
    }
    assert(forall|i: int| 0 <= i < h.len() ==> h[i] != '\t') by {
        assert(forall|i: int| 0 <= i < h.len() ==> crate::text::is_hex_digit(#[trigger] h[i]));
    }
}

/// Round trip of a dead-key directive line: the line the writer emits
/// for a base character switches the section to that character's
/// composition table and registers it empty.
pub proof fn lemma_deadkey_directive_round_trip(t: Table, st: WinKeyLayoutView, c: char)
    ensures
        klc_step(
            t,
            st,
            line_args_spec("DEADKEY"@ + seq!['\t'] + hex_pad((c as u32) as nat, 4)),
        ) == Ok::<(Table, WinKeyLayoutView), KlayError>(
            (
                Table::Deadkey(c),
                WinKeyLayoutView {
                    deadkeys: assoc_set(st.deadkeys, c, Seq::<(char, char)>::empty()),
                    ..st
                },
            ),
        ),
{
    reveal_strlit("ATTRIBUTES");
    reveal_strlit("SHIFTSTATE");
    reveal_strlit("LAYOUT");
    reveal_strlit("DEADKEY");
    lemma_hex4_round_trip(c);
    let h = hex_pad((c as u32) as nat, 4);
    assert(plain_field("DEADKEY"@)) by {
        assert("DEADKEY"@[0] == 'D');
        assert(forall|i: int| 0 <= i < "DEADKEY"@.len() ==> #[trigger] "DEADKEY"@[i] != '\t');
    }
    lemma_two_field_args("DEADKEY"@, h);
}

/// Round trip of a dead-key composition row: the row the writer emits,
/// comment and all, reads back as the same composition in the active
/// base character's table, for combining and result characters that are
/// not themselves tabs.
pub proof fn lemma_deadkey_row_round_trip(st: WinKeyLayoutView, c: char, a: char, b: char)
    requires
        a != '\t',
        b != '\t',
        assoc_get(st.deadkeys, c) is Some,
    ensures
        klc_step(Table::Deadkey(c), st, line_args_spec(deadkey_row_body_spec(a, b))) == Ok::<
            (Table, WinKeyLayoutView),
            KlayError,
        >(
            (
                Table::Deadkey(c),
                WinKeyLayoutView {
                    deadkeys: assoc_set(
                        st.deadkeys,
                        c,
                        assoc_set(assoc_get(st.deadkeys, c)->Some_0, a, b),
                    ),
                    ..st
                },
            ),
        ),
{
    reveal_strlit("ATTRIBUTES");
    reveal_strlit("SHIFTSTATE");
    reveal_strlit("LAYOUT");
    reveal_strlit("DEADKEY");
    reveal_strlit("KEYNAME");
    reveal_strlit("KEYNAME_EXT");
    reveal_strlit("KEYNAME_DEAD");
    reveal_strlit("DESCRIPTIONS");
    reveal_strlit("LANGUAGENAMES");
    reveal_strlit("KBD");
    reveal_strlit("COPYRIGHT");
    reveal_strlit("COMPANY");
    reveal_strlit("LOCALENAME");
    reveal_strlit("LOCALEID");
    reveal_strlit("VERSION");
    reveal_strlit("// ");
    reveal_strlit(" -> ");
    lemma_hex4_round_trip(a);
    lemma_hex4_round_trip(b);
    let ha = hex_pad((a as u32) as nat, 4);
    let hb = hex_pad((b as u32) as nat, 4);
    let cm = "// "@ + seq![a] + " -> "@ + seq![b];
    assert(is_comment_tok(cm)) by {
        assert(cm[0] == '/');
        assert(cm[1] == '/');
    }
    assert(forall|i: int| 0 <= i < cm.len() ==> cm[i] != '\t') by {
        assert(cm[0] == '/' && cm[1] == '/' && cm[2] == ' ');
        assert(cm[3] == a);
        assert(cm[4] == ' ' && cm[5] == '-' && cm[6] == '>' && cm[7] == ' ');
        assert(cm[8] == b);
        assert(cm.len() == 9);
    }
    lemma_split_tab_single(cm);
    lemma_split_tab_concat(hb, cm);
    lemma_split_tab_concat(ha, hb + seq!['\t'] + cm);
    let line = deadkey_row_body_spec(a, b);
    assert(line =~= ha + seq!['\t'] + (hb + seq!['\t'] + cm));
    let toks = seq![ha, hb, cm];
    assert(split_tab(line) =~~= toks);
    let kept = seq![ha, hb];
    let t1 = seq![hb, cm];
    let t2 = seq![cm];
    assert(t2.first() == cm);
    assert(t2.drop_first() =~~= Seq::<Seq<char>>::empty());
    assert(keep_until_comment(t2) =~~= Seq::<Seq<char>>::empty());
    assert(t1.first() == hb);
    assert(t1.drop_first() =~~= t2);
    assert(keep_until_comment(t1) =~~= seq![hb]);
    assert(toks.first() == ha);
    assert(toks.drop_first() =~~= t1);
    assert(keep_until_comment(toks) =~~= kept);
    let k1 = seq![hb];
    assert(k1.first() == hb);
    assert(k1.drop_first() =~~= Seq::<Seq<char>>::empty());
    assert(drop_empty(Seq::<Seq<char>>::empty()) =~~= Seq::<Seq<char>>::empty());
    assert(drop_empty(k1) =~~= k1);
    assert(kept.first() == ha);
    assert(kept.drop_first() =~~= k1);
    assert(drop_empty(kept) =~~= kept);
    let args = line_args_spec(line);
    assert(args == kept);
    assert(args[0] == ha);
    assert(args[1] == hb);
}

/// The body of one dead-key composition row, without its line
/// terminator: the two code points, then the readable comment.
pub open spec fn deadkey_row_body_spec(a: char, b: char) -> Seq<char> {
    hex_pad((a as u32) as nat, 4) + seq!['\t'] + hex_pad((b as u32) as nat, 4) + seq!['\t']
        + "// "@ + seq![a] + " -> "@ + seq![b]
}

/// Round trip of a key-name row: the scan code and quoted-as-needed
/// display name the writer emits read back as the same binding, in the
/// plain and extended name sections alike. The name must be non-empty,
/// tab-free, open no comment, and not itself wear surrounding quotes
/// without holding white space.
pub proof fn lemma_name_row_round_trip(st: WinKeyLayoutView, sc: u8, name: Seq<char>)
    requires
        name.len() > 0,
        !is_comment_tok(name),
        forall|i: int| 0 <= i < name.len() ==> name[i] != '\t',
        (exists|i: int| 0 <= i < name.len() && is_white_space(#[trigger] name[i])) || !(name.len()
            >= 2 && name[0] == '"' && name.last() == '"'),
    ensures
        klc_step(
            Table::Keyname,
            st,
            line_args_spec(hex_pad(sc as nat, 2) + seq!['\t'] + quote_multi_spec(name)),
        ) == Ok::<(Table, WinKeyLayoutView), KlayError>(
            (
                Table::Keyname,
                WinKeyLayoutView { key_names: assoc_set(st.key_names, sc, name), ..st },
            ),
        ),
        klc_step(
            Table::KeynameExt,
            st,
            line_args_spec(hex_pad(sc as nat, 2) + seq!['\t'] + quote_multi_spec(name)),
        ) == Ok::<(Table, WinKeyLayoutView), KlayError>(
            (
                Table::KeynameExt,
                WinKeyLayoutView { key_names_ext: assoc_set(st.key_names_ext, sc, name), ..st },
            ),
        ),
{
    let h = hex_pad(sc as nat, 2);
    crate::text::lemma_hex_pad_len(sc as nat, 2);
    lemma_scan_field_len(sc);
    assert(plain_field(h)) by {
        assert(forall|i: int| 0 <= i < h.len() ==> crate::text::is_hex_digit(#[trigger] h[i]));
        assert(crate::text::is_hex_digit(h[0]));
    }
    lemma_not_keyword(h);
    let q = quote_multi_spec(name);
    assert(plain_field(q)) by {
        if exists|i: int| 0 <= i < name.len() && is_white_space(#[trigger] name[i]) {
            assert(q =~= seq!['"'] + name + seq!['"']);
            assert(q[0] == '"');
            assert(forall|i: int| 0 <= i < q.len() ==> q[i] != '\t') by {
                assert(forall|i: int| 1 <= i < name.len() + 1 ==> q[i] == name[i - 1]);
                assert(q[0] == '"' && q[q.len() - 1] == '"');
            }
        }
    }
    lemma_two_field_args(h, q);
    lemma_scan_field_round_trip(sc);
    lemma_quote_round_trip(name);
}

/// Round trip of a dead-key-name row: the code point and always-quoted
/// display name the writer emits read back as the same binding, for a
/// tab-free name.
pub proof fn lemma_dead_name_row_round_trip(st: WinKeyLayoutView, c: char, name: Seq<char>)
    requires
        forall|i: int| 0 <= i < name.len() ==> name[i] != '\t',
    ensures
        klc_step(
            Table::KeynameDead,
            st,
            line_args_spec(
                hex_pad((c as u32) as nat, 4) + seq!['\t', '"'] + name + seq!['"'],
            ),
        ) == Ok::<(Table, WinKeyLayoutView), KlayError>(
            (
                Table::KeynameDead,
                WinKeyLayoutView { keynames_dead: assoc_set(st.keynames_dead, c, name), ..st },
            ),
        ),
{
    lemma_hex4_round_trip(c);
    let h = hex_pad((c as u32) as nat, 4);
    crate::text::lemma_hex_pad_len((c as u32) as nat, 4);
    assert(h.len() >= 4);
    lemma_not_keyword_long(h);
    lemma_quoted_field(name);
    let q = seq!['"'] + name + seq!['"'];
    lemma_two_field_args(h, q);
    assert(h + seq!['\t', '"'] + name + seq!['"'] =~= h + seq!['\t'] + q);
}

/// A field of hexadecimal digits matches no section or header keyword.
proof fn lemma_not_keyword_long(f: Seq<char>)
    requires
        f.len() > 0,
        forall|i: int| 0 <= i < f.len() ==> crate::text::is_hex_digit(#[trigger] f[i]),
    ensures
        f != "ATTRIBUTES"@ && f != "SHIFTSTATE"@ && f != "LAYOUT"@ && f != "DEADKEY"@ && f
            != "KEYNAME"@ && f != "KEYNAME_EXT"@ && f != "KEYNAME_DEAD"@ && f != "DESCRIPTIONS"@
            && f != "LANGUAGENAMES"@ && f != "KBD"@ && f != "COPYRIGHT"@ && f != "COMPANY"@ && f
            != "LOCALENAME"@ && f != "LOCALEID"@ && f != "VERSION"@,
{
    reveal_strlit("ATTRIBUTES");
    reveal_strlit("SHIFTSTATE");
    reveal_strlit("LAYOUT");
    reveal_strlit("DEADKEY");
    reveal_strlit("KEYNAME");
    reveal_strlit("KEYNAME_EXT");
    reveal_strlit("KEYNAME_DEAD");
    reveal_strlit("DESCRIPTIONS");
    reveal_strlit("LANGUAGENAMES");
    reveal_strlit("KBD");
    reveal_strlit("COPYRIGHT");
    reveal_strlit("COMPANY");
    reveal_strlit("LOCALENAME");
    reveal_strlit("LOCALEID");
    reveal_strlit("VERSION");
    assert(!crate::text::is_hex_digit('A') ==> false) by {
        assert(crate::text::is_hex_digit('A'));
    }
    assert(f[0] != 'S' && f[0] != 'L' && f[0] != 'K' && f[0] != 'V') by {
        assert(crate::text::is_hex_digit(f[0]));
    }
    if f == "ATTRIBUTES"@ {
        assert(f[1] == 'T');
        assert(crate::text::is_hex_digit(f[1]));
        assert(false);
    }
    if f == "COPYRIGHT"@ {
        assert(f[0] == 'C');
        assert(f[1] == 'O');
        assert(crate::text::is_hex_digit(f[1]));
        assert(false);
    }
    if f == "COMPANY"@ {
        assert(f[1] == 'O');
        assert(crate::text::is_hex_digit(f[1]));
        assert(false);
    }
    if f == "DEADKEY"@ {
        assert(f[4] == 'K');
        assert(crate::text::is_hex_digit(f[4]));
        assert(false);
    }
    if f == "DESCRIPTIONS"@ {
        assert(f[2] == 'S');
        assert(crate::text::is_hex_digit(f[2]));
        assert(false);
    }
}

/// The writer's header and dead-key line texts are exactly the lines
/// the round-trip laws read back: each serialized form is the law's
/// line followed by its terminators.
pub proof fn lemma_writer_line_texts(
    key: Seq<char>,
    arg: Seq<char>,
    id: Seq<char>,
    name: Seq<char>,
    v: Seq<char>,
    a: char,
    b: char,
    c: char,
    sc: u8,
)
    requires
        arg.len() > 0,
    ensures
        key_arg_spec(key, arg) == key + seq!['\t', '"'] + arg + seq!['"'] + "\r\n\r\n"@,
        "KBD\t"@ + id + "\t\""@ + name + "\"\r\n\r\n"@ == "KBD"@ + seq!['\t'] + id + seq![
            '\t',
            '"',
        ] + name + seq!['"'] + "\r\n\r\n"@,
        "VERSION\t"@ + v + "\r\n\r\n"@ == "VERSION"@ + seq!['\t'] + v + "\r\n\r\n"@,
        "DEADKEY\t"@ + hex_pad((c as u32) as nat, 4) + "\r\n\r\n"@ == "DEADKEY"@ + seq!['\t']
            + hex_pad((c as u32) as nat, 4) + "\r\n\r\n"@,
        deadkey_row_spec(a, b) == deadkey_row_body_spec(a, b) + "\r\n"@,
        hex_pad(sc as nat, 2) + "\t"@ + quote_multi_spec(name) + "\r\n"@ == hex_pad(sc as nat, 2)
            + seq!['\t'] + quote_multi_spec(name) + "\r\n"@,
        hex_pad((c as u32) as nat, 4) + "\t\""@ + name + "\"\r\n"@ == hex_pad(
            (c as u32) as nat,
            4,
        ) + seq!['\t', '"'] + name + seq!['"'] + "\r\n"@,
{
    reveal_strlit("\t");
    reveal_strlit("\t\"");
    reveal_strlit("\"");
    reveal_strlit("\"\r\n\r\n");
    reveal_strlit("\r\n");
    reveal_strlit("\r\n\r\n");
    reveal_strlit("\"\r\n");
    reveal_strlit("KBD");
    reveal_strlit("KBD\t");
    reveal_strlit("VERSION");
    reveal_strlit("VERSION\t");
    reveal_strlit("DEADKEY");
    reveal_strlit("DEADKEY\t");
    reveal_strlit("\t// ");
    reveal_strlit("// ");
    assert(key_arg_spec(key, arg) =~= key + seq!['\t', '"'] + arg + seq!['"'] + "\r\n\r\n"@);
    assert("KBD\t"@ + id + "\t\""@ + name + "\"\r\n\r\n"@ =~= "KBD"@ + seq!['\t'] + id + seq![
        '\t',
        '"',
    ] + name + seq!['"'] + "\r\n\r\n"@);
    assert("VERSION\t"@ + v + "\r\n\r\n"@ =~= "VERSION"@ + seq!['\t'] + v + "\r\n\r\n"@);
    assert("DEADKEY\t"@ + hex_pad((c as u32) as nat, 4) + "\r\n\r\n"@ =~= "DEADKEY"@ + seq![
        '\t',
    ] + hex_pad((c as u32) as nat, 4) + "\r\n\r\n"@);
    assert(deadkey_row_spec(a, b) =~= deadkey_row_body_spec(a, b) + "\r\n"@);
    assert(hex_pad(sc as nat, 2) + "\t"@ + quote_multi_spec(name) + "\r\n"@ =~= hex_pad(
        sc as nat,
        2,
    ) + seq!['\t'] + quote_multi_spec(name) + "\r\n"@);
    assert(hex_pad((c as u32) as nat, 4) + "\t\""@ + name + "\"\r\n"@ =~= hex_pad(
        (c as u32) as nat,
        4,
    ) + seq!['\t', '"'] + name + seq!['"'] + "\r\n"@);
}

} // verus!
