//! The macOS keylayout document tree: the structural shape of the XML
//! document, the escaping rule for non-printable output characters, and
//! the builder that fills the tree from a converted Windows layout.
//! Reading and writing the XML itself is left to the callers.

use vstd::prelude::*;
use crate::klc::WinKeyLayout;

verus! {

/// The root of a keylayout document.
#[derive(Debug)]
pub struct KeyLayout {
    pub group: u16,
    pub id: i32,
    pub name: String,
    pub layouts: Layouts,
    pub modifier_map: ModifierMap,
    pub key_map_set: KeyMapSet,
    pub actions: Actions,
    pub terminators: Terminators,
}

/// The hardware ranges of the document.
#[derive(Debug)]
pub struct Layouts {
    pub layout: Vec<Layout>,
}

/// One hardware range and the map set and modifiers it selects.
#[derive(Debug)]
pub struct Layout {
    pub first: u16,
    pub last: u16,
    pub map_set: String,
    pub modifiers: String,
}

/// The modifier table: which modifier combinations select which key
/// map.
#[derive(Debug)]
pub struct ModifierMap {
    pub id: String,
    pub default_index: u16,
    pub key_map_select: Vec<KeyMapSelect>,
}

/// One selection row of the modifier table.
#[derive(Debug)]
pub struct KeyMapSelect {
    pub map_index: u16,
    pub modifier: Vec<Modifier>,
}

/// One modifier combination.
#[derive(Debug)]
pub struct Modifier {
    pub keys: String,
}

/// The set of key maps of the document.
#[derive(Debug)]
pub struct KeyMapSet {
    pub id: String,
    pub key_map: Vec<KeyMap>,
}

/// One key map: the keys of one modifier state.
#[derive(Debug)]
pub struct KeyMap {
    pub index: u16,
    pub key: Vec<Key>,
}

/// One key of a key map: a literal output or a named action.
#[derive(Debug)]
pub enum Key {
    Output { code: u16, output: String },
    Action { code: u16, action: String },
}

/// The named actions of the document.
#[derive(Debug)]
pub struct Actions {
    pub action: Vec<Action>,
}

/// The terminators of the document's composition states.
#[derive(Debug)]
pub struct Terminators {
    pub when: Vec<When>,
}

/// One named action and its state rows.
#[derive(Debug)]
pub struct Action {
    pub id: String,
    pub when: Vec<When>,
}

/// One state row: an output or a next state.
#[derive(Debug)]
pub enum When {
    Output { state: String, output: String },
    Next { state: String, next: String },
}

/// What escaping a text for the document means: printable seven-bit
/// characters stand as they are; every other character becomes a
/// numeric character reference with at least four uppercase
/// hexadecimal digits.
pub open spec fn escape_spec(s: Seq<char>) -> Seq<char>
    decreases s.len(),
{
    if s.len() == 0 {
        Seq::empty()
    } else {
        escape_spec(s.drop_last()) + escape_char_spec(s.last())
    }
}

/// The escaped form of one character.
pub open spec fn escape_char_spec(c: char) -> Seq<char> {
    if 0x20 <= (c as u32) && (c as u32) <= 0x7E {
        seq![c]
    } else {
        "&#x"@ + crate::text::hex_pad_upper((c as u32) as nat, 4) + ";"@
    }
}

/// Escapes a text for the document: printable seven-bit characters
/// stand as they are, every other character becomes a numeric
/// character reference.
pub fn escape(s: &str) -> (r: String)
    ensures
        r@ == escape_spec(s@),
{
    let n: usize = s.unicode_len();
    let mut out: Vec<char> = Vec::new();
    let mut i: usize = 0;
    proof {
        assert(escape_spec(s@.take(0)) =~= Seq::<char>::empty());
        assert(out@ =~= escape_spec(s@.take(0)));
    }
    while i < n
        invariant
            i <= n,
            n == s@.len(),
            out@ == escape_spec(s@.take(i as int)),
        decreases n - i,
    {
        let c = s.get_char(i);
        let v: u32 = c as u32;
        if 0x20 <= v && v <= 0x7E {
            out.push(c);
        } else {
            crate::text::push_str(&mut out, "&#x");
            crate::text::push_hex_upper(&mut out, v, 4);
            crate::text::push_str(&mut out, ";");
        }
        i = i + 1;
        proof {
            assert(s@.take(i as int).drop_last() =~= s@.take(i - 1));
            assert(s@.take(i as int).last() == s@[i - 1]);
            assert(out@ =~= escape_spec(s@.take(i as int)));
        }
    }
    proof {
        assert(s@.take(n as int) =~= s@);
    }
    crate::text::chars_to_string(&out)
}

/// The modifier combination that selects each key map.
pub open spec fn modifier_keys_spec(i: int) -> Seq<char> {
    if i == 1 {
        "caps"@
    } else if i == 2 {
        "anyShift caps?"@
    } else if i == 3 {
        "anyOption"@
    } else if i == 4 {
        "anyOption caps"@
    } else if i == 5 {
        "anyOption anyShift caps?"@
    } else if i == 6 {
        "command anyOption caps?"@
    } else if i == 7 {
        "command anyOption anyShift caps?"@
    } else {
        "control command? anyOption? anyShift? caps?"@
    }
}

/// One selection row with one modifier combination.
fn select_row(map_index: u16, keys: &str) -> (r: KeyMapSelect)
    ensures
        r.map_index == map_index,
        r.modifier@.len() == 1,
        r.modifier@[0].keys@ == keys@,
{
    let mut modifier: Vec<Modifier> = Vec::new();
    modifier.push(Modifier { keys: keys.to_owned() });
    KeyMapSelect { map_index, modifier }
}

/// Builds the keylayout tree of a converted Windows layout: the fixed
/// modifier table with nine key maps, the whole hardware range on one
/// map set, the source layout's name, and empty action and terminator
/// tables.
pub fn convert(win_kbd: &WinKeyLayout, id: i32) -> (r: KeyLayout)
    ensures
        r.group == 126,
        r.id == id,
        r.name@ == win_kbd@.name,
        r.layouts.layout@.len() == 1,
        r.layouts.layout@[0].first == 0,
        r.layouts.layout@[0].last == 255,
        r.layouts.layout@[0].map_set@ == "a"@,
        r.layouts.layout@[0].modifiers@ == "mods"@,
        r.modifier_map.id@ == "mods"@,
        r.modifier_map.default_index == 0,
        r.modifier_map.key_map_select@.len() == 9,
        forall|i: int|
            0 <= i < 9 ==> (#[trigger] r.modifier_map.key_map_select@[i]).map_index == i,
        r.modifier_map.key_map_select@[0].modifier@.len() == 2,
        r.modifier_map.key_map_select@[0].modifier@[0].keys@ == Seq::<char>::empty(),
        r.modifier_map.key_map_select@[0].modifier@[1].keys@ == "command anyShift? caps?"@,
        forall|i: int|
            1 <= i < 9 ==> (#[trigger] r.modifier_map.key_map_select@[i]).modifier@.len() == 1,
        forall|i: int|
            1 <= i < 9 ==> (#[trigger] r.modifier_map.key_map_select@[i]).modifier@[0].keys@
                == modifier_keys_spec(i),
        r.key_map_set.id@ == "a"@,
        r.key_map_set.key_map@.len() == 9,
        forall|i: int| 0 <= i < 9 ==> (#[trigger] r.key_map_set.key_map@[i]).index == i,
        forall|i: int| 0 <= i < 9 ==> (#[trigger] r.key_map_set.key_map@[i]).key@.len() == 0,
        r.actions.action@.len() == 0,
        r.terminators.when@.len() == 0,
{
    let mut key_maps: Vec<KeyMap> = Vec::new();
    let mut i: u16 = 0;
    while i < 9
        invariant
            i <= 9,
            key_maps@.len() == i,
            forall|j: int| 0 <= j < i ==> (#[trigger] key_maps@[j]).index == j,
            forall|j: int| 0 <= j < i ==> (#[trigger] key_maps@[j]).key@.len() == 0,
        decreases 9 - i,
    {
        key_maps.push(KeyMap { index: i, key: Vec::new() });
        i = i + 1;
    }
    let mut key_map_select: Vec<KeyMapSelect> = Vec::new();
    let mut first_modifier: Vec<Modifier> = Vec::new();
    first_modifier.push(Modifier { keys: "".to_owned() });
    proof {
        reveal_strlit("");
        assert(""@ =~= Seq::<char>::empty());
    }
    first_modifier.push(Modifier { keys: "command anyShift? caps?".to_owned() });
    key_map_select.push(KeyMapSelect { map_index: 0, modifier: first_modifier });
    key_map_select.push(select_row(1, "caps"));
    key_map_select.push(select_row(2, "anyShift caps?"));
    key_map_select.push(select_row(3, "anyOption"));
    key_map_select.push(select_row(4, "anyOption caps"));
    key_map_select.push(select_row(5, "anyOption anyShift caps?"));
    key_map_select.push(select_row(6, "command anyOption caps?"));
    key_map_select.push(select_row(7, "command anyOption anyShift caps?"));
    key_map_select.push(select_row(8, "control command? anyOption? anyShift? caps?"));
    let mut layout_rows: Vec<Layout> = Vec::new();
    layout_rows.push(
        Layout { first: 0, last: 255, map_set: "a".to_owned(), modifiers: "mods".to_owned() },
    );
    KeyLayout {
        group: 126,
        id,
        name: win_kbd.name.clone(),
        layouts: Layouts { layout: layout_rows },
        modifier_map: ModifierMap {
            id: "mods".to_owned(),
            default_index: 0,
            key_map_select,
        },
        key_map_set: KeyMapSet { id: "a".to_owned(), key_map: key_maps },
        actions: Actions { action: Vec::new() },
        terminators: Terminators { when: Vec::new() },
    }
}

} // verus!
