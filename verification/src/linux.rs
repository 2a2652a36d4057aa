//! The Linux XKB "symbols" model: output characters, the merge algebra
//! that layers explicit keys over inherited defaults, the fixed key
//! identifiers, and the block-based symbols codec.

use vstd::prelude::*;
use crate::KlayError;

verus! {

broadcast use vstd::string::group_string_axioms;

/// Mathematical model of a [`Character`]: a literal code point or a named
/// dead-key marker.
pub enum CharacterView {
    Lit(char),
    Dead(Seq<char>),
}

/// One output slot of a key: a literal code point, or a named dead-key
/// marker (an opaque string identifying a composing accent). The code
/// point `'\0'` is the empty sentinel: no output bound.
#[derive(Debug)]
pub enum Character {
    Char(char),
    Dead(String),
}

impl View for Character {
    type V = CharacterView;

    open spec fn view(&self) -> CharacterView {
        match self {
            Character::Char(c) => CharacterView::Lit(*c),
            Character::Dead(s) => CharacterView::Dead(s@),
        }
    }
}

/// The empty sentinel: no output bound.
pub open spec fn empty_slot() -> CharacterView {
    CharacterView::Lit('\0')
}

/// The slot-wise merge: the left operand wins unless it is the empty
/// sentinel. Explicit assignments override inherited defaults.
pub open spec fn merge_char(a: CharacterView, b: CharacterView) -> CharacterView {
    if a == empty_slot() {
        b
    } else {
        a
    }
}

impl PartialEq for Character {
    fn eq(&self, other: &Character) -> (r: bool) {
        match self {
            Character::Char(a) => match other {
                Character::Char(b) => *a == *b,
                Character::Dead(_) => false,
            },
            Character::Dead(a) => match other {
                Character::Dead(b) => *a == *b,
                Character::Char(_) => false,
            },
        }
    }
}

impl vstd::std_specs::cmp::PartialEqSpecImpl for Character {
    open spec fn obeys_eq_spec() -> bool {
        true
    }

    open spec fn eq_spec(&self, other: &Character) -> bool {
        self@ == other@
    }
}

impl Eq for Character {}

impl Clone for Character {
    /// A clone keeps the slot's model.
    fn clone(&self) -> (r: Character)
        ensures
            r@ == self@,
    {
        match self {
            Character::Char(c) => Character::Char(*c),
            Character::Dead(s) => Character::Dead(s.clone()),
        }
    }
}

impl Character {
    /// Whether this slot is the empty sentinel.
    pub fn is_zero(&self) -> (r: bool)
        ensures
            r == (self@ == empty_slot()),
    {
        match self {
            Character::Char(c) => *c == '\0',
            Character::Dead(_) => false,
        }
    }
}

impl Default for Character {
    /// The default slot is the empty sentinel.
    fn default() -> (r: Character)
        ensures
            r@ == empty_slot(),
    {
        Character::Char('\0')
    }
}

impl core::ops::BitOr for Character {
    type Output = Character;

    /// The slot-wise merge: first-assigned wins; the empty sentinel never
    /// overrides a present value.
    fn bitor(self, other: Character) -> (r: Character) {
        if self.is_zero() {
            other
        } else {
            self
        }
    }
}

/// What the exec merge operator on slots returns: the left operand, or
/// the right one where the left is the empty sentinel.
pub open spec fn char_bitor(a: Character, b: Character) -> Character {
    if a@ == empty_slot() {
        b
    } else {
        a
    }
}

impl vstd::std_specs::ops::BitOrSpecImpl for Character {
    open spec fn obeys_bitor_spec() -> bool {
        true
    }

    open spec fn bitor_req(self, rhs: Character) -> bool {
        true
    }

    open spec fn bitor_spec(self, rhs: Character) -> Character {
        char_bitor(self, rhs)
    }
}

/// Merging a slot with itself changes nothing.
pub proof fn lemma_merge_char_idempotent(a: CharacterView)
    ensures
        merge_char(a, a) == a,
{
}

/// The empty sentinel is an identity of the merge, on both sides.
pub proof fn lemma_merge_char_empty(a: CharacterView)
    ensures
        merge_char(empty_slot(), a) == a,
        merge_char(a, empty_slot()) == a,
{
}

/// The exec merge operator computes the slot-wise merge of the models.
pub proof fn lemma_bitor_is_merge(a: Character, b: Character)
    ensures
        char_bitor(a, b)@ == merge_char(a@, b@),
{
}

/// Mathematical model of an [`Output`].
pub struct OutputView {
    pub normal: CharacterView,
    pub shift: CharacterView,
    pub altgr: CharacterView,
    pub altgr_shift: CharacterView,
}

/// The up-to-four output slots of one key, selected by modifier
/// combination: plain, shift, AltGr, and AltGr with shift.
#[derive(Debug)]
pub struct Output {
    pub normal: Character,
    pub shift: Character,
    pub altgr: Character,
    pub altgr_shift: Character,
}

impl View for Output {
    type V = OutputView;

    open spec fn view(&self) -> OutputView {
        OutputView {
            normal: self.normal@,
            shift: self.shift@,
            altgr: self.altgr@,
            altgr_shift: self.altgr_shift@,
        }
    }
}

/// The slot-wise merge of two outputs.
pub open spec fn merge_output(a: OutputView, b: OutputView) -> OutputView {
    OutputView {
        normal: merge_char(a.normal, b.normal),
        shift: merge_char(a.shift, b.shift),
        altgr: merge_char(a.altgr, b.altgr),
        altgr_shift: merge_char(a.altgr_shift, b.altgr_shift),
    }
}

/// An output whose every slot is the empty sentinel.
pub open spec fn empty_output() -> OutputView {
    OutputView {
        normal: empty_slot(),
        shift: empty_slot(),
        altgr: empty_slot(),
        altgr_shift: empty_slot(),
    }
}

impl PartialEq for Output {
    fn eq(&self, other: &Output) -> (r: bool) {
        self.normal == other.normal && self.shift == other.shift && self.altgr == other.altgr
            && self.altgr_shift == other.altgr_shift
    }
}

impl vstd::std_specs::cmp::PartialEqSpecImpl for Output {
    open spec fn obeys_eq_spec() -> bool {
        true
    }

    open spec fn eq_spec(&self, other: &Output) -> bool {
        self@ == other@
    }
}

impl Eq for Output {}

impl Clone for Output {
    /// A clone keeps the output's model.
    fn clone(&self) -> (r: Output)
        ensures
            r@ == self@,
    {
        Output {
            normal: self.normal.clone(),
            shift: self.shift.clone(),
            altgr: self.altgr.clone(),
            altgr_shift: self.altgr_shift.clone(),
        }
    }
}

/// What the exec merge operator on outputs returns, slot by slot.
pub open spec fn output_bitor(a: Output, b: Output) -> Output {
    Output {
        normal: char_bitor(a.normal, b.normal),
        shift: char_bitor(a.shift, b.shift),
        altgr: char_bitor(a.altgr, b.altgr),
        altgr_shift: char_bitor(a.altgr_shift, b.altgr_shift),
    }
}

impl core::ops::BitOr for Output {
    type Output = Output;

    /// The slot-wise merge of two outputs: explicit values on the left,
    /// inherited defaults on the right.
    fn bitor(self, other: Output) -> (r: Output) {
        Output {
            normal: self.normal | other.normal,
            shift: self.shift | other.shift,
            altgr: self.altgr | other.altgr,
            altgr_shift: self.altgr_shift | other.altgr_shift,
        }
    }
}

impl vstd::std_specs::ops::BitOrSpecImpl for Output {
    open spec fn obeys_bitor_spec() -> bool {
        true
    }

    open spec fn bitor_req(self, rhs: Output) -> bool {
        true
    }

    open spec fn bitor_spec(self, rhs: Output) -> Output {
        output_bitor(self, rhs)
    }
}

/// The exec merge operator on outputs computes the slot-wise merge of the
/// models.
pub proof fn lemma_output_bitor_is_merge(a: Output, b: Output)
    ensures
        output_bitor(a, b)@ == merge_output(a@, b@),
{
    lemma_bitor_is_merge(a.normal, b.normal);
    lemma_bitor_is_merge(a.shift, b.shift);
    lemma_bitor_is_merge(a.altgr, b.altgr);
    lemma_bitor_is_merge(a.altgr_shift, b.altgr_shift);
}

/// Merging an output with itself changes nothing.
pub proof fn lemma_merge_output_idempotent(a: OutputView)
    ensures
        merge_output(a, a) == a,
{
}

/// The all-empty output is an identity of the merge, on both sides.
pub proof fn lemma_merge_output_empty(a: OutputView)
    ensures
        merge_output(empty_output(), a) == a,
        merge_output(a, empty_output()) == a,
{
}

/// The fixed Linux key identifiers of the alphanumeric block: the four
/// letter rows, space, backslash, the keypad decimal key and the ISO
/// extra key.
#[derive(Debug, PartialEq, Eq, Structural, Copy, Clone)]
pub enum Key {
    AE01,
    AE02,
    AE03,
    AE04,
    AE05,
    AE06,
    AE07,
    AE08,
    AE09,
    AE10,
    AE11,
    AE12,
    AD01,
    AD02,
    AD03,
    AD04,
    AD05,
    AD06,
    AD07,
    AD08,
    AD09,
    AD10,
    AD11,
    AD12,
    AC01,
    AC02,
    AC03,
    AC04,
    AC05,
    AC06,
    AC07,
    AC08,
    AC09,
    AC10,
    AC11,
    TLDE,
    BKSL,
    AB01,
    AB02,
    AB03,
    AB04,
    AB05,
    AB06,
    AB07,
    AB08,
    AB09,
    AB10,
    SPCE,
    KPDL,
    LSGT,
}

/// The position of a key identifier in the serialization order.
pub open spec fn key_index_spec(k: Key) -> nat {
    match k {
        Key::AE01 => 0,
        Key::AE02 => 1,
        Key::AE03 => 2,
        Key::AE04 => 3,
        Key::AE05 => 4,
        Key::AE06 => 5,
        Key::AE07 => 6,
        Key::AE08 => 7,
        Key::AE09 => 8,
        Key::AE10 => 9,
        Key::AE11 => 10,
        Key::AE12 => 11,
        Key::AD01 => 12,
        Key::AD02 => 13,
        Key::AD03 => 14,
        Key::AD04 => 15,
        Key::AD05 => 16,
        Key::AD06 => 17,
        Key::AD07 => 18,
        Key::AD08 => 19,
        Key::AD09 => 20,
        Key::AD10 => 21,
        Key::AD11 => 22,
        Key::AD12 => 23,
        Key::AC01 => 24,
        Key::AC02 => 25,
        Key::AC03 => 26,
        Key::AC04 => 27,
        Key::AC05 => 28,
        Key::AC06 => 29,
        Key::AC07 => 30,
        Key::AC08 => 31,
        Key::AC09 => 32,
        Key::AC10 => 33,
        Key::AC11 => 34,
        Key::TLDE => 35,
        Key::BKSL => 36,
        Key::AB01 => 37,
        Key::AB02 => 38,
        Key::AB03 => 39,
        Key::AB04 => 40,
        Key::AB05 => 41,
        Key::AB06 => 42,
        Key::AB07 => 43,
        Key::AB08 => 44,
        Key::AB09 => 45,
        Key::AB10 => 46,
        Key::SPCE => 47,
        Key::KPDL => 48,
        Key::LSGT => 49,
    }
}

/// The serialization position of a key identifier.
pub fn key_index(k: Key) -> (r: u8)
    ensures
        r as nat == key_index_spec(k),
{
    match k {
        Key::AE01 => 0,
        Key::AE02 => 1,
        Key::AE03 => 2,
        Key::AE04 => 3,
        Key::AE05 => 4,
        Key::AE06 => 5,
        Key::AE07 => 6,
        Key::AE08 => 7,
        Key::AE09 => 8,
        Key::AE10 => 9,
        Key::AE11 => 10,
        Key::AE12 => 11,
        Key::AD01 => 12,
        Key::AD02 => 13,
        Key::AD03 => 14,
        Key::AD04 => 15,
        Key::AD05 => 16,
        Key::AD06 => 17,
        Key::AD07 => 18,
        Key::AD08 => 19,
        Key::AD09 => 20,
        Key::AD10 => 21,
        Key::AD11 => 22,
        Key::AD12 => 23,
        Key::AC01 => 24,
        Key::AC02 => 25,
        Key::AC03 => 26,
        Key::AC04 => 27,
        Key::AC05 => 28,
        Key::AC06 => 29,
        Key::AC07 => 30,
        Key::AC08 => 31,
        Key::AC09 => 32,
        Key::AC10 => 33,
        Key::AC11 => 34,
        Key::TLDE => 35,
        Key::BKSL => 36,
        Key::AB01 => 37,
        Key::AB02 => 38,
        Key::AB03 => 39,
        Key::AB04 => 40,
        Key::AB05 => 41,
        Key::AB06 => 42,
        Key::AB07 => 43,
        Key::AB08 => 44,
        Key::AB09 => 45,
        Key::AB10 => 46,
        Key::SPCE => 47,
        Key::KPDL => 48,
        Key::LSGT => 49,
    }
}

/// The symbolic name of a key identifier.
pub open spec fn key_name_spec(k: Key) -> Seq<char> {
    match k {
        Key::AE01 => "AE01"@,
        Key::AE02 => "AE02"@,
        Key::AE03 => "AE03"@,
        Key::AE04 => "AE04"@,
        Key::AE05 => "AE05"@,
        Key::AE06 => "AE06"@,
        Key::AE07 => "AE07"@,
        Key::AE08 => "AE08"@,
        Key::AE09 => "AE09"@,
        Key::AE10 => "AE10"@,
        Key::AE11 => "AE11"@,
        Key::AE12 => "AE12"@,
        Key::AD01 => "AD01"@,
        Key::AD02 => "AD02"@,
        Key::AD03 => "AD03"@,
        Key::AD04 => "AD04"@,
        Key::AD05 => "AD05"@,
        Key::AD06 => "AD06"@,
        Key::AD07 => "AD07"@,
        Key::AD08 => "AD08"@,
        Key::AD09 => "AD09"@,
        Key::AD10 => "AD10"@,
        Key::AD11 => "AD11"@,
        Key::AD12 => "AD12"@,
        Key::AC01 => "AC01"@,
        Key::AC02 => "AC02"@,
        Key::AC03 => "AC03"@,
        Key::AC04 => "AC04"@,
        Key::AC05 => "AC05"@,
        Key::AC06 => "AC06"@,
        Key::AC07 => "AC07"@,
        Key::AC08 => "AC08"@,
        Key::AC09 => "AC09"@,
        Key::AC10 => "AC10"@,
        Key::AC11 => "AC11"@,
        Key::TLDE => "TLDE"@,
        Key::BKSL => "BKSL"@,
        Key::AB01 => "AB01"@,
        Key::AB02 => "AB02"@,
        Key::AB03 => "AB03"@,
        Key::AB04 => "AB04"@,
        Key::AB05 => "AB05"@,
        Key::AB06 => "AB06"@,
        Key::AB07 => "AB07"@,
        Key::AB08 => "AB08"@,
        Key::AB09 => "AB09"@,
        Key::AB10 => "AB10"@,
        Key::SPCE => "SPCE"@,
        Key::KPDL => "KPDL"@,
        Key::LSGT => "LSGT"@,
    }
}

/// The symbolic name of a key identifier.
pub fn key_name(k: Key) -> (r: &'static str)
    ensures
        r@ == key_name_spec(k),
{
    match k {
        Key::AE01 => "AE01",
        Key::AE02 => "AE02",
        Key::AE03 => "AE03",
        Key::AE04 => "AE04",
        Key::AE05 => "AE05",
        Key::AE06 => "AE06",
        Key::AE07 => "AE07",
        Key::AE08 => "AE08",
        Key::AE09 => "AE09",
        Key::AE10 => "AE10",
        Key::AE11 => "AE11",
        Key::AE12 => "AE12",
        Key::AD01 => "AD01",
        Key::AD02 => "AD02",
        Key::AD03 => "AD03",
        Key::AD04 => "AD04",
        Key::AD05 => "AD05",
        Key::AD06 => "AD06",
        Key::AD07 => "AD07",
        Key::AD08 => "AD08",
        Key::AD09 => "AD09",
        Key::AD10 => "AD10",
        Key::AD11 => "AD11",
        Key::AD12 => "AD12",
        Key::AC01 => "AC01",
        Key::AC02 => "AC02",
        Key::AC03 => "AC03",
        Key::AC04 => "AC04",
        Key::AC05 => "AC05",
        Key::AC06 => "AC06",
        Key::AC07 => "AC07",
        Key::AC08 => "AC08",
        Key::AC09 => "AC09",
        Key::AC10 => "AC10",
        Key::AC11 => "AC11",
        Key::TLDE => "TLDE",
        Key::BKSL => "BKSL",
        Key::AB01 => "AB01",
        Key::AB02 => "AB02",
        Key::AB03 => "AB03",
        Key::AB04 => "AB04",
        Key::AB05 => "AB05",
        Key::AB06 => "AB06",
        Key::AB07 => "AB07",
        Key::AB08 => "AB08",
        Key::AB09 => "AB09",
        Key::AB10 => "AB10",
        Key::SPCE => "SPCE",
        Key::KPDL => "KPDL",
        Key::LSGT => "LSGT",
    }
}

/// The key identifier a symbolic name denotes, if any.
pub open spec fn key_from_name_spec(s: Seq<char>) -> Option<Key> {
    if s == "AE01"@ {
        Some(Key::AE01)
    } else if s == "AE02"@ {
        Some(Key::AE02)
    } else if s == "AE03"@ {
        Some(Key::AE03)
    } else if s == "AE04"@ {
        Some(Key::AE04)
    } else if s == "AE05"@ {
        Some(Key::AE05)
    } else if s == "AE06"@ {
        Some(Key::AE06)
    } else if s == "AE07"@ {
        Some(Key::AE07)
    } else if s == "AE08"@ {
        Some(Key::AE08)
    } else if s == "AE09"@ {
        Some(Key::AE09)
    } else if s == "AE10"@ {
        Some(Key::AE10)
    } else if s == "AE11"@ {
        Some(Key::AE11)
    } else if s == "AE12"@ {
        Some(Key::AE12)
    } else if s == "AD01"@ {
        Some(Key::AD01)
    } else if s == "AD02"@ {
        Some(Key::AD02)
    } else if s == "AD03"@ {
        Some(Key::AD03)
    } else if s == "AD04"@ {
        Some(Key::AD04)
    } else if s == "AD05"@ {
        Some(Key::AD05)
    } else if s == "AD06"@ {
        Some(Key::AD06)
    } else if s == "AD07"@ {
        Some(Key::AD07)
    } else if s == "AD08"@ {
        Some(Key::AD08)
    } else if s == "AD09"@ {
        Some(Key::AD09)
    } else if s == "AD10"@ {
        Some(Key::AD10)
    } else if s == "AD11"@ {
        Some(Key::AD11)
    } else if s == "AD12"@ {
        Some(Key::AD12)
    } else if s == "AC01"@ {
        Some(Key::AC01)
    } else if s == "AC02"@ {
        Some(Key::AC02)
    } else if s == "AC03"@ {
        Some(Key::AC03)
    } else if s == "AC04"@ {
        Some(Key::AC04)
    } else if s == "AC05"@ {
        Some(Key::AC05)
    } else if s == "AC06"@ {
        Some(Key::AC06)
    } else if s == "AC07"@ {
        Some(Key::AC07)
    } else if s == "AC08"@ {
        Some(Key::AC08)
    } else if s == "AC09"@ {
        Some(Key::AC09)
    } else if s == "AC10"@ {
        Some(Key::AC10)
    } else if s == "AC11"@ {
        Some(Key::AC11)
    } else if s == "TLDE"@ {
        Some(Key::TLDE)
    } else if s == "BKSL"@ {
        Some(Key::BKSL)
    } else if s == "AB01"@ {
        Some(Key::AB01)
    } else if s == "AB02"@ {
        Some(Key::AB02)
    } else if s == "AB03"@ {
        Some(Key::AB03)
    } else if s == "AB04"@ {
        Some(Key::AB04)
    } else if s == "AB05"@ {
        Some(Key::AB05)
    } else if s == "AB06"@ {
        Some(Key::AB06)
    } else if s == "AB07"@ {
        Some(Key::AB07)
    } else if s == "AB08"@ {
        Some(Key::AB08)
    } else if s == "AB09"@ {
        Some(Key::AB09)
    } else if s == "AB10"@ {
        Some(Key::AB10)
    } else if s == "SPCE"@ {
        Some(Key::SPCE)
    } else if s == "KPDL"@ {
        Some(Key::KPDL)
    } else if s == "LSGT"@ {
        Some(Key::LSGT)
    } else {
        None
    }
}

/// Reads a key identifier from its symbolic name.
pub fn key_from_name(s: &str) -> (r: Option<Key>)
    ensures
        r == key_from_name_spec(s@),
{
    if crate::text::str_eq(s, "AE01") {
        Some(Key::AE01)
    } else if crate::text::str_eq(s, "AE02") {
        Some(Key::AE02)
    } else if crate::text::str_eq(s, "AE03") {
        Some(Key::AE03)
    } else if crate::text::str_eq(s, "AE04") {
        Some(Key::AE04)
    } else if crate::text::str_eq(s, "AE05") {
        Some(Key::AE05)
    } else if crate::text::str_eq(s, "AE06") {
        Some(Key::AE06)
    } else if crate::text::str_eq(s, "AE07") {
        Some(Key::AE07)
    } else if crate::text::str_eq(s, "AE08") {
        Some(Key::AE08)
    } else if crate::text::str_eq(s, "AE09") {
        Some(Key::AE09)
    } else if crate::text::str_eq(s, "AE10") {
        Some(Key::AE10)
    } else if crate::text::str_eq(s, "AE11") {
        Some(Key::AE11)
    } else if crate::text::str_eq(s, "AE12") {
        Some(Key::AE12)
    } else if crate::text::str_eq(s, "AD01") {
        Some(Key::AD01)
    } else if crate::text::str_eq(s, "AD02") {
        Some(Key::AD02)
    } else if crate::text::str_eq(s, "AD03") {
        Some(Key::AD03)
    } else if crate::text::str_eq(s, "AD04") {
        Some(Key::AD04)
    } else if crate::text::str_eq(s, "AD05") {
        Some(Key::AD05)
    } else if crate::text::str_eq(s, "AD06") {
        Some(Key::AD06)
    } else if crate::text::str_eq(s, "AD07") {
        Some(Key::AD07)
    } else if crate::text::str_eq(s, "AD08") {
        Some(Key::AD08)
    } else if crate::text::str_eq(s, "AD09") {
        Some(Key::AD09)
    } else if crate::text::str_eq(s, "AD10") {
        Some(Key::AD10)
    } else if crate::text::str_eq(s, "AD11") {
        Some(Key::AD11)
    } else if crate::text::str_eq(s, "AD12") {
        Some(Key::AD12)
    } else if crate::text::str_eq(s, "AC01") {
        Some(Key::AC01)
    } else if crate::text::str_eq(s, "AC02") {
        Some(Key::AC02)
    } else if crate::text::str_eq(s, "AC03") {
        Some(Key::AC03)
    } else if crate::text::str_eq(s, "AC04") {
        Some(Key::AC04)
    } else if crate::text::str_eq(s, "AC05") {
        Some(Key::AC05)
    } else if crate::text::str_eq(s, "AC06") {
        Some(Key::AC06)
    } else if crate::text::str_eq(s, "AC07") {
        Some(Key::AC07)
    } else if crate::text::str_eq(s, "AC08") {
        Some(Key::AC08)
    } else if crate::text::str_eq(s, "AC09") {
        Some(Key::AC09)
    } else if crate::text::str_eq(s, "AC10") {
        Some(Key::AC10)
    } else if crate::text::str_eq(s, "AC11") {
        Some(Key::AC11)
    } else if crate::text::str_eq(s, "TLDE") {
        Some(Key::TLDE)
    } else if crate::text::str_eq(s, "BKSL") {
        Some(Key::BKSL)
    } else if crate::text::str_eq(s, "AB01") {
        Some(Key::AB01)
    } else if crate::text::str_eq(s, "AB02") {
        Some(Key::AB02)
    } else if crate::text::str_eq(s, "AB03") {
        Some(Key::AB03)
    } else if crate::text::str_eq(s, "AB04") {
        Some(Key::AB04)
    } else if crate::text::str_eq(s, "AB05") {
        Some(Key::AB05)
    } else if crate::text::str_eq(s, "AB06") {
        Some(Key::AB06)
    } else if crate::text::str_eq(s, "AB07") {
        Some(Key::AB07)
    } else if crate::text::str_eq(s, "AB08") {
        Some(Key::AB08)
    } else if crate::text::str_eq(s, "AB09") {
        Some(Key::AB09)
    } else if crate::text::str_eq(s, "AB10") {
        Some(Key::AB10)
    } else if crate::text::str_eq(s, "SPCE") {
        Some(Key::SPCE)
    } else if crate::text::str_eq(s, "KPDL") {
        Some(Key::KPDL)
    } else if crate::text::str_eq(s, "LSGT") {
        Some(Key::LSGT)
    } else {
        None
    }
}

/// Round trip of the key-identifier names: the name of a key reads back
/// as that key.
#[verifier::rlimit(100)]
pub proof fn lemma_key_name_round_trip(k: Key)
    ensures
        key_from_name_spec(key_name_spec(k)) == Some(k),
{
    reveal_strlit("AE01");
    reveal_strlit("AE02");
    reveal_strlit("AE03");
    reveal_strlit("AE04");
    reveal_strlit("AE05");
    reveal_strlit("AE06");
    reveal_strlit("AE07");
    reveal_strlit("AE08");
    reveal_strlit("AE09");
    reveal_strlit("AE10");
    reveal_strlit("AE11");
    reveal_strlit("AE12");
    reveal_strlit("AD01");
    reveal_strlit("AD02");
    reveal_strlit("AD03");
    reveal_strlit("AD04");
    reveal_strlit("AD05");
    reveal_strlit("AD06");
    reveal_strlit("AD07");
    reveal_strlit("AD08");
    reveal_strlit("AD09");
    reveal_strlit("AD10");
    reveal_strlit("AD11");
    reveal_strlit("AD12");
    reveal_strlit("AC01");
    reveal_strlit("AC02");
    reveal_strlit("AC03");
    reveal_strlit("AC04");
    reveal_strlit("AC05");
    reveal_strlit("AC06");
    reveal_strlit("AC07");
    reveal_strlit("AC08");
    reveal_strlit("AC09");
    reveal_strlit("AC10");
    reveal_strlit("AC11");
    reveal_strlit("TLDE");
    reveal_strlit("BKSL");
    reveal_strlit("AB01");
    reveal_strlit("AB02");
    reveal_strlit("AB03");
    reveal_strlit("AB04");
    reveal_strlit("AB05");
    reveal_strlit("AB06");
    reveal_strlit("AB07");
    reveal_strlit("AB08");
    reveal_strlit("AB09");
    reveal_strlit("AB10");
    reveal_strlit("SPCE");
    reveal_strlit("KPDL");
    reveal_strlit("LSGT");
    assert("AE01"@.len() == 4);
    assert("AE01"@[0] == 'A');
    assert("AE01"@[1] == 'E');
    assert("AE01"@[2] == '0');
    assert("AE01"@[3] == '1');
    assert("AE02"@.len() == 4);
    assert("AE02"@[0] == 'A');
    assert("AE02"@[1] == 'E');
    assert("AE02"@[2] == '0');
    assert("AE02"@[3] == '2');
    assert("AE03"@.len() == 4);
    assert("AE03"@[0] == 'A');
    assert("AE03"@[1] == 'E');
    assert("AE03"@[2] == '0');
    assert("AE03"@[3] == '3');
    assert("AE04"@.len() == 4);
    assert("AE04"@[0] == 'A');
    assert("AE04"@[1] == 'E');
    assert("AE04"@[2] == '0');
    assert("AE04"@[3] == '4');
    assert("AE05"@.len() == 4);
    assert("AE05"@[0] == 'A');
    assert("AE05"@[1] == 'E');
    assert("AE05"@[2] == '0');
    assert("AE05"@[3] == '5');
    assert("AE06"@.len() == 4);
    assert("AE06"@[0] == 'A');
    assert("AE06"@[1] == 'E');
    assert("AE06"@[2] == '0');
    assert("AE06"@[3] == '6');
    assert("AE07"@.len() == 4);
    assert("AE07"@[0] == 'A');
    assert("AE07"@[1] == 'E');
    assert("AE07"@[2] == '0');
    assert("AE07"@[3] == '7');
    assert("AE08"@.len() == 4);
    assert("AE08"@[0] == 'A');
    assert("AE08"@[1] == 'E');
    assert("AE08"@[2] == '0');
    assert("AE08"@[3] == '8');
    assert("AE09"@.len() == 4);
    assert("AE09"@[0] == 'A');
    assert("AE09"@[1] == 'E');
    assert("AE09"@[2] == '0');
    assert("AE09"@[3] == '9');
    assert("AE10"@.len() == 4);
    assert("AE10"@[0] == 'A');
    assert("AE10"@[1] == 'E');
    assert("AE10"@[2] == '1');
    assert("AE10"@[3] == '0');
    assert("AE11"@.len() == 4);
    assert("AE11"@[0] == 'A');
    assert("AE11"@[1] == 'E');
    assert("AE11"@[2] == '1');
    assert("AE11"@[3] == '1');
    assert("AE12"@.len() == 4);
    assert("AE12"@[0] == 'A');
    assert("AE12"@[1] == 'E');
    assert("AE12"@[2] == '1');
    assert("AE12"@[3] == '2');
    assert("AD01"@.len() == 4);
    assert("AD01"@[0] == 'A');
    assert("AD01"@[1] == 'D');
    assert("AD01"@[2] == '0');
    assert("AD01"@[3] == '1');
    assert("AD02"@.len() == 4);
    assert("AD02"@[0] == 'A');
    assert("AD02"@[1] == 'D');
    assert("AD02"@[2] == '0');
    assert("AD02"@[3] == '2');
    assert("AD03"@.len() == 4);
    assert("AD03"@[0] == 'A');
    assert("AD03"@[1] == 'D');
    assert("AD03"@[2] == '0');
    assert("AD03"@[3] == '3');
    assert("AD04"@.len() == 4);
    assert("AD04"@[0] == 'A');
    assert("AD04"@[1] == 'D');
    assert("AD04"@[2] == '0');
    assert("AD04"@[3] == '4');
    assert("AD05"@.len() == 4);
    assert("AD05"@[0] == 'A');
    assert("AD05"@[1] == 'D');
    assert("AD05"@[2] == '0');
    assert("AD05"@[3] == '5');
    assert("AD06"@.len() == 4);
    assert("AD06"@[0] == 'A');
    assert("AD06"@[1] == 'D');
    assert("AD06"@[2] == '0');
    assert("AD06"@[3] == '6');
    assert("AD07"@.len() == 4);
    assert("AD07"@[0] == 'A');
    assert("AD07"@[1] == 'D');
    assert("AD07"@[2] == '0');
    assert("AD07"@[3] == '7');
    assert("AD08"@.len() == 4);
    assert("AD08"@[0] == 'A');
    assert("AD08"@[1] == 'D');
    assert("AD08"@[2] == '0');
    assert("AD08"@[3] == '8');
    assert("AD09"@.len() == 4);
    assert("AD09"@[0] == 'A');
    assert("AD09"@[1] == 'D');
    assert("AD09"@[2] == '0');
    assert("AD09"@[3] == '9');
    assert("AD10"@.len() == 4);
    assert("AD10"@[0] == 'A');
    assert("AD10"@[1] == 'D');
    assert("AD10"@[2] == '1');
    assert("AD10"@[3] == '0');
    assert("AD11"@.len() == 4);
    assert("AD11"@[0] == 'A');
    assert("AD11"@[1] == 'D');
    assert("AD11"@[2] == '1');
    assert("AD11"@[3] == '1');
    assert("AD12"@.len() == 4);
    assert("AD12"@[0] == 'A');
    assert("AD12"@[1] == 'D');
    assert("AD12"@[2] == '1');
    assert("AD12"@[3] == '2');
    assert("AC01"@.len() == 4);
    assert("AC01"@[0] == 'A');
    assert("AC01"@[1] == 'C');
    assert("AC01"@[2] == '0');
    assert("AC01"@[3] == '1');
    assert("AC02"@.len() == 4);
    assert("AC02"@[0] == 'A');
    assert("AC02"@[1] == 'C');
    assert("AC02"@[2] == '0');
    assert("AC02"@[3] == '2');
    assert("AC03"@.len() == 4);
    assert("AC03"@[0] == 'A');
    assert("AC03"@[1] == 'C');
    assert("AC03"@[2] == '0');
    assert("AC03"@[3] == '3');
    assert("AC04"@.len() == 4);
    assert("AC04"@[0] == 'A');
    assert("AC04"@[1] == 'C');
    assert("AC04"@[2] == '0');
    assert("AC04"@[3] == '4');
    assert("AC05"@.len() == 4);
    assert("AC05"@[0] == 'A');
    assert("AC05"@[1] == 'C');
    assert("AC05"@[2] == '0');
    assert("AC05"@[3] == '5');
    assert("AC06"@.len() == 4);
    assert("AC06"@[0] == 'A');
    assert("AC06"@[1] == 'C');
    assert("AC06"@[2] == '0');
    assert("AC06"@[3] == '6');
    assert("AC07"@.len() == 4);
    assert("AC07"@[0] == 'A');
    assert("AC07"@[1] == 'C');
    assert("AC07"@[2] == '0');
    assert("AC07"@[3] == '7');
    assert("AC08"@.len() == 4);
    assert("AC08"@[0] == 'A');
    assert("AC08"@[1] == 'C');
    assert("AC08"@[2] == '0');
    assert("AC08"@[3] == '8');
    assert("AC09"@.len() == 4);
    assert("AC09"@[0] == 'A');
    assert("AC09"@[1] == 'C');
    assert("AC09"@[2] == '0');
    assert("AC09"@[3] == '9');
    assert("AC10"@.len() == 4);
    assert("AC10"@[0] == 'A');
    assert("AC10"@[1] == 'C');
    assert("AC10"@[2] == '1');
    assert("AC10"@[3] == '0');
    assert("AC11"@.len() == 4);
    assert("AC11"@[0] == 'A');
    assert("AC11"@[1] == 'C');
    assert("AC11"@[2] == '1');
    assert("AC11"@[3] == '1');
    assert("TLDE"@.len() == 4);
    assert("TLDE"@[0] == 'T');
    assert("TLDE"@[1] == 'L');
    assert("TLDE"@[2] == 'D');
    assert("TLDE"@[3] == 'E');
    assert("BKSL"@.len() == 4);
    assert("BKSL"@[0] == 'B');
    assert("BKSL"@[1] == 'K');
    assert("BKSL"@[2] == 'S');
    assert("BKSL"@[3] == 'L');
    assert("AB01"@.len() == 4);
    assert("AB01"@[0] == 'A');
    assert("AB01"@[1] == 'B');
    assert("AB01"@[2] == '0');
    assert("AB01"@[3] == '1');
    assert("AB02"@.len() == 4);
    assert("AB02"@[0] == 'A');
    assert("AB02"@[1] == 'B');
    assert("AB02"@[2] == '0');
    assert("AB02"@[3] == '2');
    assert("AB03"@.len() == 4);
    assert("AB03"@[0] == 'A');
    assert("AB03"@[1] == 'B');
    assert("AB03"@[2] == '0');
    assert("AB03"@[3] == '3');
    assert("AB04"@.len() == 4);
    assert("AB04"@[0] == 'A');
    assert("AB04"@[1] == 'B');
    assert("AB04"@[2] == '0');
    assert("AB04"@[3] == '4');
    assert("AB05"@.len() == 4);
    assert("AB05"@[0] == 'A');
    assert("AB05"@[1] == 'B');
    assert("AB05"@[2] == '0');
    assert("AB05"@[3] == '5');
    assert("AB06"@.len() == 4);
    assert("AB06"@[0] == 'A');
    assert("AB06"@[1] == 'B');
    assert("AB06"@[2] == '0');
    assert("AB06"@[3] == '6');
    assert("AB07"@.len() == 4);
    assert("AB07"@[0] == 'A');
    assert("AB07"@[1] == 'B');
    assert("AB07"@[2] == '0');
    assert("AB07"@[3] == '7');
    assert("AB08"@.len() == 4);
    assert("AB08"@[0] == 'A');
    assert("AB08"@[1] == 'B');
    assert("AB08"@[2] == '0');
    assert("AB08"@[3] == '8');
    assert("AB09"@.len() == 4);
    assert("AB09"@[0] == 'A');
    assert("AB09"@[1] == 'B');
    assert("AB09"@[2] == '0');
    assert("AB09"@[3] == '9');
    assert("AB10"@.len() == 4);
    assert("AB10"@[0] == 'A');
    assert("AB10"@[1] == 'B');
    assert("AB10"@[2] == '1');
    assert("AB10"@[3] == '0');
    assert("SPCE"@.len() == 4);
    assert("SPCE"@[0] == 'S');
    assert("SPCE"@[1] == 'P');
    assert("SPCE"@[2] == 'C');
    assert("SPCE"@[3] == 'E');
    assert("KPDL"@.len() == 4);
    assert("KPDL"@[0] == 'K');
    assert("KPDL"@[1] == 'P');
    assert("KPDL"@[2] == 'D');
    assert("KPDL"@[3] == 'L');
    assert("LSGT"@.len() == 4);
    assert("LSGT"@[0] == 'L');
    assert("LSGT"@[1] == 'S');
    assert("LSGT"@[2] == 'G');
    assert("LSGT"@[3] == 'T');
}


/// The synthesized numeric name of a code point: `U` and four or more
/// hexadecimal digits.
pub open spec fn uhex_name(c: char) -> Seq<char> {
    seq!['U'] + crate::text::hex_pad((c as u32) as nat, 4)
}

/// The symbolic name of a code point: the table's name where it has
/// one, the synthesized `U<hex>` form otherwise.
pub open spec fn char_to_name_spec(pairs: Seq<(Seq<char>, char)>, c: char) -> Seq<char> {
    match crate::names::find_name(pairs, c) {
        Some(n) => n,
        None => uhex_name(c),
    }
}

/// The symbolic name of a code point, through the given table.
pub fn char_to_name(names: &crate::names::BiMap, c: char) -> (r: String)
    ensures
        r@ == char_to_name_spec(names@, c),
{
    match names.get_name(c) {
        Some(n) => n,
        None => {
            let mut out: Vec<char> = Vec::new();
            out.push('U');
            crate::text::push_hex(&mut out, c as u32, 4);
            let r = crate::text::chars_to_string(&out);
            proof {
                assert(r@ =~= uhex_name(c));
            }
            r
        },
    }
}

/// The code point a symbolic name denotes: the table's binding where it
/// has one, else the value of a `U<hex>` token.
pub open spec fn name_to_char_spec(pairs: Seq<(Seq<char>, char)>, name: Seq<char>) -> Option<
    char,
> {
    match crate::names::find_char(pairs, name) {
        Some(c) => Some(c),
        None => if name.len() >= 2 && name[0] == 'U' {
            match crate::text::parse_hex_spec(name.skip(1)) {
                Some(u) => if u < 0xD800 || (0xE000 <= u && u <= 0x10FFFF) {
                    Some(u as char)
                } else {
                    None
                },
                None => None,
            }
        } else {
            None
        },
    }
}

/// The code point a symbolic name denotes, through the given table.
pub fn name_to_char(names: &crate::names::BiMap, name: &str) -> (r: Option<char>)
    ensures
        r == name_to_char_spec(names@, name@),
{
    match names.get_char(name) {
        Some(c) => Some(c),
        None => {
            let n: usize = name.unicode_len();
            if n >= 2 && name.get_char(0) == 'U' {
                let rest: &str = name.substring_char(1, n);
                proof {
                    assert(rest@ =~= name@.skip(1));
                }
                match crate::text::parse_hex(rest) {
                    Some(u) => {
                        if u < 0xD800 || (0xE000 <= u && u <= 0x10FFFF) {
                            match crate::text::char_from_u32(u) {
                                Some(c) => {
                                    proof {
                                        vstd::utf8::char_u32_cast(c, u);
                                    }
                                    Some(c)
                                },
                                None => {
                                    proof {
                                        assert(false);
                                    }
                                    None
                                },
                            }
                        } else {
                            None
                        }
                    },
                    None => None,
                }
            } else {
                None
            }
        },
    }
}

/// Round trip of symbolic names: the name given to a code point reads
/// back as that code point, in a well-formed table whose names never
/// collide with the synthesized numeric forms.
pub proof fn lemma_symbol_round_trip(pairs: Seq<(Seq<char>, char)>, c: char)
    requires
        crate::names::bimap_wf(pairs),
        crate::names::find_name(pairs, c) is None ==> crate::names::find_char(
            pairs,
            uhex_name(c),
        ) is None,
    ensures
        name_to_char_spec(pairs, char_to_name_spec(pairs, c)) == Some(c),
{
    match crate::names::find_name(pairs, c) {
        Some(n) => {
            crate::names::lemma_bimap_round_trip(pairs, c);
        },
        None => {
            let h = crate::text::hex_pad((c as u32) as nat, 4);
            let name = uhex_name(c);
            crate::text::lemma_hex_pad_len((c as u32) as nat, 4);
            assert(name.len() >= 5);
            assert(name[0] == 'U');
            assert(name.skip(1) =~= h);
            crate::text::lemma_hex_round_trip(c as u32, 4);
            vstd::utf8::char_is_scalar(c);
            vstd::utf8::char_u32_cast(c, c as u32);
        },
    }
}

/// Mathematical model of a [`PartialXkbSymbols`] block.
pub struct PartialXkbSymbolsView {
    pub name: Seq<char>,
    pub inherits: Option<Seq<char>>,
    pub name_group1: Option<Seq<char>>,
    pub keys: Seq<(Key, OutputView)>,
}

/// One XKB symbols block: its name, at most one inherited block
/// reference (the first occurrence wins), an optional localized group-1
/// display name (first occurrence wins), and the mapping from key
/// identifier to output, kept in key order.
#[derive(Debug, Clone)]
pub struct PartialXkbSymbols {
    pub name: String,
    pub inherits: Option<String>,
    pub name_group1: Option<String>,
    pub keys: Vec<(Key, Output)>,
}

impl View for PartialXkbSymbols {
    type V = PartialXkbSymbolsView;

    open spec fn view(&self) -> PartialXkbSymbolsView {
        PartialXkbSymbolsView {
            name: self.name@,
            inherits: match &self.inherits {
                Some(s) => Some(s@),
                None => None,
            },
            name_group1: match &self.name_group1 {
                Some(s) => Some(s@),
                None => None,
            },
            keys: crate::assoc::pair_view(self.keys@),
        }
    }
}

/// The key rows of a block are in strictly increasing key order.
pub open spec fn xkb_keys_sorted(s: Seq<(Key, OutputView)>) -> bool {
    forall|i: int, j: int|
        0 <= i < j < s.len() ==> key_index_spec((#[trigger] s[i]).0) < key_index_spec(
            (#[trigger] s[j]).0,
        )
}

/// A well-formed block keeps its key rows in key order.
pub open spec fn partial_wf(v: PartialXkbSymbolsView) -> bool {
    xkb_keys_sorted(v.keys)
}

/// The key table with one key bound to an output, kept in key order: an
/// equal key is replaced, a new one is placed before the first greater
/// key.
pub open spec fn key_set_spec(s: Seq<(Key, OutputView)>, k: Key, v: OutputView) -> Seq<
    (Key, OutputView),
>
    decreases s.len(),
{
    if s.len() == 0 {
        seq![(k, v)]
    } else if key_index_spec(k) < key_index_spec(s.first().0) {
        seq![(k, v)] + s
    } else if key_index_spec(k) == key_index_spec(s.first().0) {
        seq![(k, v)] + s.drop_first()
    } else {
        seq![s.first()] + key_set_spec(s.drop_first(), k, v)
    }
}

/// Placing at the position the scan finds is the same as the sorted
/// placement.
proof fn lemma_key_set_at(s: Seq<(Key, OutputView)>, k: Key, v: OutputView, i: int)
    requires
        0 <= i <= s.len(),
        forall|j: int| 0 <= j < i ==> key_index_spec((#[trigger] s[j]).0) < key_index_spec(k),
        i < s.len() ==> key_index_spec(s[i].0) >= key_index_spec(k),
    ensures
        key_set_spec(s, k, v) == if i < s.len() && key_index_spec(s[i].0) == key_index_spec(k) {
            s.update(i, (k, v))
        } else {
            s.insert(i, (k, v))
        },
    decreases s.len(),
{
    if i == 0 {
        if 0 < s.len() && key_index_spec(s[0].0) == key_index_spec(k) {
            assert(key_set_spec(s, k, v) =~= s.update(0, (k, v)));
        } else {
            assert(key_set_spec(s, k, v) =~= s.insert(0, (k, v)));
        }
    } else {
        assert(key_index_spec(s[0].0) < key_index_spec(k));
        assert(forall|j: int|
            0 <= j < i - 1 ==> key_index_spec((#[trigger] s.drop_first()[j]).0) < key_index_spec(
                k,
            )) by {
            assert(forall|j: int|
                0 <= j < s.drop_first().len() ==> (#[trigger] s.drop_first()[j]) == s[j + 1]);
        }
        assert(i - 1 < s.drop_first().len() ==> key_index_spec(s.drop_first()[i - 1].0)
            >= key_index_spec(k));
        lemma_key_set_at(s.drop_first(), k, v, i - 1);
        if i < s.len() && key_index_spec(s[i].0) == key_index_spec(k) {
            assert(s.drop_first()[i - 1] == s[i]);
            assert(key_set_spec(s, k, v) =~= s.update(i, (k, v)));
        } else {
            assert(key_set_spec(s, k, v) =~= s.insert(i, (k, v)));
        }
    }
}

/// Every key of the placed table is the new key or one of the old keys.
proof fn lemma_key_set_members(s: Seq<(Key, OutputView)>, k: Key, v: OutputView)
    ensures
        forall|i: int|
            0 <= i < key_set_spec(s, k, v).len() ==> key_index_spec(
                (#[trigger] key_set_spec(s, k, v)[i]).0,
            ) == key_index_spec(k) || exists|w: int|
                0 <= w < s.len() && (#[trigger] s[w]).0 == key_set_spec(s, k, v)[i].0,
    decreases s.len(),
{
    let t = key_set_spec(s, k, v);
    if s.len() == 0 {
    } else if key_index_spec(k) < key_index_spec(s.first().0) {
        assert forall|i: int| 0 <= i < t.len() implies key_index_spec((#[trigger] t[i]).0)
            == key_index_spec(k) || exists|w: int|
            0 <= w < s.len() && (#[trigger] s[w]).0 == t[i].0 by {
            if i > 0 {
                assert(t[i] == s[i - 1]);
                assert(s[i - 1].0 == t[i].0);
            }
        }
    } else if key_index_spec(k) == key_index_spec(s.first().0) {
        assert forall|i: int| 0 <= i < t.len() implies key_index_spec((#[trigger] t[i]).0)
            == key_index_spec(k) || exists|w: int|
            0 <= w < s.len() && (#[trigger] s[w]).0 == t[i].0 by {
            if i > 0 {
                assert(t[i] == s[i]);
                assert(s[i].0 == t[i].0);
            }
        }
    } else {
        lemma_key_set_members(s.drop_first(), k, v);
        let t2 = key_set_spec(s.drop_first(), k, v);
        assert forall|i: int| 0 <= i < t.len() implies key_index_spec((#[trigger] t[i]).0)
            == key_index_spec(k) || exists|w: int|
            0 <= w < s.len() && (#[trigger] s[w]).0 == t[i].0 by {
            if i == 0 {
                assert(t[0] == s[0]);
                assert(s[0].0 == t[0].0);
            } else {
                assert(t[i] == t2[i - 1]);
                if key_index_spec(t2[i - 1].0) != key_index_spec(k) {
                    let w = choose|w: int|
                        0 <= w < s.drop_first().len() && (#[trigger] s.drop_first()[w]).0 == t2[i
                            - 1].0;
                    assert(s[w + 1].0 == t2[i - 1].0);
                }
            }
        }
    }
}

/// Placing a binding keeps the key rows sorted.
proof fn lemma_key_set_sorted(s: Seq<(Key, OutputView)>, k: Key, v: OutputView)
    requires
        xkb_keys_sorted(s),
    ensures
        xkb_keys_sorted(key_set_spec(s, k, v)),
    decreases s.len(),
{
    if s.len() > 0 && key_index_spec(k) > key_index_spec(s.first().0) {
        assert(xkb_keys_sorted(s.drop_first())) by {
            assert(forall|i: int|
                0 <= i < s.drop_first().len() ==> (#[trigger] s.drop_first()[i]) == s[i + 1]);
        }
        lemma_key_set_sorted(s.drop_first(), k, v);
        lemma_key_set_members(s.drop_first(), k, v);
        let t = key_set_spec(s, k, v);
        let t2 = key_set_spec(s.drop_first(), k, v);
        assert(forall|i: int| 0 <= i < t2.len() ==> (#[trigger] t2[i]) == t[i + 1]);
        assert forall|i: int, j: int| 0 <= i < j < t.len() implies key_index_spec(
            (#[trigger] t[i]).0,
        ) < key_index_spec((#[trigger] t[j]).0) by {
            if i == 0 {
                assert(t[0] == s.first());
                let x = t2[j - 1];
                if key_index_spec(x.0) == key_index_spec(k) {
                } else {
                    let w = choose|w: int|
                        0 <= w < s.drop_first().len() && (#[trigger] s.drop_first()[w]).0 == x.0;
                    assert(s[w + 1].0 == x.0);
                }
            }
        }
    }
}

/// Sorted placement commutes with taking the table's model.
proof fn lemma_key_set_view(s: Seq<(Key, Output)>, k: Key, v: Output)
    ensures
        crate::assoc::pair_view(key_set_exec_spec(s, k, v)) == key_set_spec(
            crate::assoc::pair_view(s),
            k,
            v@,
        ),
    decreases s.len(),
{
    let pv = crate::assoc::pair_view(s);
    if s.len() == 0 {
        assert(crate::assoc::pair_view(key_set_exec_spec(s, k, v)) =~= key_set_spec(pv, k, v@));
    } else if key_index_spec(k) < key_index_spec(s.first().0) {
        assert(pv.first().0 == s.first().0);
        assert(crate::assoc::pair_view(key_set_exec_spec(s, k, v)) =~= key_set_spec(pv, k, v@));
    } else if key_index_spec(k) == key_index_spec(s.first().0) {
        assert(pv.first().0 == s.first().0);
        assert(crate::assoc::pair_view(key_set_exec_spec(s, k, v)) =~= key_set_spec(pv, k, v@));
    } else {
        lemma_key_set_view(s.drop_first(), k, v);
        assert(pv.first().0 == s.first().0);
        assert(crate::assoc::pair_view(s.drop_first()) =~= pv.drop_first());
        assert(crate::assoc::pair_view(key_set_exec_spec(s, k, v)) =~= seq![pv.first()]
            + key_set_spec(pv.drop_first(), k, v@));
        assert(key_set_spec(pv, k, v@) == seq![pv.first()] + key_set_spec(
            pv.drop_first(),
            k,
            v@,
        ));
    }
}

/// The sorted placement on the carrier table.
spec fn key_set_exec_spec(s: Seq<(Key, Output)>, k: Key, v: Output) -> Seq<
    (Key, Output),
>
    decreases s.len(),
{
    if s.len() == 0 {
        seq![(k, v)]
    } else if key_index_spec(k) < key_index_spec(s.first().0) {
        seq![(k, v)] + s
    } else if key_index_spec(k) == key_index_spec(s.first().0) {
        seq![(k, v)] + s.drop_first()
    } else {
        seq![s.first()] + key_set_exec_spec(s.drop_first(), k, v)
    }
}

/// Binds a key in the key table, kept in key order.
pub fn key_set(m: &mut Vec<(Key, Output)>, k: Key, v: Output)
    ensures
        crate::assoc::pair_view(final(m)@) == key_set_spec(
            crate::assoc::pair_view(old(m)@),
            k,
            v@,
        ),
{
    let ghost gv = v;
    let ki: u8 = key_index(k);
    let n: usize = m.len();
    let mut i: usize = 0;
    while i < n
        invariant
            i <= n,
            n == m.len(),
            m@ == old(m)@,
            ki as nat == key_index_spec(k),
            v == gv,
            forall|j: int|
                0 <= j < i ==> key_index_spec((#[trigger] m@[j]).0) < key_index_spec(k),
        decreases n - i,
    {
        let mi: u8 = key_index(m[i].0);
        if mi == ki {
            m.set(i, (k, v));
            proof {
                lemma_key_set_at_exec(old(m)@, k, gv, i as int);
                assert(m@ == key_set_exec_spec(old(m)@, k, gv));
                lemma_key_set_view(old(m)@, k, gv);
            }
            return ;
        }
        if mi > ki {
            m.insert(i, (k, v));
            proof {
                lemma_key_set_at_exec(old(m)@, k, gv, i as int);
                assert(m@ == key_set_exec_spec(old(m)@, k, gv));
                lemma_key_set_view(old(m)@, k, gv);
            }
            return ;
        }
        i = i + 1;
    }
    m.insert(n, (k, v));
    proof {
        lemma_key_set_at_exec(old(m)@, k, gv, n as int);
        assert(m@ == key_set_exec_spec(old(m)@, k, gv));
        lemma_key_set_view(old(m)@, k, gv);
    }
}

/// Placing at the position the scan finds is the same as the sorted
/// placement, on the carrier table.
proof fn lemma_key_set_at_exec(s: Seq<(Key, Output)>, k: Key, v: Output, i: int)
    requires
        0 <= i <= s.len(),
        forall|j: int| 0 <= j < i ==> key_index_spec((#[trigger] s[j]).0) < key_index_spec(k),
        i < s.len() ==> key_index_spec(s[i].0) >= key_index_spec(k),
    ensures
        key_set_exec_spec(s, k, v) == if i < s.len() && key_index_spec(s[i].0) == key_index_spec(
            k,
        ) {
            s.update(i, (k, v))
        } else {
            s.insert(i, (k, v))
        },
    decreases s.len(),
{
    if i == 0 {
        if 0 < s.len() && key_index_spec(s[0].0) == key_index_spec(k) {
            assert(key_set_exec_spec(s, k, v) =~= s.update(0, (k, v)));
        } else {
            assert(key_set_exec_spec(s, k, v) =~= s.insert(0, (k, v)));
        }
    } else {
        assert(key_index_spec(s[0].0) < key_index_spec(k));
        assert(forall|j: int|
            0 <= j < i - 1 ==> key_index_spec((#[trigger] s.drop_first()[j]).0) < key_index_spec(
                k,
            )) by {
            assert(forall|j: int|
                0 <= j < s.drop_first().len() ==> (#[trigger] s.drop_first()[j]) == s[j + 1]);
        }
        assert(i - 1 < s.drop_first().len() ==> key_index_spec(s.drop_first()[i - 1].0)
            >= key_index_spec(k));
        lemma_key_set_at_exec(s.drop_first(), k, v, i - 1);
        if i < s.len() && key_index_spec(s[i].0) == key_index_spec(k) {
            assert(s.drop_first()[i - 1] == s[i]);
            assert(key_set_exec_spec(s, k, v) =~= s.update(i, (k, v)));
        } else {
            assert(key_set_exec_spec(s, k, v) =~= s.insert(i, (k, v)));
        }
    }
}

/// The sorted-placement law at the model level, for callers that keep
/// blocks well formed.
pub proof fn lemma_key_set_preserves_wf(s: Seq<(Key, OutputView)>, k: Key, v: OutputView)
    requires
        xkb_keys_sorted(s),
    ensures
        xkb_keys_sorted(key_set_spec(s, k, v)),
{
    lemma_key_set_sorted(s, k, v);
}

impl PartialXkbSymbols {
    /// A block with the given name and nothing else.
    pub fn new(name: String) -> (r: PartialXkbSymbols)
        ensures
            r@.name == name@,
            r@.inherits is None,
            r@.name_group1 is None,
            r@.keys == Seq::<(Key, OutputView)>::empty(),
            partial_wf(r@),
    {
        let r = PartialXkbSymbols { name, inherits: None, name_group1: None, keys: Vec::new() };
        proof {
            assert(r@.keys =~= Seq::<(Key, OutputView)>::empty());
        }
        r
    }
}


/// The directive token that names an inherited block, spelled out
/// character by character.
pub open spec fn inherit_kw() -> Seq<char> {
    seq!['i', 'n', 'c', 'l', 'u', 'd', 'e']
}

/// The directive token that names an inherited block.
pub fn inherit_token() -> (r: String)
    ensures
        r@ == inherit_kw(),
{
    let mut v: Vec<char> = Vec::new();
    v.push('i');
    v.push('n');
    v.push('c');
    v.push('l');
    v.push('u');
    v.push('d');
    v.push('e');
    let r = crate::text::chars_to_string(&v);
    proof {
        assert(r@ =~= inherit_kw());
    }
    r
}

/// What one output token means: a `dead_` marker keeps its suffix as a
/// dead-key name; anything else is a symbolic name resolved through the
/// table or the `U<hex>` fallback. Blanks around the token are dropped.
pub open spec fn token_char_spec(pairs: Seq<(Seq<char>, char)>, t: Seq<char>) -> Result<
    CharacterView,
    KlayError,
> {
    let w = crate::text::trim_spec(t);
    if crate::text::starts_with_spec(w, "dead_"@) {
        Ok(CharacterView::Dead(w.skip(5)))
    } else {
        match name_to_char_spec(pairs, w) {
            Some(c) => Ok(CharacterView::Lit(c)),
            None => Err(KlayError::MalformedSection),
        }
    }
}

/// The output slot a token list fills at one position: the token's
/// meaning, or the empty sentinel past the end of the list.
pub open spec fn tok_slot(pairs: Seq<(Seq<char>, char)>, toks: Seq<Seq<char>>, i: int) -> Result<
    CharacterView,
    KlayError,
> {
    if 0 <= i < toks.len() {
        token_char_spec(pairs, toks[i])
    } else {
        Ok(empty_slot())
    }
}

/// The four output slots of a key line's token list.
pub open spec fn outputs_of_tokens(pairs: Seq<(Seq<char>, char)>, toks: Seq<Seq<char>>) -> Result<
    OutputView,
    KlayError,
> {
    if tok_slot(pairs, toks, 0) is Err || tok_slot(pairs, toks, 1) is Err || tok_slot(
        pairs,
        toks,
        2,
    ) is Err || tok_slot(pairs, toks, 3) is Err {
        Err(KlayError::MalformedSection)
    } else {
        Ok(
            OutputView {
                normal: tok_slot(pairs, toks, 0)->Ok_0,
                shift: tok_slot(pairs, toks, 1)->Ok_0,
                altgr: tok_slot(pairs, toks, 2)->Ok_0,
                altgr_shift: tok_slot(pairs, toks, 3)->Ok_0,
            },
        )
    }
}

/// The first span between double quotes, if the line has two.
pub open spec fn quoted_span_spec(line: Seq<char>) -> Option<Seq<char>> {
    match crate::text::find_from_spec(line, '"', 0) {
        None => None,
        Some(i1) => match crate::text::find_from_spec(line, '"', i1 + 1) {
            None => None,
            Some(i2) => Some(line.subrange(i1 + 1, i2)),
        },
    }
}

/// What one body line does to a block: a `key` line binds one key's
/// outputs; the inherit directive keeps its first occurrence; the
/// group-1 name keeps its first occurrence; any other line is ignored.
pub open spec fn process_line_spec(
    pairs: Seq<(Seq<char>, char)>,
    st: PartialXkbSymbolsView,
    line: Seq<char>,
) -> Result<PartialXkbSymbolsView, KlayError> {
    if crate::text::starts_with_spec(line, "key "@) {
        key_line_spec(pairs, st, line)
    } else if crate::text::starts_with_spec(line, inherit_kw()) && line.len() >= 8 && line[7]
        == ' ' {
        if st.inherits is Some {
            Ok(st)
        } else {
            match quoted_span_spec(line) {
                None => Err(KlayError::MalformedSection),
                Some(v) => Ok(PartialXkbSymbolsView { inherits: Some(v), ..st }),
            }
        }
    } else if crate::text::starts_with_spec(line, "name[Group1]"@) {
        if st.name_group1 is Some {
            Ok(st)
        } else {
            match quoted_span_spec(line) {
                None => Err(KlayError::MalformedSection),
                Some(v) => Ok(PartialXkbSymbolsView { name_group1: Some(v), ..st }),
            }
        }
    } else {
        Ok(st)
    }
}

/// A `key` line: the identifier in the fixed bracket position, then up
/// to four output tokens between the square brackets.
pub open spec fn key_line_spec(
    pairs: Seq<(Seq<char>, char)>,
    st: PartialXkbSymbolsView,
    line: Seq<char>,
) -> Result<PartialXkbSymbolsView, KlayError> {
    if line.len() < 9 {
        Err(KlayError::MalformedSection)
    } else {
        match key_from_name_spec(line.subrange(5, 9)) {
            None => Err(KlayError::MalformedSection),
            Some(k) => match crate::text::find_from_spec(line, '[', 0) {
                None => Err(KlayError::MalformedSection),
                Some(bi) => match crate::text::find_from_spec(line, ']', bi + 1) {
                    None => Err(KlayError::MalformedSection),
                    Some(ei) => match outputs_of_tokens(
                        pairs,
                        crate::text::split_sep_spec(line.subrange(bi + 1, ei), ','),
                    ) {
                        Err(e) => Err(e),
                        Ok(out) => Ok(
                            PartialXkbSymbolsView { keys: key_set_spec(st.keys, k, out), ..st },
                        ),
                    },
                },
            },
        }
    }
}

/// Reads one output slot of a key line's token list.
fn slot_of(names: &crate::names::BiMap, tokens: &Vec<Vec<char>>, i: usize) -> (r: Result<
    Character,
    KlayError,
>)
    ensures
        match r {
            Ok(ch) => tok_slot(names@, tokens.deep_view(), i as int) == Ok::<
                CharacterView,
                KlayError,
            >(ch@),
            Err(e) => tok_slot(names@, tokens.deep_view(), i as int) == Err::<
                CharacterView,
                KlayError,
            >(e),
        },
{
    proof {
        assert(forall|j: int|
            0 <= j < tokens@.len() ==> tokens.deep_view()[j] == (#[trigger] tokens@[j])@);
    }
    if i >= tokens.len() {
        return Ok(Character::Char('\0'));
    }
    let w = crate::text::trim_chars(&tokens[i]);
    if crate::text::starts_with_chars(&w, "dead_") {
        proof {
            reveal_strlit("dead_");
            assert("dead_"@.len() == 5);
        }
        let rest = crate::text::sub_chars(&w, 5, w.len());
        let r = Character::Dead(crate::text::chars_to_string(&rest));
        proof {
            assert(rest@ =~= w@.skip(5));
        }
        Ok(r)
    } else {
        let ws = crate::text::chars_to_string(&w);
        match name_to_char(names, ws.as_str()) {
            Some(c) => Ok(Character::Char(c)),
            None => Err(KlayError::MalformedSection),
        }
    }
}

impl PartialXkbSymbols {
    /// Applies one body line to the block, as [`process_line_spec`]
    /// states: key lines bind outputs, the first inherit directive and
    /// the first group-1 name stick, unrecognized lines are ignored.
    pub fn process_line(&mut self, names: &crate::names::BiMap, line: &Vec<char>) -> (r: Result<
        (),
        KlayError,
    >)
        requires
            partial_wf(old(self)@),
        ensures
            partial_wf(final(self)@),
            match r {
                Ok(u) => process_line_spec(names@, old(self)@, line@) == Ok::<
                    PartialXkbSymbolsView,
                    KlayError,
                >(final(self)@),
                Err(e) => process_line_spec(names@, old(self)@, line@) == Err::<
                    PartialXkbSymbolsView,
                    KlayError,
                >(e) && *final(self) == *old(self),
            },
    {
        if crate::text::starts_with_chars(line, "key ") {
            if line.len() < 9 {
                return Err(KlayError::MalformedSection);
            }
            let kn = crate::text::sub_chars(line, 5, 9);
            let kns = crate::text::chars_to_string(&kn);
            let k = match key_from_name(kns.as_str()) {
                Some(k) => k,
                None => {
                    return Err(KlayError::MalformedSection);
                },
            };
            let bi = match crate::text::find_from(line, '[', 0) {
                Some(bi) => bi,
                None => {
                    return Err(KlayError::MalformedSection);
                },
            };
            let ei = match crate::text::find_from(line, ']', bi + 1) {
                Some(ei) => ei,
                None => {
                    return Err(KlayError::MalformedSection);
                },
            };
            let content = crate::text::sub_chars(line, bi + 1, ei);
            let tokens = crate::text::split_sep(&content, ',');
            let normal = match slot_of(names, &tokens, 0) {
                Ok(c) => c,
                Err(_) => {
                    return Err(KlayError::MalformedSection);
                },
            };
            let shift = match slot_of(names, &tokens, 1) {
                Ok(c) => c,
                Err(_) => {
                    return Err(KlayError::MalformedSection);
                },
            };
            let altgr = match slot_of(names, &tokens, 2) {
                Ok(c) => c,
                Err(_) => {
                    return Err(KlayError::MalformedSection);
                },
            };
            let altgr_shift = match slot_of(names, &tokens, 3) {
                Ok(c) => c,
                Err(_) => {
                    return Err(KlayError::MalformedSection);
                },
            };
            let out = Output { normal, shift, altgr, altgr_shift };
            let ghost keys_pre = self@.keys;
            key_set(&mut self.keys, k, out);
            proof {
                lemma_key_set_preserves_wf(keys_pre, k, out@);
                assert(self@ =~= PartialXkbSymbolsView {
                    keys: key_set_spec(
                        old(self)@.keys,
                        k,
                        outputs_of_tokens(
                            names@,
                            crate::text::split_sep_spec(line@.subrange(bi + 1, ei as int), ','),
                        )->Ok_0,
                    ),
                    ..old(self)@
                });
            }
            Ok(())
        } else {
            let tok = inherit_token();
            let is_inherit = crate::text::starts_with_chars(line, tok.as_str()) && line.len() >= 8
                && line[7] == ' ';
            if is_inherit {
                if self.inherits.is_some() {
                    return Ok(());
                }
                let i1 = match crate::text::find_from(line, '"', 0) {
                    Some(i1) => i1,
                    None => {
                        return Err(KlayError::MalformedSection);
                    },
                };
                let nlen: usize = line.len();
                proof {
                    assert(i1 < nlen);
                }
                let i2 = match crate::text::find_from(line, '"', i1 + 1) {
                    Some(i2) => i2,
                    None => {
                        return Err(KlayError::MalformedSection);
                    },
                };
                let v = crate::text::sub_chars(line, i1 + 1, i2);
                self.inherits = Some(crate::text::chars_to_string(&v));
                return Ok(());
            }
            if crate::text::starts_with_chars(line, "name[Group1]") {
                if self.name_group1.is_some() {
                    return Ok(());
                }
                let i1 = match crate::text::find_from(line, '"', 0) {
                    Some(i1) => i1,
                    None => {
                        return Err(KlayError::MalformedSection);
                    },
                };
                let nlen: usize = line.len();
                proof {
                    assert(i1 < nlen);
                }
                let i2 = match crate::text::find_from(line, '"', i1 + 1) {
                    Some(i2) => i2,
                    None => {
                        return Err(KlayError::MalformedSection);
                    },
                };
                let v = crate::text::sub_chars(line, i1 + 1, i2);
                self.name_group1 = Some(crate::text::chars_to_string(&v));
                return Ok(());
            }
            Ok(())
        }
    }
}


/// Mathematical model of a [`Layout`].
pub struct LayoutView {
    pub default_partial: PartialXkbSymbolsView,
    pub partials: Seq<PartialXkbSymbolsView>,
}

/// A whole XKB symbols document: exactly one default block and the
/// named blocks after it.
#[derive(Debug, Clone)]
pub struct Layout {
    pub default_partial: PartialXkbSymbols,
    pub partials: Vec<PartialXkbSymbols>,
}

/// The models of a list of blocks.
pub open spec fn partials_view(v: Seq<PartialXkbSymbols>) -> Seq<PartialXkbSymbolsView> {
    v.map_values(|p: PartialXkbSymbols| p@)
}

impl View for Layout {
    type V = LayoutView;

    open spec fn view(&self) -> LayoutView {
        LayoutView {
            default_partial: self.default_partial@,
            partials: partials_view(self.partials@),
        }
    }
}

/// A well-formed document keeps every block well formed.
pub open spec fn layout_wf(v: LayoutView) -> bool {
    partial_wf(v.default_partial) && forall|i: int|
        0 <= i < v.partials.len() ==> partial_wf(#[trigger] v.partials[i])
}

/// The block reader's state: whether a block is open and claims
/// `default`, the block being filled, the default block seen so far,
/// and the named blocks finished so far.
pub struct XkbParseState {
    pub is_default: Option<bool>,
    pub cur: Option<PartialXkbSymbolsView>,
    pub default_partial: Option<PartialXkbSymbolsView>,
    pub partials: Seq<PartialXkbSymbolsView>,
}

/// What one document line does to the block reader: blank lines and
/// comments are skipped; outside a block, a `partial` line opens one
/// and a second `default` block is rejected; a header line names the
/// block; `}` closes it; anything else is a body line.
pub open spec fn xkb_line_step(
    pairs: Seq<(Seq<char>, char)>,
    st: XkbParseState,
    raw: Seq<char>,
) -> Result<XkbParseState, KlayError> {
    let line = crate::text::trim_spec(raw);
    if line.len() == 0 || crate::text::starts_with_spec(line, "//"@) {
        Ok(st)
    } else {
        match st.is_default {
            None => match st.cur {
                None => if !crate::text::contains_spec(line, "partial"@) {
                    Err(KlayError::MalformedSection)
                } else {
                    let isd = crate::text::starts_with_spec(line, "default"@);
                    if isd && st.default_partial is Some {
                        Err(KlayError::DuplicateDefaultBlock)
                    } else {
                        Ok(XkbParseState { is_default: Some(isd), ..st })
                    }
                },
                Some(_) => Err(KlayError::MalformedSection),
            },
            Some(d) => match st.cur {
                None => if !crate::text::starts_with_spec(line, "xkb_symbols "@) {
                    Err(KlayError::MalformedSection)
                } else {
                    match crate::text::rfind_spec(line, '"') {
                        None => Err(KlayError::MalformedSection),
                        Some(e) => if e < 13 {
                            Err(KlayError::MalformedSection)
                        } else {
                            Ok(
                                XkbParseState {
                                    cur: Some(
                                        PartialXkbSymbolsView {
                                            name: line.subrange(13, e),
                                            inherits: None,
                                            name_group1: None,
                                            keys: Seq::empty(),
                                        },
                                    ),
                                    ..st
                                },
                            )
                        },
                    }
                },
                Some(cur) => if crate::text::starts_with_spec(line, "}"@) {
                    if d {
                        Ok(
                            XkbParseState {
                                is_default: None,
                                cur: None,
                                default_partial: Some(cur),
                                ..st
                            },
                        )
                    } else {
                        Ok(
                            XkbParseState {
                                is_default: None,
                                cur: None,
                                partials: st.partials.push(cur),
                                ..st
                            },
                        )
                    }
                } else {
                    match process_line_spec(pairs, cur, line) {
                        Ok(cur2) => Ok(XkbParseState { cur: Some(cur2), ..st }),
                        Err(e) => Err(e),
                    }
                },
            },
        }
    }
}

/// The block reader folded over the document's lines.
pub open spec fn xkb_fold(
    pairs: Seq<(Seq<char>, char)>,
    lines: Seq<Seq<char>>,
    st: XkbParseState,
) -> Result<XkbParseState, KlayError>
    decreases lines.len(),
{
    if lines.len() == 0 {
        Ok(st)
    } else {
        match xkb_line_step(pairs, st, lines.first()) {
            Ok(st2) => xkb_fold(pairs, lines.drop_first(), st2),
            Err(e) => Err(e),
        }
    }
}

/// The block reader's initial state.
pub open spec fn xkb_init_state() -> XkbParseState {
    XkbParseState { is_default: None, cur: None, default_partial: None, partials: Seq::empty() }
}

/// What a whole XKB symbols document parses to: the folded blocks, with
/// exactly one default block required.
pub open spec fn xkb_parse_spec(pairs: Seq<(Seq<char>, char)>, lines: Seq<Seq<char>>) -> Result<
    LayoutView,
    KlayError,
> {
    match xkb_fold(pairs, lines, xkb_init_state()) {
        Err(e) => Err(e),
        Ok(st) => match st.default_partial {
            Some(d) => Ok(LayoutView { default_partial: d, partials: st.partials }),
            None => Err(KlayError::MalformedSection),
        },
    }
}

/// The model of an optional block.
pub open spec fn opt_partial_view(o: Option<PartialXkbSymbols>) -> Option<
    PartialXkbSymbolsView,
> {
    match o {
        Some(p) => Some(p@),
        None => None,
    }
}

impl Layout {
    /// Parses an XKB symbols document from its lines, as
    /// [`xkb_parse_spec`] states.
    pub fn from_lines(names: &crate::names::BiMap, lines: &Vec<String>) -> (r: Result<
        Layout,
        KlayError,
    >)
        ensures
            match r {
                Ok(l) => xkb_parse_spec(names@, lines.deep_view()) == Ok::<LayoutView, KlayError>(
                    l@,
                ) && layout_wf(l@),
                Err(e) => xkb_parse_spec(names@, lines.deep_view()) == Err::<
                    LayoutView,
                    KlayError,
                >(e),
            },
    {
        let ghost ldv = lines.deep_view();
        let mut is_default: Option<bool> = None;
        let mut cur: Option<PartialXkbSymbols> = None;
        let mut default_partial: Option<PartialXkbSymbols> = None;
        let mut partials: Vec<PartialXkbSymbols> = Vec::new();
        let mut i: usize = 0;
        proof {
            assert(forall|k: int| 0 <= k < lines@.len() ==> ldv[k] == (#[trigger] lines@[k])@);
            assert(ldv.skip(0) =~~= ldv);
            assert(partials_view(partials@) =~= Seq::<PartialXkbSymbolsView>::empty());
        }
        while i < lines.len()
            invariant
                i <= lines@.len(),
                ldv == lines.deep_view(),
                ldv.len() == lines@.len(),
                forall|k: int| 0 <= k < lines@.len() ==> ldv[k] == (#[trigger] lines@[k])@,
                match cur {
                    Some(p) => partial_wf(p@),
                    None => true,
                },
                match default_partial {
                    Some(p) => partial_wf(p@),
                    None => true,
                },
                forall|k: int|
                    0 <= k < partials@.len() ==> partial_wf((#[trigger] partials@[k])@),
                xkb_fold(names@, ldv, xkb_init_state()) == xkb_fold(
                    names@,
                    ldv.skip(i as int),
                    XkbParseState {
                        is_default,
                        cur: opt_partial_view(cur),
                        default_partial: opt_partial_view(default_partial),
                        partials: partials_view(partials@),
                    },
                ),
            decreases lines@.len() - i,
        {
            let ghost tail = ldv.skip(i as int);
            proof {
                assert(tail.first() == ldv[i as int]);
                assert(tail.drop_first() =~~= ldv.skip(i + 1));
            }
            let raw = crate::text::string_to_chars(lines[i].as_str());
            let line = crate::text::trim_chars(&raw);
            let blank = line.len() == 0 || crate::text::starts_with_chars(&line, "//");
            if !blank {
                match is_default {
                    None => {
                        match &cur {
                            None => {
                                if !crate::text::contains_chars(&line, "partial") {
                                    return Err(KlayError::MalformedSection);
                                }
                                let isd = crate::text::starts_with_chars(&line, "default");
                                if isd && default_partial.is_some() {
                                    return Err(KlayError::DuplicateDefaultBlock);
                                }
                                is_default = Some(isd);
                            },
                            Some(_) => {
                                return Err(KlayError::MalformedSection);
                            },
                        }
                    },
                    Some(d) => {
                        let cur_is_none = cur.is_none();
                        if cur_is_none {
                            if !crate::text::starts_with_chars(&line, "xkb_symbols ") {
                                return Err(KlayError::MalformedSection);
                            }
                            let e = match crate::text::rfind(&line, '"') {
                                Some(e) => e,
                                None => {
                                    return Err(KlayError::MalformedSection);
                                },
                            };
                            if e < 13 {
                                return Err(KlayError::MalformedSection);
                            }
                            let namev = crate::text::sub_chars(&line, 13, e);
                            let p = PartialXkbSymbols::new(crate::text::chars_to_string(&namev));
                            cur = Some(p);
                        } else {
                            let starts_close = crate::text::starts_with_chars(&line, "}");
                            if starts_close {
                                let finished = match cur {
                                    Some(p) => p,
                                    None => {
                                        proof {
                                            assert(false);
                                        }
                                        return Err(KlayError::MalformedSection);
                                    },
                                };
                                cur = None;
                                is_default = None;
                                if d {
                                    default_partial = Some(finished);
                                } else {
                                    let ghost pv_pre = partials_view(partials@);
                                    partials.push(finished);
                                    proof {
                                        assert(partials_view(partials@) =~= pv_pre.push(
                                            partials@.last()@,
                                        ));
                                    }
                                }
                            } else {
                                let r = match &mut cur {
                                    Some(p) => p.process_line(names, &line),
                                    None => Ok(()),
                                };
                                match r {
                                    Ok(_) => {},
                                    Err(e) => {
                                        return Err(e);
                                    },
                                }
                            }
                        }
                    },
                }
            }
            i = i + 1;
        }
        proof {
            assert(ldv.skip(ldv.len() as int) =~~= Seq::<Seq<char>>::empty());
        }
        match default_partial {
            Some(d) => {
                let r = Layout { default_partial: d, partials };
                Ok(r)
            },
            None => Err(KlayError::MalformedSection),
        }
    }
}


/// The first block with the given name among the named blocks.
pub open spec fn find_partial(ps: Seq<PartialXkbSymbolsView>, name: Seq<char>) -> Option<
    PartialXkbSymbolsView,
>
    decreases ps.len(),
{
    if ps.len() == 0 {
        None
    } else if ps.first().name == name {
        Some(ps.first())
    } else {
        find_partial(ps.drop_first(), name)
    }
}

/// The block with the given name: the default block where the name is
/// its own, else the first named block with that name.
pub open spec fn get_partial_spec(lv: LayoutView, name: Seq<char>) -> Option<
    PartialXkbSymbolsView,
> {
    if lv.default_partial.name == name {
        Some(lv.default_partial)
    } else {
        find_partial(lv.partials, name)
    }
}

impl Layout {
    /// The block with the given name, if the document holds one.
    pub fn get_partial(&self, partial: &str) -> (r: Option<&PartialXkbSymbols>)
        ensures
            match r {
                Some(p) => get_partial_spec(self@, partial@) == Some(p@),
                None => get_partial_spec(self@, partial@) is None,
            },
    {
        if crate::text::str_eq(self.default_partial.name.as_str(), partial) {
            return Some(&self.default_partial);
        }
        let ghost pv = partials_view(self.partials@);
        let n: usize = self.partials.len();
        let mut i: usize = 0;
        proof {
            assert(pv.skip(0) =~= pv);
        }
        while i < n
            invariant
                i <= n,
                n == self.partials@.len(),
                pv == partials_view(self.partials@),
                pv.len() == n,
                self@.default_partial.name != partial@,
                find_partial(pv, partial@) == find_partial(pv.skip(i as int), partial@),
            decreases n - i,
        {
            proof {
                assert(pv.skip(i as int).first() == pv[i as int]);
                assert(pv[i as int] == self.partials@[i as int]@);
                assert(pv.skip(i as int).drop_first() =~= pv.skip(i + 1));
            }
            if crate::text::str_eq(self.partials[i].name.as_str(), partial) {
                return Some(&self.partials[i]);
            }
            i = i + 1;
        }
        proof {
            assert(pv.skip(n as int) =~= Seq::<PartialXkbSymbolsView>::empty());
        }
        None
    }
}

/// The serialized form of one output slot: the dead-key marker keeps
/// its `dead_` prefix, a code point becomes its symbolic name.
pub open spec fn char_text_spec(pairs: Seq<(Seq<char>, char)>, cv: CharacterView) -> Seq<char> {
    match cv {
        CharacterView::Lit(c) => char_to_name_spec(pairs, c),
        CharacterView::Dead(s) => "dead_"@ + s,
    }
}

/// The serialized output list of one key: two slots padded to ten
/// characters; the AltGr pair, padded to twelve, only when one of the
/// two is bound.
pub open spec fn output_text_spec(pairs: Seq<(Seq<char>, char)>, o: OutputView) -> Seq<char> {
    crate::text::pad_left_spec(char_text_spec(pairs, o.normal), 10) + ", "@
        + crate::text::pad_left_spec(char_text_spec(pairs, o.shift), 10) + (
    if o.altgr == empty_slot() && o.altgr_shift == empty_slot() {
        Seq::<char>::empty()
    } else {
        ", "@ + crate::text::pad_left_spec(char_text_spec(pairs, o.altgr), 12) + ", "@
            + crate::text::pad_left_spec(char_text_spec(pairs, o.altgr_shift), 12)
    })
}

/// The serialized row of one key, without its line terminator.
pub open spec fn key_row_spec(pairs: Seq<(Seq<char>, char)>, k: Key, o: OutputView) -> Seq<
    char,
> {
    "    key <"@ + key_name_spec(k) + ">\t{ ["@ + output_text_spec(pairs, o) + "]\t};"@
}

/// The serialized key rows of a block, one line per key.
pub open spec fn key_rows_spec(
    pairs: Seq<(Seq<char>, char)>,
    rows: Seq<(Key, OutputView)>,
) -> Seq<char>
    decreases rows.len(),
{
    if rows.len() == 0 {
        Seq::empty()
    } else {
        key_rows_spec(pairs, rows.drop_last()) + key_row_spec(
            pairs,
            rows.last().0,
            rows.last().1,
        ) + "\n"@
    }
}

/// The serialized form of one block.
pub open spec fn partial_text_spec(
    pairs: Seq<(Seq<char>, char)>,
    v: PartialXkbSymbolsView,
) -> Seq<char> {
    "partial alphanumeric_keys\n"@ + "xkb_symbols \""@ + v.name + "\" {\n\n"@ + (
    match v.inherits {
        Some(inc) => "    "@ + inherit_kw() + " \""@ + inc + "\"\n\n"@,
        None => Seq::<char>::empty(),
    }) + (match v.name_group1 {
        Some(ng) => "    name[Group1]=\""@ + ng + "\";\n\n"@,
        None => Seq::<char>::empty(),
    }) + key_rows_spec(pairs, v.keys) + "};"@
}

/// The serialized named blocks, each followed by a blank line.
pub open spec fn partials_text_spec(
    pairs: Seq<(Seq<char>, char)>,
    ps: Seq<PartialXkbSymbolsView>,
) -> Seq<char>
    decreases ps.len(),
{
    if ps.len() == 0 {
        Seq::empty()
    } else {
        partials_text_spec(pairs, ps.drop_last()) + partial_text_spec(pairs, ps.last())
            + "\n\n"@
    }
}

/// The whole serialized document: the default block first, then the
/// named blocks.
pub open spec fn layout_write_spec(pairs: Seq<(Seq<char>, char)>, lv: LayoutView) -> Seq<char> {
    "default  "@ + partial_text_spec(pairs, lv.default_partial) + "\n\n"@ + partials_text_spec(
        pairs,
        lv.partials,
    )
}

/// Writes the serialized form of one output slot.
fn push_character(out: &mut Vec<char>, names: &crate::names::BiMap, ch: &Character)
    ensures
        final(out)@ == old(out)@ + char_text_spec(names@, ch@),
{
    match ch {
        Character::Char(c) => {
            let name = char_to_name(names, *c);
            crate::text::push_str(out, name.as_str());
        },
        Character::Dead(s) => {
            crate::text::push_str(out, "dead_");
            crate::text::push_str(out, s.as_str());
            proof {
                assert(out@ =~= old(out)@ + char_text_spec(names@, ch@));
            }
        },
    }
}

/// The serialized form of one output slot as its own vector.
fn character_text(names: &crate::names::BiMap, ch: &Character) -> (r: Vec<char>)
    ensures
        r@ == char_text_spec(names@, ch@),
{
    let mut out: Vec<char> = Vec::new();
    push_character(&mut out, names, ch);
    proof {
        assert(out@ =~= char_text_spec(names@, ch@));
    }
    out
}

/// Writes the serialized output list of one key.
fn push_output(out: &mut Vec<char>, names: &crate::names::BiMap, o: &Output)
    ensures
        final(out)@ == old(out)@ + output_text_spec(names@, o@),
{
    let t_normal = character_text(names, &o.normal);
    crate::text::push_padded(out, &t_normal, 10);
    crate::text::push_str(out, ", ");
    let t_shift = character_text(names, &o.shift);
    crate::text::push_padded(out, &t_shift, 10);
    if o.altgr.is_zero() && o.altgr_shift.is_zero() {
        proof {
            assert(out@ =~= old(out)@ + output_text_spec(names@, o@));
        }
    } else {
        crate::text::push_str(out, ", ");
        let t_altgr = character_text(names, &o.altgr);
        crate::text::push_padded(out, &t_altgr, 12);
        crate::text::push_str(out, ", ");
        let t_as = character_text(names, &o.altgr_shift);
        crate::text::push_padded(out, &t_as, 12);
        proof {
            assert(out@ =~= old(out)@ + output_text_spec(names@, o@));
        }
    }
}

impl PartialXkbSymbols {
    /// The serialized form of this block.
    pub fn to_text(&self, names: &crate::names::BiMap) -> (r: Vec<char>)
        ensures
            r@ == partial_text_spec(names@, self@),
    {
        let mut out: Vec<char> = Vec::new();
        crate::text::push_str(&mut out, "partial alphanumeric_keys\n");
        crate::text::push_str(&mut out, "xkb_symbols \"");
        crate::text::push_str(&mut out, self.name.as_str());
        crate::text::push_str(&mut out, "\" {\n\n");
        match &self.inherits {
            Some(inc) => {
                crate::text::push_str(&mut out, "    ");
                let tok = inherit_token();
                crate::text::push_str(&mut out, tok.as_str());
                crate::text::push_str(&mut out, " \"");
                crate::text::push_str(&mut out, inc.as_str());
                crate::text::push_str(&mut out, "\"\n\n");
            },
            None => {},
        }
        match &self.name_group1 {
            Some(ng) => {
                crate::text::push_str(&mut out, "    name[Group1]=\"");
                crate::text::push_str(&mut out, ng.as_str());
                crate::text::push_str(&mut out, "\";\n\n");
            },
            None => {},
        }
        let ghost pre_rows = out@;
        let ghost keysv = self@.keys;
        let mut i: usize = 0;
        proof {
            assert(keysv.take(0) =~= Seq::<(Key, OutputView)>::empty());
            assert(out@ =~= pre_rows + key_rows_spec(names@, keysv.take(0)));
        }
        while i < self.keys.len()
            invariant
                i <= self.keys@.len(),
                keysv == self@.keys,
                keysv.len() == self.keys@.len(),
                out@ == pre_rows + key_rows_spec(names@, keysv.take(i as int)),
            decreases self.keys@.len() - i,
        {
            crate::text::push_str(&mut out, "    key <");
            let kn = key_name(self.keys[i].0);
            crate::text::push_str(&mut out, kn);
            crate::text::push_str(&mut out, ">\t{ [");
            push_output(&mut out, names, &self.keys[i].1);
            crate::text::push_str(&mut out, "]\t};");
            crate::text::push_str(&mut out, "\n");
            i = i + 1;
            proof {
                assert(keysv.take(i as int).drop_last() =~= keysv.take(i - 1));
                assert(keysv.take(i as int).last() == keysv[i - 1]);
                assert(keysv[i - 1] == (self.keys@[i - 1].0, self.keys@[i - 1].1@));
                assert(key_rows_spec(names@, keysv.take(i as int)) == key_rows_spec(
                    names@,
                    keysv.take(i - 1),
                ) + key_row_spec(names@, keysv[i - 1].0, keysv[i - 1].1) + "\n"@);
                assert(out@ =~= pre_rows + key_rows_spec(names@, keysv.take(i - 1)) + key_row_spec(
                    names@,
                    keysv[i - 1].0,
                    keysv[i - 1].1,
                ) + "\n"@);
                assert(out@ =~= pre_rows + key_rows_spec(names@, keysv.take(i as int)));
            }
        }
        proof {
            assert(keysv.take(keysv.len() as int) =~= keysv);
        }
        crate::text::push_str(&mut out, "};");
        proof {
            assert(out@ =~= partial_text_spec(names@, self@));
        }
        out
    }
}

impl Layout {
    /// Serializes the whole document: the default block first, then the
    /// named blocks, each followed by a blank line.
    pub fn write(&self, names: &crate::names::BiMap) -> (r: String)
        ensures
            r@ == layout_write_spec(names@, self@),
    {
        let mut out: Vec<char> = Vec::new();
        crate::text::push_str(&mut out, "default  ");
        let dt = self.default_partial.to_text(names);
        let mut k: usize = 0;
        let ghost pre = out@;
        proof {
            assert(out@ =~= pre + dt@.take(0));
        }
        while k < dt.len()
            invariant
                k <= dt@.len(),
                out@ == pre + dt@.take(k as int),
            decreases dt@.len() - k,
        {
            out.push(dt[k]);
            k = k + 1;
            proof {
                assert(out@ =~= pre + dt@.take(k as int));
            }
        }
        proof {
            assert(dt@.take(dt@.len() as int) =~= dt@);
        }
        crate::text::push_str(&mut out, "\n\n");
        let ghost pv = partials_view(self.partials@);
        let ghost pre_ps = out@;
        let mut i: usize = 0;
        proof {
            assert(pv.take(0) =~= Seq::<PartialXkbSymbolsView>::empty());
            assert(out@ =~= pre_ps + partials_text_spec(names@, pv.take(0)));
        }
        while i < self.partials.len()
            invariant
                i <= self.partials@.len(),
                pv == partials_view(self.partials@),
                pv.len() == self.partials@.len(),
                out@ == pre_ps + partials_text_spec(names@, pv.take(i as int)),
            decreases self.partials@.len() - i,
        {
            let pt = self.partials[i].to_text(names);
            let ghost pre_in = out@;
            let mut j: usize = 0;
            proof {
                assert(out@ =~= pre_in + pt@.take(0));
            }
            while j < pt.len()
                invariant
                    j <= pt@.len(),
                    out@ == pre_in + pt@.take(j as int),
                decreases pt@.len() - j,
            {
                out.push(pt[j]);
                j = j + 1;
                proof {
                    assert(out@ =~= pre_in + pt@.take(j as int));
                }
            }
            proof {
                assert(pt@.take(pt@.len() as int) =~= pt@);
            }
            crate::text::push_str(&mut out, "\n\n");
            i = i + 1;
            proof {
                assert(pv.take(i as int).drop_last() =~= pv.take(i - 1));
                assert(pv.take(i as int).last() == pv[i - 1]);
                assert(pv[i - 1] == self.partials@[i - 1]@);
                assert(out@ =~= pre_ps + partials_text_spec(names@, pv.take(i as int)));
            }
        }
        proof {
            assert(pv.take(pv.len() as int) =~= pv);
        }
        crate::text::chars_to_string(&out)
    }
}


/// A text with no blank at either edge is its own trimmed form.
proof fn lemma_trim_clean(s: Seq<char>)
    requires
        s.len() > 0,
        !crate::text::is_blank(s.first()),
        !crate::text::is_blank(s.last()),
    ensures
        crate::text::trim_spec(s) == s,
{
    assert(crate::text::trim_front_spec(s) == s);
    assert(crate::text::trim_back_spec(s) == s);
}

/// Round trip of one serialized output slot: the token the writer
/// emits for a slot reads back as the same slot. A dead marker's name
/// must not end in a blank; a literal's table name must be free of
/// edge blanks and must not itself look like a dead marker; and a
/// literal with no table name must not collide with a table name in
/// its synthesized numeric form.
pub proof fn lemma_slot_text_round_trip(pairs: Seq<(Seq<char>, char)>, cv: CharacterView)
    requires
        crate::names::bimap_wf(pairs),
        match cv {
            CharacterView::Lit(c) => {
                &&& match crate::names::find_name(pairs, c) {
                    Some(n) => n.len() > 0 && !crate::text::is_blank(n.first())
                        && !crate::text::is_blank(n.last()) && !crate::text::starts_with_spec(
                        n,
                        "dead_"@,
                    ),
                    None => crate::names::find_char(pairs, uhex_name(c)) is None,
                }
            },
            CharacterView::Dead(s) => s.len() > 0 ==> !crate::text::is_blank(s.last()),
        },
    ensures
        token_char_spec(pairs, char_text_spec(pairs, cv)) == Ok::<CharacterView, KlayError>(cv),
{
    reveal_strlit("dead_");
    assert("dead_"@.len() == 5);
    assert("dead_"@[0] == 'd');
    match cv {
        CharacterView::Dead(s) => {
            let w = "dead_"@ + s;
            assert(w.first() == 'd');
            if s.len() > 0 {
                assert(w.last() == s.last());
            } else {
                assert(w.last() == '_');
            }
            lemma_trim_clean(w);
            assert(crate::text::starts_with_spec(w, "dead_"@)) by {
                assert(w.take(5) =~= "dead_"@);
            }
            assert(w.skip(5) =~= s);
        },
        CharacterView::Lit(c) => {
            match crate::names::find_name(pairs, c) {
                Some(n) => {
                    lemma_trim_clean(n);
                    crate::names::lemma_bimap_round_trip(pairs, c);
                },
                None => {
                    let w = uhex_name(c);
                    crate::text::lemma_hex_pad_len((c as u32) as nat, 4);
                    assert(w.first() == 'U');
                    assert(w.last() == crate::text::hex_pad((c as u32) as nat, 4).last());
                    assert(crate::text::is_hex_digit(w.last()));
                    lemma_trim_clean(w);
                    assert(!crate::text::starts_with_spec(w, "dead_"@)) by {
                        assert(w[0] == 'U');
                        if crate::text::starts_with_spec(w, "dead_"@) {
                            assert(w.take(5)[0] == w[0]);
                        }
                    }
                    assert(w.skip(1) =~= crate::text::hex_pad((c as u32) as nat, 4));
                    crate::text::lemma_hex_round_trip(c as u32, 4);
                    vstd::utf8::char_is_scalar(c);
                    vstd::utf8::char_u32_cast(c, c as u32);
                },
            }
        },
    }
}

/// A slot whose serialized token reads back cleanly: the token is
/// non-empty, has no blank at either edge and no comma anywhere, a
/// table name never looks like a dead marker, and a code point with no
/// table name never collides with a table name in its numeric form.
pub open spec fn slot_text_clean(pairs: Seq<(Seq<char>, char)>, cv: CharacterView) -> bool {
    let t = char_text_spec(pairs, cv);
    &&& t.len() > 0
    &&& !crate::text::is_blank(t.first())
    &&& !crate::text::is_blank(t.last())
    &&& forall|i: int| 0 <= i < t.len() ==> t[i] != ',' && t[i] != '[' && t[i] != ']'
    &&& match cv {
        CharacterView::Lit(c) => match crate::names::find_name(pairs, c) {
            Some(n) => !crate::text::starts_with_spec(n, "dead_"@),
            None => crate::names::find_char(pairs, uhex_name(c)) is None,
        },
        CharacterView::Dead(s) => true,
    }
}

/// A padded, comma-joined slot token reads back as its slot.
proof fn lemma_padded_token(
    pairs: Seq<(Seq<char>, char)>,
    cv: CharacterView,
    w: nat,
    extra: nat,
)
    requires
        crate::names::bimap_wf(pairs),
        slot_text_clean(pairs, cv),
    ensures
        token_char_spec(
            pairs,
            crate::text::space_chars(extra) + crate::text::pad_left_spec(
                char_text_spec(pairs, cv),
                w,
            ),
        ) == Ok::<CharacterView, KlayError>(cv),
{
    let t = char_text_spec(pairs, cv);
    crate::text::lemma_trim_pad(t, w, extra);
    match cv {
        CharacterView::Dead(s) => {
            if s.len() > 0 {
                assert(t.last() == s.last());
            }
        },
        CharacterView::Lit(c) => {
            match crate::names::find_name(pairs, c) {
                Some(n) => {},
                None => {},
            }
        },
    }
    lemma_slot_text_round_trip(pairs, cv);
    assert(crate::text::trim_spec(t) == t) by {
        crate::text::lemma_trim_pad(t, w, 0);
        assert(crate::text::space_chars(0) + crate::text::pad_left_spec(t, w)
            =~= crate::text::pad_left_spec(t, w));
        if t.len() >= w {
        } else {
        }
    }
}

/// Round trip of a key's serialized output list in its short form: the
/// two padded tokens of a key with no AltGr bindings read back as the
/// four slots, the last two empty.
#[verifier::rlimit(100)]
proof fn lemma_output_list_two(pairs: Seq<(Seq<char>, char)>, o: OutputView)
    requires
        crate::names::bimap_wf(pairs),
        slot_text_clean(pairs, o.normal),
        slot_text_clean(pairs, o.shift),
        o.altgr == empty_slot(),
        o.altgr_shift == empty_slot(),
    ensures
        outputs_of_tokens(pairs, crate::text::split_sep_spec(output_text_spec(pairs, o), ','))
            == Ok::<OutputView, KlayError>(o),
{
    let t0 = char_text_spec(pairs, o.normal);
    let t1 = char_text_spec(pairs, o.shift);
    let pa = crate::text::pad_left_spec(t0, 10);
    let pb = crate::text::pad_left_spec(t1, 10);
    let sp = seq![' '];
    let cm = seq![','];
    reveal_strlit(", ");
    assert(", "@ =~= cm + sp);
    lemma_pad_comma_free(t0, 10);
    lemma_pad_comma_free(t1, 10);
    lemma_sp_comma_free(pb);
    lemma_padded_token(pairs, o.normal, 10, 0);
    assert(crate::text::space_chars(0) + pa =~= pa);
    lemma_padded_token(pairs, o.shift, 10, 1);
    assert(crate::text::space_chars(1) + pb =~= sp + pb);
    let content = output_text_spec(pairs, o);
    assert(content =~= pa + cm + (sp + pb));
    crate::text::lemma_split_sep_single(sp + pb, ',');
    crate::text::lemma_split_sep_concat(pa, sp + pb, ',');
    let toks = crate::text::split_sep_spec(content, ',');
    assert(toks =~~= seq![pa, sp + pb]);
    assert(tok_slot(pairs, toks, 0) == Ok::<CharacterView, KlayError>(o.normal)) by {
        assert(toks[0] == pa);
    }
    assert(tok_slot(pairs, toks, 1) == Ok::<CharacterView, KlayError>(o.shift)) by {
        assert(toks[1] == sp + pb);
    }
    assert(tok_slot(pairs, toks, 2) == Ok::<CharacterView, KlayError>(empty_slot()));
    assert(tok_slot(pairs, toks, 3) == Ok::<CharacterView, KlayError>(empty_slot()));
    assert(outputs_of_tokens(pairs, toks) == Ok::<OutputView, KlayError>(o));
}

/// The long-form output list splits into its four padded tokens.
#[verifier::rlimit(100)]
proof fn lemma_output_split_four(pairs: Seq<(Seq<char>, char)>, o: OutputView)
    requires
        slot_text_clean(pairs, o.normal),
        slot_text_clean(pairs, o.shift),
        slot_text_clean(pairs, o.altgr),
        slot_text_clean(pairs, o.altgr_shift),
        !(o.altgr == empty_slot() && o.altgr_shift == empty_slot()),
    ensures
        crate::text::split_sep_spec(output_text_spec(pairs, o), ',') == seq![
            crate::text::pad_left_spec(char_text_spec(pairs, o.normal), 10),
            seq![' '] + crate::text::pad_left_spec(char_text_spec(pairs, o.shift), 10),
            seq![' '] + crate::text::pad_left_spec(char_text_spec(pairs, o.altgr), 12),
            seq![' '] + crate::text::pad_left_spec(char_text_spec(pairs, o.altgr_shift), 12),
        ],
{
    let t0 = char_text_spec(pairs, o.normal);
    let t1 = char_text_spec(pairs, o.shift);
    let t2 = char_text_spec(pairs, o.altgr);
    let t3 = char_text_spec(pairs, o.altgr_shift);
    let pa = crate::text::pad_left_spec(t0, 10);
    let pb = crate::text::pad_left_spec(t1, 10);
    let pc = crate::text::pad_left_spec(t2, 12);
    let pd = crate::text::pad_left_spec(t3, 12);
    let sp = seq![' '];
    let cm = seq![','];
    reveal_strlit(", ");
    assert(", "@ =~= cm + sp);
    lemma_pad_comma_free(t0, 10);
    lemma_pad_comma_free(t1, 10);
    lemma_pad_comma_free(t2, 12);
    lemma_pad_comma_free(t3, 12);
    lemma_sp_comma_free(pb);
    lemma_sp_comma_free(pc);
    lemma_sp_comma_free(pd);
    let content = output_text_spec(pairs, o);
    let r3 = sp + pd;
    let r2 = (sp + pc) + cm + r3;
    let r1 = (sp + pb) + cm + r2;
    assert(content =~= pa + cm + r1);
    crate::text::lemma_split_sep_single(sp + pd, ',');
    crate::text::lemma_split_sep_concat(sp + pc, r3, ',');
    crate::text::lemma_split_sep_concat(sp + pb, r2, ',');
    crate::text::lemma_split_sep_concat(pa, r1, ',');
    assert(crate::text::split_sep_spec(content, ',') =~~= seq![pa, sp + pb, sp + pc, sp + pd]);
}

/// Round trip of a key's serialized output list in its long form: the
/// four padded tokens of a key with an AltGr binding read back as the
/// same four slots.
#[verifier::rlimit(100)]
proof fn lemma_output_list_four(pairs: Seq<(Seq<char>, char)>, o: OutputView)
    requires
        crate::names::bimap_wf(pairs),
        slot_text_clean(pairs, o.normal),
        slot_text_clean(pairs, o.shift),
        slot_text_clean(pairs, o.altgr),
        slot_text_clean(pairs, o.altgr_shift),
        !(o.altgr == empty_slot() && o.altgr_shift == empty_slot()),
    ensures
        outputs_of_tokens(pairs, crate::text::split_sep_spec(output_text_spec(pairs, o), ','))
            == Ok::<OutputView, KlayError>(o),
{
    let t0 = char_text_spec(pairs, o.normal);
    let t1 = char_text_spec(pairs, o.shift);
    let t2 = char_text_spec(pairs, o.altgr);
    let t3 = char_text_spec(pairs, o.altgr_shift);
    let pa = crate::text::pad_left_spec(t0, 10);
    let pb = crate::text::pad_left_spec(t1, 10);
    let pc = crate::text::pad_left_spec(t2, 12);
    let pd = crate::text::pad_left_spec(t3, 12);
    let sp = seq![' '];
    lemma_output_split_four(pairs, o);
    let toks = crate::text::split_sep_spec(output_text_spec(pairs, o), ',');
    lemma_padded_token(pairs, o.normal, 10, 0);
    assert(crate::text::space_chars(0) + pa =~= pa);
    lemma_padded_token(pairs, o.shift, 10, 1);
    assert(crate::text::space_chars(1) + pb =~= sp + pb);
    lemma_padded_token(pairs, o.altgr, 12, 1);
    assert(crate::text::space_chars(1) + pc =~= sp + pc);
    lemma_padded_token(pairs, o.altgr_shift, 12, 1);
    assert(crate::text::space_chars(1) + pd =~= sp + pd);
    assert(tok_slot(pairs, toks, 0) == Ok::<CharacterView, KlayError>(o.normal)) by {
        assert(toks[0] == pa);
    }
    assert(tok_slot(pairs, toks, 1) == Ok::<CharacterView, KlayError>(o.shift)) by {
        assert(toks[1] == sp + pb);
    }
    assert(tok_slot(pairs, toks, 2) == Ok::<CharacterView, KlayError>(o.altgr)) by {
        assert(toks[2] == sp + pc);
    }
    assert(tok_slot(pairs, toks, 3) == Ok::<CharacterView, KlayError>(o.altgr_shift)) by {
        assert(toks[3] == sp + pd);
    }
    assert(outputs_of_tokens(pairs, toks) == Ok::<OutputView, KlayError>(o));
}

/// Round trip of a key's serialized output list: the padded,
/// comma-joined tokens the writer emits read back as exactly the four
/// slots they were written from, for slots whose tokens are clean.
pub proof fn lemma_output_list_round_trip(pairs: Seq<(Seq<char>, char)>, o: OutputView)
    requires
        crate::names::bimap_wf(pairs),
        slot_text_clean(pairs, o.normal),
        slot_text_clean(pairs, o.shift),
        slot_text_clean(pairs, o.altgr),
        slot_text_clean(pairs, o.altgr_shift),
    ensures
        outputs_of_tokens(pairs, crate::text::split_sep_spec(output_text_spec(pairs, o), ','))
            == Ok::<OutputView, KlayError>(o),
{
    if o.altgr == empty_slot() && o.altgr_shift == empty_slot() {
        lemma_output_list_two(pairs, o);
    } else {
        lemma_output_list_four(pairs, o);
    }
}

/// A comma-free token stays comma-free behind one space.
proof fn lemma_sp_comma_free(p: Seq<char>)
    requires
        forall|i: int| 0 <= i < p.len() ==> p[i] != ',',
    ensures
        forall|i: int| 0 <= i < (seq![' '] + p).len() ==> (#[trigger] (seq![' '] + p)[i]) != ',',
{
    let s = seq![' '] + p;
    assert(forall|i: int| 0 <= i < s.len() ==> s[i] != ',') by {
        assert(s[0] == ' ');
        assert(forall|i: int| 1 <= i < s.len() ==> s[i] == p[i - 1]);
    }
}

/// A comma-free token stays comma-free under padding.
proof fn lemma_pad_comma_free(t: Seq<char>, w: nat)
    requires
        forall|i: int| 0 <= i < t.len() ==> t[i] != ',',
    ensures
        forall|i: int|
            0 <= i < crate::text::pad_left_spec(t, w).len() ==> (
            #[trigger] crate::text::pad_left_spec(t, w)[i]) != ',',
{
    let p = crate::text::pad_left_spec(t, w);
    if t.len() >= w {
    } else {
        let k = (w - t.len()) as int;
        assert(forall|i: int| 0 <= i < p.len() ==> p[i] != ',') by {
            assert(forall|i: int| 0 <= i < k ==> p[i] == ' ');
            assert(forall|i: int| k <= i < p.len() ==> p[i] == t[i - k]);
        }
    }
}

/// Every key identifier's name is four characters long and holds no
/// square bracket.
#[verifier::rlimit(100)]
proof fn lemma_key_name_props(k: Key)
    ensures
        key_name_spec(k).len() == 4,
        forall|i: int|
            0 <= i < 4 ==> #[trigger] key_name_spec(k)[i] != '[' && key_name_spec(k)[i] != ']',
{
    match k {
        Key::AE01 => {
            reveal_strlit("AE01");
            assert(key_name_spec(k).len() == 4);
            assert(key_name_spec(k)[0] != '[' && key_name_spec(k)[1] != '[' && key_name_spec(k)[2]
                != '[' && key_name_spec(k)[3] != '[');
            assert(key_name_spec(k)[0] != ']' && key_name_spec(k)[1] != ']' && key_name_spec(k)[2]
                != ']' && key_name_spec(k)[3] != ']');
        },
        Key::AE02 => {
            reveal_strlit("AE02");
            assert(key_name_spec(k).len() == 4);
            assert(key_name_spec(k)[0] != '[' && key_name_spec(k)[1] != '[' && key_name_spec(k)[2]
                != '[' && key_name_spec(k)[3] != '[');
            assert(key_name_spec(k)[0] != ']' && key_name_spec(k)[1] != ']' && key_name_spec(k)[2]
                != ']' && key_name_spec(k)[3] != ']');
        },
        Key::AE03 => {
            reveal_strlit("AE03");
            assert(key_name_spec(k).len() == 4);
            assert(key_name_spec(k)[0] != '[' && key_name_spec(k)[1] != '[' && key_name_spec(k)[2]
                != '[' && key_name_spec(k)[3] != '[');
            assert(key_name_spec(k)[0] != ']' && key_name_spec(k)[1] != ']' && key_name_spec(k)[2]
                != ']' && key_name_spec(k)[3] != ']');
        },
        Key::AE04 => {
            reveal_strlit("AE04");
            assert(key_name_spec(k).len() == 4);
            assert(key_name_spec(k)[0] != '[' && key_name_spec(k)[1] != '[' && key_name_spec(k)[2]
                != '[' && key_name_spec(k)[3] != '[');
            assert(key_name_spec(k)[0] != ']' && key_name_spec(k)[1] != ']' && key_name_spec(k)[2]
                != ']' && key_name_spec(k)[3] != ']');
        },
        Key::AE05 => {
            reveal_strlit("AE05");
            assert(key_name_spec(k).len() == 4);
            assert(key_name_spec(k)[0] != '[' && key_name_spec(k)[1] != '[' && key_name_spec(k)[2]
                != '[' && key_name_spec(k)[3] != '[');
            assert(key_name_spec(k)[0] != ']' && key_name_spec(k)[1] != ']' && key_name_spec(k)[2]
                != ']' && key_name_spec(k)[3] != ']');
        },
        Key::AE06 => {
            reveal_strlit("AE06");
            assert(key_name_spec(k).len() == 4);
            assert(key_name_spec(k)[0] != '[' && key_name_spec(k)[1] != '[' && key_name_spec(k)[2]
                != '[' && key_name_spec(k)[3] != '[');
            assert(key_name_spec(k)[0] != ']' && key_name_spec(k)[1] != ']' && key_name_spec(k)[2]
                != ']' && key_name_spec(k)[3] != ']');
        },
        Key::AE07 => {
            reveal_strlit("AE07");
            assert(key_name_spec(k).len() == 4);
            assert(key_name_spec(k)[0] != '[' && key_name_spec(k)[1] != '[' && key_name_spec(k)[2]
                != '[' && key_name_spec(k)[3] != '[');
            assert(key_name_spec(k)[0] != ']' && key_name_spec(k)[1] != ']' && key_name_spec(k)[2]
                != ']' && key_name_spec(k)[3] != ']');
        },
        Key::AE08 => {
            reveal_strlit("AE08");
            assert(key_name_spec(k).len() == 4);
            assert(key_name_spec(k)[0] != '[' && key_name_spec(k)[1] != '[' && key_name_spec(k)[2]
                != '[' && key_name_spec(k)[3] != '[');
            assert(key_name_spec(k)[0] != ']' && key_name_spec(k)[1] != ']' && key_name_spec(k)[2]
                != ']' && key_name_spec(k)[3] != ']');
        },
        Key::AE09 => {
            reveal_strlit("AE09");
            assert(key_name_spec(k).len() == 4);
            assert(key_name_spec(k)[0] != '[' && key_name_spec(k)[1] != '[' && key_name_spec(k)[2]
                != '[' && key_name_spec(k)[3] != '[');
            assert(key_name_spec(k)[0] != ']' && key_name_spec(k)[1] != ']' && key_name_spec(k)[2]
                != ']' && key_name_spec(k)[3] != ']');
        },
        Key::AE10 => {
            reveal_strlit("AE10");
            assert(key_name_spec(k).len() == 4);
            assert(key_name_spec(k)[0] != '[' && key_name_spec(k)[1] != '[' && key_name_spec(k)[2]
                != '[' && key_name_spec(k)[3] != '[');
            assert(key_name_spec(k)[0] != ']' && key_name_spec(k)[1] != ']' && key_name_spec(k)[2]
                != ']' && key_name_spec(k)[3] != ']');
        },
        Key::AE11 => {
            reveal_strlit("AE11");
            assert(key_name_spec(k).len() == 4);
            assert(key_name_spec(k)[0] != '[' && key_name_spec(k)[1] != '[' && key_name_spec(k)[2]
                != '[' && key_name_spec(k)[3] != '[');
            assert(key_name_spec(k)[0] != ']' && key_name_spec(k)[1] != ']' && key_name_spec(k)[2]
                != ']' && key_name_spec(k)[3] != ']');
        },
        Key::AE12 => {
            reveal_strlit("AE12");
            assert(key_name_spec(k).len() == 4);
            assert(key_name_spec(k)[0] != '[' && key_name_spec(k)[1] != '[' && key_name_spec(k)[2]
                != '[' && key_name_spec(k)[3] != '[');
            assert(key_name_spec(k)[0] != ']' && key_name_spec(k)[1] != ']' && key_name_spec(k)[2]
                != ']' && key_name_spec(k)[3] != ']');
        },
        Key::AD01 => {
            reveal_strlit("AD01");
            assert(key_name_spec(k).len() == 4);
            assert(key_name_spec(k)[0] != '[' && key_name_spec(k)[1] != '[' && key_name_spec(k)[2]
                != '[' && key_name_spec(k)[3] != '[');
            assert(key_name_spec(k)[0] != ']' && key_name_spec(k)[1] != ']' && key_name_spec(k)[2]
                != ']' && key_name_spec(k)[3] != ']');
        },
        Key::AD02 => {
            reveal_strlit("AD02");
            assert(key_name_spec(k).len() == 4);
            assert(key_name_spec(k)[0] != '[' && key_name_spec(k)[1] != '[' && key_name_spec(k)[2]
                != '[' && key_name_spec(k)[3] != '[');
            assert(key_name_spec(k)[0] != ']' && key_name_spec(k)[1] != ']' && key_name_spec(k)[2]
                != ']' && key_name_spec(k)[3] != ']');
        },
        Key::AD03 => {
            reveal_strlit("AD03");
            assert(key_name_spec(k).len() == 4);
            assert(key_name_spec(k)[0] != '[' && key_name_spec(k)[1] != '[' && key_name_spec(k)[2]
                != '[' && key_name_spec(k)[3] != '[');
            assert(key_name_spec(k)[0] != ']' && key_name_spec(k)[1] != ']' && key_name_spec(k)[2]
                != ']' && key_name_spec(k)[3] != ']');
        },
        Key::AD04 => {
            reveal_strlit("AD04");
            assert(key_name_spec(k).len() == 4);
            assert(key_name_spec(k)[0] != '[' && key_name_spec(k)[1] != '[' && key_name_spec(k)[2]
                != '[' && key_name_spec(k)[3] != '[');
            assert(key_name_spec(k)[0] != ']' && key_name_spec(k)[1] != ']' && key_name_spec(k)[2]
                != ']' && key_name_spec(k)[3] != ']');
        },
        Key::AD05 => {
            reveal_strlit("AD05");
            assert(key_name_spec(k).len() == 4);
            assert(key_name_spec(k)[0] != '[' && key_name_spec(k)[1] != '[' && key_name_spec(k)[2]
                != '[' && key_name_spec(k)[3] != '[');
            assert(key_name_spec(k)[0] != ']' && key_name_spec(k)[1] != ']' && key_name_spec(k)[2]
                != ']' && key_name_spec(k)[3] != ']');
        },
        Key::AD06 => {
            reveal_strlit("AD06");
            assert(key_name_spec(k).len() == 4);
            assert(key_name_spec(k)[0] != '[' && key_name_spec(k)[1] != '[' && key_name_spec(k)[2]
                != '[' && key_name_spec(k)[3] != '[');
            assert(key_name_spec(k)[0] != ']' && key_name_spec(k)[1] != ']' && key_name_spec(k)[2]
                != ']' && key_name_spec(k)[3] != ']');
        },
        Key::AD07 => {
            reveal_strlit("AD07");
            assert(key_name_spec(k).len() == 4);
            assert(key_name_spec(k)[0] != '[' && key_name_spec(k)[1] != '[' && key_name_spec(k)[2]
                != '[' && key_name_spec(k)[3] != '[');
            assert(key_name_spec(k)[0] != ']' && key_name_spec(k)[1] != ']' && key_name_spec(k)[2]
                != ']' && key_name_spec(k)[3] != ']');
        },
        Key::AD08 => {
            reveal_strlit("AD08");
            assert(key_name_spec(k).len() == 4);
            assert(key_name_spec(k)[0] != '[' && key_name_spec(k)[1] != '[' && key_name_spec(k)[2]
                != '[' && key_name_spec(k)[3] != '[');
            assert(key_name_spec(k)[0] != ']' && key_name_spec(k)[1] != ']' && key_name_spec(k)[2]
                != ']' && key_name_spec(k)[3] != ']');
        },
        Key::AD09 => {
            reveal_strlit("AD09");
            assert(key_name_spec(k).len() == 4);
            assert(key_name_spec(k)[0] != '[' && key_name_spec(k)[1] != '[' && key_name_spec(k)[2]
                != '[' && key_name_spec(k)[3] != '[');
            assert(key_name_spec(k)[0] != ']' && key_name_spec(k)[1] != ']' && key_name_spec(k)[2]
                != ']' && key_name_spec(k)[3] != ']');
        },
        Key::AD10 => {
            reveal_strlit("AD10");
            assert(key_name_spec(k).len() == 4);
            assert(key_name_spec(k)[0] != '[' && key_name_spec(k)[1] != '[' && key_name_spec(k)[2]
                != '[' && key_name_spec(k)[3] != '[');
            assert(key_name_spec(k)[0] != ']' && key_name_spec(k)[1] != ']' && key_name_spec(k)[2]
                != ']' && key_name_spec(k)[3] != ']');
        },
        Key::AD11 => {
            reveal_strlit("AD11");
            assert(key_name_spec(k).len() == 4);
            assert(key_name_spec(k)[0] != '[' && key_name_spec(k)[1] != '[' && key_name_spec(k)[2]
                != '[' && key_name_spec(k)[3] != '[');
            assert(key_name_spec(k)[0] != ']' && key_name_spec(k)[1] != ']' && key_name_spec(k)[2]
                != ']' && key_name_spec(k)[3] != ']');
        },
        Key::AD12 => {
            reveal_strlit("AD12");
            assert(key_name_spec(k).len() == 4);
            assert(key_name_spec(k)[0] != '[' && key_name_spec(k)[1] != '[' && key_name_spec(k)[2]
                != '[' && key_name_spec(k)[3] != '[');
            assert(key_name_spec(k)[0] != ']' && key_name_spec(k)[1] != ']' && key_name_spec(k)[2]
                != ']' && key_name_spec(k)[3] != ']');
        },
        Key::AC01 => {
            reveal_strlit("AC01");
            assert(key_name_spec(k).len() == 4);
            assert(key_name_spec(k)[0] != '[' && key_name_spec(k)[1] != '[' && key_name_spec(k)[2]
                != '[' && key_name_spec(k)[3] != '[');
            assert(key_name_spec(k)[0] != ']' && key_name_spec(k)[1] != ']' && key_name_spec(k)[2]
                != ']' && key_name_spec(k)[3] != ']');
        },
        Key::AC02 => {
            reveal_strlit("AC02");
            assert(key_name_spec(k).len() == 4);
            assert(key_name_spec(k)[0] != '[' && key_name_spec(k)[1] != '[' && key_name_spec(k)[2]
                != '[' && key_name_spec(k)[3] != '[');
            assert(key_name_spec(k)[0] != ']' && key_name_spec(k)[1] != ']' && key_name_spec(k)[2]
                != ']' && key_name_spec(k)[3] != ']');
        },
        Key::AC03 => {
            reveal_strlit("AC03");
            assert(key_name_spec(k).len() == 4);
            assert(key_name_spec(k)[0] != '[' && key_name_spec(k)[1] != '[' && key_name_spec(k)[2]
                != '[' && key_name_spec(k)[3] != '[');
            assert(key_name_spec(k)[0] != ']' && key_name_spec(k)[1] != ']' && key_name_spec(k)[2]
                != ']' && key_name_spec(k)[3] != ']');
        },
        Key::AC04 => {
            reveal_strlit("AC04");
            assert(key_name_spec(k).len() == 4);
            assert(key_name_spec(k)[0] != '[' && key_name_spec(k)[1] != '[' && key_name_spec(k)[2]
                != '[' && key_name_spec(k)[3] != '[');
            assert(key_name_spec(k)[0] != ']' && key_name_spec(k)[1] != ']' && key_name_spec(k)[2]
                != ']' && key_name_spec(k)[3] != ']');
        },
        Key::AC05 => {
            reveal_strlit("AC05");
            assert(key_name_spec(k).len() == 4);
            assert(key_name_spec(k)[0] != '[' && key_name_spec(k)[1] != '[' && key_name_spec(k)[2]
                != '[' && key_name_spec(k)[3] != '[');
            assert(key_name_spec(k)[0] != ']' && key_name_spec(k)[1] != ']' && key_name_spec(k)[2]
                != ']' && key_name_spec(k)[3] != ']');
        },
        Key::AC06 => {
            reveal_strlit("AC06");
            assert(key_name_spec(k).len() == 4);
            assert(key_name_spec(k)[0] != '[' && key_name_spec(k)[1] != '[' && key_name_spec(k)[2]
                != '[' && key_name_spec(k)[3] != '[');
            assert(key_name_spec(k)[0] != ']' && key_name_spec(k)[1] != ']' && key_name_spec(k)[2]
                != ']' && key_name_spec(k)[3] != ']');
        },
        Key::AC07 => {
            reveal_strlit("AC07");
            assert(key_name_spec(k).len() == 4);
            assert(key_name_spec(k)[0] != '[' && key_name_spec(k)[1] != '[' && key_name_spec(k)[2]
                != '[' && key_name_spec(k)[3] != '[');
            assert(key_name_spec(k)[0] != ']' && key_name_spec(k)[1] != ']' && key_name_spec(k)[2]
                != ']' && key_name_spec(k)[3] != ']');
        },
        Key::AC08 => {
            reveal_strlit("AC08");
            assert(key_name_spec(k).len() == 4);
            assert(key_name_spec(k)[0] != '[' && key_name_spec(k)[1] != '[' && key_name_spec(k)[2]
                != '[' && key_name_spec(k)[3] != '[');
            assert(key_name_spec(k)[0] != ']' && key_name_spec(k)[1] != ']' && key_name_spec(k)[2]
                != ']' && key_name_spec(k)[3] != ']');
        },
        Key::AC09 => {
            reveal_strlit("AC09");
            assert(key_name_spec(k).len() == 4);
            assert(key_name_spec(k)[0] != '[' && key_name_spec(k)[1] != '[' && key_name_spec(k)[2]
                != '[' && key_name_spec(k)[3] != '[');
            assert(key_name_spec(k)[0] != ']' && key_name_spec(k)[1] != ']' && key_name_spec(k)[2]
                != ']' && key_name_spec(k)[3] != ']');
        },
        Key::AC10 => {
            reveal_strlit("AC10");
            assert(key_name_spec(k).len() == 4);
            assert(key_name_spec(k)[0] != '[' && key_name_spec(k)[1] != '[' && key_name_spec(k)[2]
                != '[' && key_name_spec(k)[3] != '[');
            assert(key_name_spec(k)[0] != ']' && key_name_spec(k)[1] != ']' && key_name_spec(k)[2]
                != ']' && key_name_spec(k)[3] != ']');
        },
        Key::AC11 => {
            reveal_strlit("AC11");
            assert(key_name_spec(k).len() == 4);
            assert(key_name_spec(k)[0] != '[' && key_name_spec(k)[1] != '[' && key_name_spec(k)[2]
                != '[' && key_name_spec(k)[3] != '[');
            assert(key_name_spec(k)[0] != ']' && key_name_spec(k)[1] != ']' && key_name_spec(k)[2]
                != ']' && key_name_spec(k)[3] != ']');
        },
        Key::TLDE => {
            reveal_strlit("TLDE");
            assert(key_name_spec(k).len() == 4);
            assert(key_name_spec(k)[0] != '[' && key_name_spec(k)[1] != '[' && key_name_spec(k)[2]
                != '[' && key_name_spec(k)[3] != '[');
            assert(key_name_spec(k)[0] != ']' && key_name_spec(k)[1] != ']' && key_name_spec(k)[2]
                != ']' && key_name_spec(k)[3] != ']');
        },
        Key::BKSL => {
            reveal_strlit("BKSL");
            assert(key_name_spec(k).len() == 4);
            assert(key_name_spec(k)[0] != '[' && key_name_spec(k)[1] != '[' && key_name_spec(k)[2]
                != '[' && key_name_spec(k)[3] != '[');
            assert(key_name_spec(k)[0] != ']' && key_name_spec(k)[1] != ']' && key_name_spec(k)[2]
                != ']' && key_name_spec(k)[3] != ']');
        },
        Key::AB01 => {
            reveal_strlit("AB01");
            assert(key_name_spec(k).len() == 4);
            assert(key_name_spec(k)[0] != '[' && key_name_spec(k)[1] != '[' && key_name_spec(k)[2]
                != '[' && key_name_spec(k)[3] != '[');
            assert(key_name_spec(k)[0] != ']' && key_name_spec(k)[1] != ']' && key_name_spec(k)[2]
                != ']' && key_name_spec(k)[3] != ']');
        },
        Key::AB02 => {
            reveal_strlit("AB02");
            assert(key_name_spec(k).len() == 4);
            assert(key_name_spec(k)[0] != '[' && key_name_spec(k)[1] != '[' && key_name_spec(k)[2]
                != '[' && key_name_spec(k)[3] != '[');
            assert(key_name_spec(k)[0] != ']' && key_name_spec(k)[1] != ']' && key_name_spec(k)[2]
                != ']' && key_name_spec(k)[3] != ']');
        },
        Key::AB03 => {
            reveal_strlit("AB03");
            assert(key_name_spec(k).len() == 4);
            assert(key_name_spec(k)[0] != '[' && key_name_spec(k)[1] != '[' && key_name_spec(k)[2]
                != '[' && key_name_spec(k)[3] != '[');
            assert(key_name_spec(k)[0] != ']' && key_name_spec(k)[1] != ']' && key_name_spec(k)[2]
                != ']' && key_name_spec(k)[3] != ']');
        },
        Key::AB04 => {
            reveal_strlit("AB04");
            assert(key_name_spec(k).len() == 4);
            assert(key_name_spec(k)[0] != '[' && key_name_spec(k)[1] != '[' && key_name_spec(k)[2]
                != '[' && key_name_spec(k)[3] != '[');
            assert(key_name_spec(k)[0] != ']' && key_name_spec(k)[1] != ']' && key_name_spec(k)[2]
                != ']' && key_name_spec(k)[3] != ']');
        },
        Key::AB05 => {
            reveal_strlit("AB05");
            assert(key_name_spec(k).len() == 4);
            assert(key_name_spec(k)[0] != '[' && key_name_spec(k)[1] != '[' && key_name_spec(k)[2]
                != '[' && key_name_spec(k)[3] != '[');
            assert(key_name_spec(k)[0] != ']' && key_name_spec(k)[1] != ']' && key_name_spec(k)[2]
                != ']' && key_name_spec(k)[3] != ']');
        },
        Key::AB06 => {
            reveal_strlit("AB06");
            assert(key_name_spec(k).len() == 4);
            assert(key_name_spec(k)[0] != '[' && key_name_spec(k)[1] != '[' && key_name_spec(k)[2]
                != '[' && key_name_spec(k)[3] != '[');
            assert(key_name_spec(k)[0] != ']' && key_name_spec(k)[1] != ']' && key_name_spec(k)[2]
                != ']' && key_name_spec(k)[3] != ']');
        },
        Key::AB07 => {
            reveal_strlit("AB07");
            assert(key_name_spec(k).len() == 4);
            assert(key_name_spec(k)[0] != '[' && key_name_spec(k)[1] != '[' && key_name_spec(k)[2]
                != '[' && key_name_spec(k)[3] != '[');
            assert(key_name_spec(k)[0] != ']' && key_name_spec(k)[1] != ']' && key_name_spec(k)[2]
                != ']' && key_name_spec(k)[3] != ']');
        },
        Key::AB08 => {
            reveal_strlit("AB08");
            assert(key_name_spec(k).len() == 4);
            assert(key_name_spec(k)[0] != '[' && key_name_spec(k)[1] != '[' && key_name_spec(k)[2]
                != '[' && key_name_spec(k)[3] != '[');
            assert(key_name_spec(k)[0] != ']' && key_name_spec(k)[1] != ']' && key_name_spec(k)[2]
                != ']' && key_name_spec(k)[3] != ']');
        },
        Key::AB09 => {
            reveal_strlit("AB09");
            assert(key_name_spec(k).len() == 4);
            assert(key_name_spec(k)[0] != '[' && key_name_spec(k)[1] != '[' && key_name_spec(k)[2]
                != '[' && key_name_spec(k)[3] != '[');
            assert(key_name_spec(k)[0] != ']' && key_name_spec(k)[1] != ']' && key_name_spec(k)[2]
                != ']' && key_name_spec(k)[3] != ']');
        },
        Key::AB10 => {
            reveal_strlit("AB10");
            assert(key_name_spec(k).len() == 4);
            assert(key_name_spec(k)[0] != '[' && key_name_spec(k)[1] != '[' && key_name_spec(k)[2]
                != '[' && key_name_spec(k)[3] != '[');
            assert(key_name_spec(k)[0] != ']' && key_name_spec(k)[1] != ']' && key_name_spec(k)[2]
                != ']' && key_name_spec(k)[3] != ']');
        },
        Key::SPCE => {
            reveal_strlit("SPCE");
            assert(key_name_spec(k).len() == 4);
            assert(key_name_spec(k)[0] != '[' && key_name_spec(k)[1] != '[' && key_name_spec(k)[2]
                != '[' && key_name_spec(k)[3] != '[');
            assert(key_name_spec(k)[0] != ']' && key_name_spec(k)[1] != ']' && key_name_spec(k)[2]
                != ']' && key_name_spec(k)[3] != ']');
        },
        Key::KPDL => {
            reveal_strlit("KPDL");
            assert(key_name_spec(k).len() == 4);
            assert(key_name_spec(k)[0] != '[' && key_name_spec(k)[1] != '[' && key_name_spec(k)[2]
                != '[' && key_name_spec(k)[3] != '[');
            assert(key_name_spec(k)[0] != ']' && key_name_spec(k)[1] != ']' && key_name_spec(k)[2]
                != ']' && key_name_spec(k)[3] != ']');
        },
        Key::LSGT => {
            reveal_strlit("LSGT");
            assert(key_name_spec(k).len() == 4);
            assert(key_name_spec(k)[0] != '[' && key_name_spec(k)[1] != '[' && key_name_spec(k)[2]
                != '[' && key_name_spec(k)[3] != '[');
            assert(key_name_spec(k)[0] != ']' && key_name_spec(k)[1] != ']' && key_name_spec(k)[2]
                != ']' && key_name_spec(k)[3] != ']');
        },
    }
}

/// Whether a text holds no square bracket.
spec fn no_square(s: Seq<char>) -> bool {
    forall|i: int| 0 <= i < s.len() ==> s[i] != '[' && s[i] != ']'
}

/// Bracket freedom carries over concatenation.
proof fn lemma_no_square_concat(a: Seq<char>, b: Seq<char>)
    requires
        no_square(a),
        no_square(b),
    ensures
        no_square(a + b),
{
    let s = a + b;
    assert(forall|i: int| 0 <= i < s.len() ==> s[i] != '[' && s[i] != ']') by {
        assert(forall|i: int| 0 <= i < a.len() ==> s[i] == a[i]);
        assert(forall|i: int| a.len() <= i < s.len() ==> s[i] == b[i - a.len()]);
    }
}

/// A bracket-free token stays bracket-free under padding.
proof fn lemma_pad_no_square(t: Seq<char>, w: nat)
    requires
        no_square(t),
    ensures
        no_square(crate::text::pad_left_spec(t, w)),
{
    let p = crate::text::pad_left_spec(t, w);
    if t.len() >= w {
    } else {
        let k = (w - t.len()) as int;
        assert(forall|i: int| 0 <= i < p.len() ==> p[i] != '[' && p[i] != ']') by {
            assert(forall|i: int| 0 <= i < k ==> p[i] == ' ');
            assert(forall|i: int| k <= i < p.len() ==> p[i] == t[i - k]);
        }
    }
}

/// A serialized output list holds no square bracket.
proof fn lemma_output_text_no_square(pairs: Seq<(Seq<char>, char)>, o: OutputView)
    requires
        slot_text_clean(pairs, o.normal),
        slot_text_clean(pairs, o.shift),
        slot_text_clean(pairs, o.altgr),
        slot_text_clean(pairs, o.altgr_shift),
    ensures
        no_square(output_text_spec(pairs, o)),
{
    reveal_strlit(", ");
    assert(no_square(", "@)) by {
        assert(", "@[0] == ',');
        assert(", "@[1] == ' ');
    }
    let pa = crate::text::pad_left_spec(char_text_spec(pairs, o.normal), 10);
    let pb = crate::text::pad_left_spec(char_text_spec(pairs, o.shift), 10);
    let pc = crate::text::pad_left_spec(char_text_spec(pairs, o.altgr), 12);
    let pd = crate::text::pad_left_spec(char_text_spec(pairs, o.altgr_shift), 12);
    lemma_pad_no_square(char_text_spec(pairs, o.normal), 10);
    lemma_pad_no_square(char_text_spec(pairs, o.shift), 10);
    lemma_pad_no_square(char_text_spec(pairs, o.altgr), 12);
    lemma_pad_no_square(char_text_spec(pairs, o.altgr_shift), 12);
    lemma_no_square_concat(pa, ", "@);
    lemma_no_square_concat(pa + ", "@, pb);
    if o.altgr == empty_slot() && o.altgr_shift == empty_slot() {
        assert(output_text_spec(pairs, o) =~= pa + ", "@ + pb);
    } else {
        lemma_no_square_concat(pa + ", "@ + pb, ", "@);
        lemma_no_square_concat(pa + ", "@ + pb + ", "@, pc);
        lemma_no_square_concat(pa + ", "@ + pb + ", "@ + pc, ", "@);
        lemma_no_square_concat(pa + ", "@ + pb + ", "@ + pc + ", "@, pd);
    }
}

/// Round trip of a whole serialized key row: the row the writer emits,
/// trimmed as the block reader trims every line, reads back as exactly
/// the same key bound to the same four slots.
#[verifier::rlimit(100)]
pub proof fn lemma_key_line_round_trip(
    pairs: Seq<(Seq<char>, char)>,
    st: PartialXkbSymbolsView,
    k: Key,
    o: OutputView,
)
    requires
        crate::names::bimap_wf(pairs),
        slot_text_clean(pairs, o.normal),
        slot_text_clean(pairs, o.shift),
        slot_text_clean(pairs, o.altgr),
        slot_text_clean(pairs, o.altgr_shift),
    ensures
        process_line_spec(pairs, st, crate::text::trim_spec(key_row_spec(pairs, k, o))) == Ok::<
            PartialXkbSymbolsView,
            KlayError,
        >(PartialXkbSymbolsView { keys: key_set_spec(st.keys, k, o), ..st }),
{
    let name = key_name_spec(k);
    let out_text = output_text_spec(pairs, o);
    lemma_key_name_props(k);
    reveal_strlit("    key <");
    reveal_strlit("key <");
    reveal_strlit("key ");
    reveal_strlit(">\t{ [");
    reveal_strlit("]\t};");
    let mid = ">\t{ ["@;
    let tail = "]\t};"@;
    let lhead = "key <"@ + name;
    let ltail = mid + out_text + tail;
    let line = lhead + ltail;
    assert(key_row_spec(pairs, k, o) =~= crate::text::space_chars(4) + line);
    crate::text::lemma_trim_front_spaces(4, line);
    assert(line.first() == 'k');
    assert(line.last() == ';') by {
        assert(tail.len() == 4);
        assert(tail[3] == ';');
        assert(line.len() == 5 + name.len() + mid.len() + out_text.len() + tail.len());
        assert(line[line.len() - 1] == tail[3]);
    }
    assert(crate::text::trim_front_spec(line) == line);
    assert(crate::text::trim_back_spec(line) == line);
    assert(crate::text::trim_spec(key_row_spec(pairs, k, o)) == line);
    assert(crate::text::starts_with_spec(line, "key "@)) by {
        assert(line.take(4) =~= "key "@);
    }
    assert(line.len() >= 9);
    assert(line.subrange(5, 9) =~= name);
    lemma_key_name_round_trip(k);
    assert(no_square(lhead)) by {
        assert(forall|i: int| 0 <= i < 5 ==> lhead[i] == "key <"@[i]);
        assert(forall|i: int| 5 <= i < 9 ==> lhead[i] == name[i - 5]);
    }
    assert(crate::text::find_from_spec(ltail, '[', 0) == Some(4int)) by {
        assert(ltail[0] == '>');
        assert(ltail[1] == '\t');
        assert(ltail[2] == '{');
        assert(ltail[3] == ' ');
        assert(ltail[4] == '[');
        assert(crate::text::find_from_spec(ltail, '[', 4) == Some(4int));
        assert(crate::text::find_from_spec(ltail, '[', 3) == Some(4int));
        assert(crate::text::find_from_spec(ltail, '[', 2) == Some(4int));
        assert(crate::text::find_from_spec(ltail, '[', 1) == Some(4int));
        assert(crate::text::find_from_spec(ltail, '[', 0) == Some(4int));
    }
    crate::text::lemma_find_from_concat(lhead, ltail, '[');
    assert(crate::text::find_from_spec(line, '[', 0) == Some(13int));
    crate::text::lemma_find_from_skip(line, ']', 14);
    assert(line.skip(14) =~= out_text + tail);
    lemma_output_text_no_square(pairs, o);
    crate::text::lemma_find_from_concat(out_text, tail, ']');
    assert(crate::text::find_from_spec(tail, ']', 0) == Some(0int)) by {
        assert(tail[0] == ']');
    }
    assert(crate::text::find_from_spec(line, ']', 14) == Some(14 + out_text.len() as int));
    let ei = 14 + out_text.len() as int;
    assert(line.subrange(14, ei) =~= out_text);
    lemma_output_list_round_trip(pairs, o);
    assert(key_line_spec(pairs, st, line) == Ok::<PartialXkbSymbolsView, KlayError>(
        PartialXkbSymbolsView { keys: key_set_spec(st.keys, k, o), ..st },
    ));
}

/// Round trip of the inherit directive line the writer emits: the
/// quoted reference reads back as the block's inherited reference, for
/// a quote-free reference and a block with none set yet.
pub proof fn lemma_inherit_line_round_trip(
    pairs: Seq<(Seq<char>, char)>,
    st: PartialXkbSymbolsView,
    inc: Seq<char>,
)
    requires
        st.inherits is None,
        forall|i: int| 0 <= i < inc.len() ==> inc[i] != '"',
    ensures
        process_line_spec(
            pairs,
            st,
            crate::text::trim_spec("    "@ + inherit_kw() + " \""@ + inc + "\""@),
        ) == Ok::<PartialXkbSymbolsView, KlayError>(
            PartialXkbSymbolsView { inherits: Some(inc), ..st },
        ),
{
    reveal_strlit("    ");
    reveal_strlit(" \"");
    reveal_strlit("\"");
    reveal_strlit("key ");
    let kw = inherit_kw();
    let l = kw + " \""@ + inc + "\""@;
    assert("    "@ =~= crate::text::space_chars(4));
    assert("    "@ + kw + " \""@ + inc + "\""@ =~= crate::text::space_chars(4) + l);
    crate::text::lemma_trim_front_spaces(4, l);
    assert(l.first() == 'i');
    assert(l.last() == '"') by {
        assert(l.len() == 9 + inc.len() + 1);
        assert(l[l.len() - 1] == '"');
    }
    assert(crate::text::trim_front_spec(l) == l);
    assert(crate::text::trim_back_spec(l) == l);
    assert(crate::text::trim_spec("    "@ + kw + " \""@ + inc + "\""@) == l);
    assert(!crate::text::starts_with_spec(l, "key "@)) by {
        if crate::text::starts_with_spec(l, "key "@) {
            assert(l.take(4)[0] == l[0]);
        }
    }
    assert(crate::text::starts_with_spec(l, kw)) by {
        assert(l.take(7) =~= kw);
    }
    assert(l.len() >= 8);
    assert(l[7] == ' ');
    let a = kw + seq![' '];
    let b = seq!['"'] + inc + seq!['"'];
    assert(l =~= a + b);
    assert(forall|i: int| 0 <= i < a.len() ==> a[i] != '"') by {
        assert(a[0] == 'i' && a[1] == 'n' && a[2] == 'c' && a[3] == 'l' && a[4] == 'u' && a[5]
            == 'd' && a[6] == 'e' && a[7] == ' ');
    }
    assert(crate::text::find_from_spec(b, '"', 0) == Some(0int)) by {
        assert(b[0] == '"');
    }
    crate::text::lemma_find_from_concat(a, b, '"');
    assert(crate::text::find_from_spec(l, '"', 0) == Some(8int));
    crate::text::lemma_find_from_skip(l, '"', 9);
    let b2 = seq!['"'];
    assert(l.skip(9) =~= inc + b2);
    assert(crate::text::find_from_spec(b2, '"', 0) == Some(0int)) by {
        assert(b2[0] == '"');
    }
    crate::text::lemma_find_from_concat(inc, b2, '"');
    assert(crate::text::find_from_spec(l, '"', 9) == Some(9 + inc.len() as int));
    assert(l.subrange(9, 9 + inc.len() as int) =~= inc);
}

/// Round trip of the group-1 name line the writer emits: the quoted
/// display name reads back as the block's group-1 name, for a
/// quote-free name and a block with none set yet.
pub proof fn lemma_group_name_line_round_trip(
    pairs: Seq<(Seq<char>, char)>,
    st: PartialXkbSymbolsView,
    ng: Seq<char>,
)
    requires
        st.name_group1 is None,
        forall|i: int| 0 <= i < ng.len() ==> ng[i] != '"',
    ensures
        process_line_spec(
            pairs,
            st,
            crate::text::trim_spec("    name[Group1]=\""@ + ng + "\";"@),
        ) == Ok::<PartialXkbSymbolsView, KlayError>(
            PartialXkbSymbolsView { name_group1: Some(ng), ..st },
        ),
{
    reveal_strlit("    name[Group1]=\"");
    reveal_strlit("name[Group1]");
    reveal_strlit("\";");
    reveal_strlit("key ");
    let raw = "    name[Group1]=\""@ + ng + "\";"@;
    let pref = "    name[Group1]=\""@;
    assert(pref.len() == 18);
    let l = raw.skip(4);
    assert(raw =~= crate::text::space_chars(4) + l);
    crate::text::lemma_trim_front_spaces(4, l);
    assert(l.len() == 14 + ng.len() + 2);
    assert(l.first() == 'n') by {
        assert(l[0] == raw[4]);
        assert(pref[4] == 'n');
    }
    assert(l.last() == ';') by {
        assert(l[l.len() - 1] == raw[raw.len() - 1]);
        assert("\";"@[1] == ';');
    }
    assert(crate::text::trim_front_spec(l) == l);
    assert(crate::text::trim_back_spec(l) == l);
    assert(crate::text::trim_spec(raw) == l);
    assert(forall|i: int| 0 <= i < 14 ==> #[trigger] l[i] == pref[i + 4]);
    assert(!crate::text::starts_with_spec(l, "key "@)) by {
        if crate::text::starts_with_spec(l, "key "@) {
            assert(l.take(4)[0] == l[0]);
            assert(pref[4] == 'n');
        }
    }
    assert(!(crate::text::starts_with_spec(l, inherit_kw()) && l.len() >= 8 && l[7] == ' ')) by {
        if crate::text::starts_with_spec(l, inherit_kw()) {
            assert(l.take(7)[0] == l[0]);
        }
    }
    assert(crate::text::starts_with_spec(l, "name[Group1]"@)) by {
        assert(l.take(12) =~= "name[Group1]"@);
    }
    let a = l.take(13);
    let b = l.skip(13);
    assert(l =~= a + b);
    assert(forall|i: int| 0 <= i < a.len() ==> a[i] != '"') by {
        assert(forall|i: int| 0 <= i < 13 ==> #[trigger] a[i] == pref[i + 4]);
    }
    assert(b[0] == '"') by {
        assert(b[0] == l[13]);
        assert(pref[17] == '"');
    }
    assert(crate::text::find_from_spec(b, '"', 0) == Some(0int));
    crate::text::lemma_find_from_concat(a, b, '"');
    assert(crate::text::find_from_spec(l, '"', 0) == Some(13int));
    crate::text::lemma_find_from_skip(l, '"', 14);
    let b2 = seq!['"', ';'];
    assert(l.skip(14) =~= ng + b2);
    assert(crate::text::find_from_spec(b2, '"', 0) == Some(0int)) by {
        assert(b2[0] == '"');
    }
    crate::text::lemma_find_from_concat(ng, b2, '"');
    assert(crate::text::find_from_spec(l, '"', 14) == Some(14 + ng.len() as int));
    assert(l.subrange(14, 14 + ng.len() as int) =~= ng);
}

/// The writer's inherit and group-name segments are exactly the lines
/// the round-trip laws read back, each followed by its blank line.
pub proof fn lemma_writer_block_texts(inc: Seq<char>, ng: Seq<char>)
    ensures
        "    "@ + inherit_kw() + " \""@ + inc + "\"\n\n"@ == ("    "@ + inherit_kw() + " \""@
            + inc + "\""@) + "\n\n"@,
        "    name[Group1]=\""@ + ng + "\";\n\n"@ == ("    name[Group1]=\""@ + ng + "\";"@)
            + "\n\n"@,
{
    reveal_strlit("\"");
    reveal_strlit("\";");
    reveal_strlit("\n\n");
    reveal_strlit("\"\n\n");
    reveal_strlit("\";\n\n");
    assert("    "@ + inherit_kw() + " \""@ + inc + "\"\n\n"@ =~= ("    "@ + inherit_kw()
        + " \""@ + inc + "\""@) + "\n\n"@);
    assert("    name[Group1]=\""@ + ng + "\";\n\n"@ =~= ("    name[Group1]=\""@ + ng + "\";"@)
        + "\n\n"@);
}

} // verus!
