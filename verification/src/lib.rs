//! Keyboard-layout data model and format codecs.
//!
//! The library holds a normalized keyboard-layout model together with the
//! codecs that read and write the platform formats built on it: a UTF-16
//! auto-endian transcoding layer, the Windows tab-delimited layout table,
//! the Linux XKB "symbols" block format, a fixed scan-code translation
//! table, and the conversion algorithm that maps a Windows layout onto the
//! Linux key grid while reusing a default overlay.

use vstd::prelude::*;

pub mod assoc;
pub mod convert;
pub mod keylayout;
pub mod klc;
pub mod linux;
pub mod names;
pub mod text;
pub mod utf16;

verus! {

/// The error kinds a parse or a conversion can end in.
///
/// Nearly all of these abort the whole operation for the current document;
/// the lone local recovery in the library is unresolved symbolic-name
/// lookups, which fall back to a numeric `U<hex>` form instead of failing.
#[derive(Debug, Clone, Copy, PartialEq, Eq, Structural)]
pub enum KlayError {
    /// No Linux key-identifier mapping exists for this Windows scan code.
    UnsupportedScanCode(u8),
    /// A row violates the active section's field grammar, or an expected
    /// header token is missing.
    MalformedSection,
    /// A high surrogate unit was not followed by a valid low surrogate.
    InvalidSurrogatePair,
    /// A line's first token matches no known directive while no section
    /// is active.
    UnknownSectionKeyword,
    /// A second XKB block claims `default`.
    DuplicateDefaultBlock,
    /// An inherit reference names a symbols file or a block that was
    /// not among those given.
    UnknownLayout,
    /// An inherit chain never reaches a block without an inherit
    /// reference of its own.
    CyclicInheritance,
}

/// The fixed closed set of physical key identifiers of the normalized
/// descriptor.
#[derive(Debug, Copy, Clone, PartialEq, Eq, Structural)]
pub enum KeyboardKey {
    TLD,
    E01,
    E02,
    E03,
    E04,
    E05,
    E06,
    E07,
    E08,
    E09,
    E10,
    E11,
    E12,
    D01,
    D02,
    D03,
    D04,
    D05,
    D06,
    D07,
    D08,
    D09,
    D10,
    D11,
    D12,
    C01,
    C02,
    C03,
    C04,
    C05,
    C06,
    C07,
    C08,
    C09,
    C10,
    C11,
    BKS,
    LGT,
    B01,
    B02,
    B03,
    B04,
    B05,
    B06,
    B07,
    B08,
    B09,
    B10,
    SPC,
    KPD,
}

/// One output of the normalized descriptor: a literal character or the
/// name of a special output such as a dead key.
#[derive(Debug, Clone, PartialEq)]
pub enum Out {
    Char(char),
    Special(String),
}

impl Default for Out {
    /// The default output is the empty sentinel character.
    fn default() -> (r: Out)
        ensures
            r == Out::Char('\0'),
    {
        Out::Char('\0')
    }
}

/// The up-to-four outputs of one key of the normalized descriptor.
#[derive(Debug, Clone, PartialEq)]
pub struct Outs {
    pub normal: Out,
    pub shift: Out,
    pub altgr: Out,
    pub altgr_shift: Out,
}

/// The error of building the outputs of one key from a list with more
/// than four entries.
#[derive(Debug, Copy, Clone, PartialEq, Eq, Structural)]
pub struct TooManyOuts;

/// The output a list provides at one position, the default past its
/// end.
pub open spec fn out_at(v: Seq<Out>, i: int) -> Out {
    if 0 <= i < v.len() {
        v[i]
    } else {
        Out::Char('\0')
    }
}

impl Outs {
    /// Builds the outputs of one key from a list of at most four
    /// entries; missing entries stay unbound, more than four are
    /// rejected.
    pub fn try_from(v: Vec<Out>) -> (r: Result<Outs, TooManyOuts>)
        ensures
            v@.len() > 4 <==> r is Err,
            r matches Ok(o) ==> o.normal == out_at(v@, 0) && o.shift == out_at(v@, 1) && o.altgr
                == out_at(v@, 2) && o.altgr_shift == out_at(v@, 3),
    {
        if v.len() > 4 {
            Err(TooManyOuts)
        } else {
            let mut it = v;
            let normal: Out = if it.len() > 0 {
                it.remove(0)
            } else {
                Out::Char('\0')
            };
            let shift: Out = if it.len() > 0 {
                it.remove(0)
            } else {
                Out::Char('\0')
            };
            let altgr: Out = if it.len() > 0 {
                it.remove(0)
            } else {
                Out::Char('\0')
            };
            let altgr_shift: Out = if it.len() > 0 {
                it.remove(0)
            } else {
                Out::Char('\0')
            };
            Ok(Outs { normal, shift, altgr, altgr_shift })
        }
    }
}

/// A special output of the normalized descriptor: a dead key and the
/// code point that triggers it.
#[derive(Debug, Clone, PartialEq)]
pub enum Special {
    Deadkey { deadkey: char },
}

/// The header of the normalized descriptor.
#[derive(Debug, Clone, PartialEq)]
pub struct Metadata {
    pub name: String,
    pub description: String,
    pub short: String,
    pub locale: String,
    pub version: String,
    pub author: String,
}

impl Default for Metadata {
    /// The default header has every field empty.
    fn default() -> (r: Metadata)
        ensures
            r.name@ == Seq::<char>::empty(),
            r.description@ == Seq::<char>::empty(),
            r.short@ == Seq::<char>::empty(),
            r.locale@ == Seq::<char>::empty(),
            r.version@ == Seq::<char>::empty(),
            r.author@ == Seq::<char>::empty(),
    {
        Metadata {
            name: String::new(),
            description: String::new(),
            short: String::new(),
            locale: String::new(),
            version: String::new(),
            author: String::new(),
        }
    }
}

/// The normalized keyboard-layout descriptor: header metadata, the
/// keymap from physical key identifier to outputs, and the named
/// special outputs.
#[derive(Debug, Clone, PartialEq)]
pub struct KlayLayout {
    pub metadata: Metadata,
    pub keymap: Vec<(KeyboardKey, Outs)>,
    pub special: Vec<(String, Special)>,
}

} // verus!
