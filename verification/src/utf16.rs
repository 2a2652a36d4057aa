//! The UTF-16 transcoder: endian-aware byte-pair decoding, code-point and
//! surrogate handling, and line splitting, over an in-memory byte stream.

use vstd::prelude::*;
use crate::KlayError;
use crate::text::char_from_u32;

verus! {

/// An in-memory byte stream with a read position.
pub struct ByteReader {
    pub bytes: Vec<u8>,
    pub pos: usize,
}

impl ByteReader {
    /// A stream over the given bytes, positioned at the start.
    pub fn new(bytes: Vec<u8>) -> (r: ByteReader)
        ensures
            r.bytes == bytes,
            r.pos == 0,
    {
        ByteReader { bytes, pos: 0 }
    }
}

/// The value of one 16-bit unit read from two bytes.
pub open spec fn unit_val(b0: u8, b1: u8, little: bool) -> u16 {
    if little {
        (b0 as u16 + 256 * (b1 as u16)) as u16
    } else {
        (b1 as u16 + 256 * (b0 as u16)) as u16
    }
}

/// A 16-bit unit that decodes standalone: not a surrogate half.
pub open spec fn is_standalone_unit(u: u16) -> bool {
    u < 0xD800 || 0xE000 <= u
}

/// A high surrogate: the first half of a surrogate pair.
pub open spec fn is_high_surrogate(u: u16) -> bool {
    0xD800 <= u && u < 0xDC00
}

/// A low surrogate: the second half of a surrogate pair.
pub open spec fn is_low_surrogate(u: u16) -> bool {
    0xDC00 <= u && u < 0xE000
}

/// The code point a surrogate pair denotes.
pub open spec fn surrogate_scalar(hi: u16, lo: u16) -> u32
    recommends
        is_high_surrogate(hi),
        is_low_surrogate(lo),
{
    (0x10000 + (hi - 0xD800) * 0x400 + (lo - 0xDC00)) as u32
}

/// A stream of 16-bit units of one byte order, chosen once when the
/// stream was opened.
pub enum AutoEndianReader {
    Little(ByteReader),
    Big(ByteReader),
}

/// What one step of the transcoder yields, together with the position
/// after the step.
pub open spec fn next_char_spec(bytes: Seq<u8>, pos: int, little: bool) -> (Result<
    Option<char>,
    KlayError,
>, int)
    recommends
        0 <= pos <= bytes.len(),
{
    if pos + 2 > bytes.len() {
        (Ok(None), pos)
    } else {
        let u = unit_val(bytes[pos], bytes[pos + 1], little);
        if is_standalone_unit(u) {
            (Ok(Some((u as u32) as char)), pos + 2)
        } else if is_high_surrogate(u) {
            if pos + 4 > bytes.len() {
                (Err(KlayError::InvalidSurrogatePair), pos + 2)
            } else {
                let u2 = unit_val(bytes[pos + 2], bytes[pos + 3], little);
                if is_low_surrogate(u2) {
                    (Ok(Some(surrogate_scalar(u, u2) as char)), pos + 4)
                } else {
                    (Err(KlayError::InvalidSurrogatePair), pos + 4)
                }
            }
        } else {
            (Err(KlayError::InvalidSurrogatePair), pos + 2)
        }
    }
}

impl AutoEndianReader {
    /// A little-endian stream.
    pub fn new_little(inner: ByteReader) -> (r: AutoEndianReader)
        ensures
            r == AutoEndianReader::Little(inner),
    {
        AutoEndianReader::Little(inner)
    }

    /// A big-endian stream.
    pub fn new_big(inner: ByteReader) -> (r: AutoEndianReader)
        ensures
            r == AutoEndianReader::Big(inner),
    {
        AutoEndianReader::Big(inner)
    }

    /// Whether the stream reads its units little-endian.
    pub fn is_little(&self) -> (r: bool)
        ensures
            r == (self is Little),
    {
        match *self {
            AutoEndianReader::Little(_) => true,
            _ => false,
        }
    }

    /// Whether the stream reads its units big-endian.
    pub fn is_big(&self) -> (r: bool)
        ensures
            r == (self is Big),
    {
        match *self {
            AutoEndianReader::Big(_) => true,
            _ => false,
        }
    }

    /// The stream the reader holds.
    pub open spec fn inner(&self) -> ByteReader {
        match self {
            AutoEndianReader::Little(b) => *b,
            AutoEndianReader::Big(b) => *b,
        }
    }

    /// The reader is positioned inside its bytes.
    pub open spec fn wf(&self) -> bool {
        self.inner().pos <= self.inner().bytes.len()
    }

    /// Reads the first 16-bit unit as a byte-order mark: `0xFEFF` read
    /// little-endian (the bytes `FF FE`) selects little-endian and is
    /// consumed; `0xFFFE` (the bytes `FE FF`) selects big-endian and is
    /// consumed. Any other leading value is not an error: the stream is
    /// little-endian by default and the unit stays in place as ordinary
    /// data, as does a stream too short to hold a unit.
    pub fn new_auto_bom(inner: ByteReader) -> (r: AutoEndianReader)
        requires
            inner.pos <= inner.bytes.len(),
        ensures
            r.inner().bytes == inner.bytes,
            ({
                let has_unit = inner.pos + 2 <= inner.bytes@.len();
                let u = unit_val(
                    inner.bytes@[inner.pos as int],
                    inner.bytes@[inner.pos + 1],
                    true,
                );
                if has_unit && u == 0xFEFF {
                    r is Little && r.inner().pos == inner.pos + 2
                } else if has_unit && u == 0xFFFE {
                    r is Big && r.inner().pos == inner.pos + 2
                } else {
                    r is Little && r.inner().pos == inner.pos
                }
            }),
    {
        if inner.bytes.len() - inner.pos >= 2 {
            let b0: u8 = inner.bytes[inner.pos];
            let b1: u8 = inner.bytes[inner.pos + 1];
            let u: u16 = b0 as u16 + 256 * (b1 as u16);
            if u == 0xFEFF {
                return AutoEndianReader::Little(
                    ByteReader { bytes: inner.bytes, pos: inner.pos + 2 },
                );
            }
            if u == 0xFFFE {
                return AutoEndianReader::Big(
                    ByteReader { bytes: inner.bytes, pos: inner.pos + 2 },
                );
            }
            return AutoEndianReader::Little(inner);
        }
        AutoEndianReader::Little(inner)
    }

    /// Reads one 16-bit unit in the stream's byte order. At the end of
    /// the stream (fewer than two bytes left) returns nothing and stays
    /// in place.
    pub fn read_u16(&mut self) -> (r: Option<u16>)
        requires
            old(self).wf(),
        ensures
            final(self).wf(),
            final(self).inner().bytes == old(self).inner().bytes,
            (*final(self) is Little) == (*old(self) is Little),
            ({
                let b = old(self).inner();
                if b.pos + 2 <= b.bytes@.len() {
                    r == Some(
                        unit_val(b.bytes@[b.pos as int], b.bytes@[b.pos + 1], *old(self) is Little),
                    ) && final(self).inner().pos == b.pos + 2
                } else {
                    r is None && final(self).inner().pos == b.pos
                }
            }),
    {
        match self {
            AutoEndianReader::Little(b) => {
                if b.bytes.len() - b.pos >= 2 {
                    let u: u16 = b.bytes[b.pos] as u16 + 256 * (b.bytes[b.pos + 1] as u16);
                    b.pos = b.pos + 2;
                    Some(u)
                } else {
                    None
                }
            },
            AutoEndianReader::Big(b) => {
                if b.bytes.len() - b.pos >= 2 {
                    let u: u16 = b.bytes[b.pos + 1] as u16 + 256 * (b.bytes[b.pos] as u16);
                    b.pos = b.pos + 2;
                    Some(u)
                } else {
                    None
                }
            },
        }
    }

    /// Decodes one character: a unit that stands alone is the character;
    /// a high surrogate must be followed by a low surrogate, and the pair
    /// combines into one code point. The end of the stream at the first
    /// unit is the end of the sequence; the end of the stream while a
    /// second half is awaited, or a half that cannot open or close a
    /// pair, is an `InvalidSurrogatePair` error.
    pub fn next_char(&mut self) -> (r: Result<Option<char>, KlayError>)
        requires
            old(self).wf(),
        ensures
            final(self).wf(),
            final(self).inner().bytes == old(self).inner().bytes,
            (*final(self) is Little) == (*old(self) is Little),
            ({
                let (res, newpos) = next_char_spec(
                    old(self).inner().bytes@,
                    old(self).inner().pos as int,
                    *old(self) is Little,
                );
                r == res && final(self).inner().pos == newpos
            }),
    {
        let u: u16 = match self.read_u16() {
            Some(u) => u,
            None => {
                return Ok(None);
            },
        };
        if u < 0xD800 || 0xE000 <= u {
            let c = match char_from_u32(u as u32) {
                Some(c) => c,
                None => {
                    proof {
                        assert(false);
                    }
                    return Err(KlayError::InvalidSurrogatePair);
                },
            };
            proof {
                vstd::utf8::char_u32_cast(c, u as u32);
            }
            Ok(Some(c))
        } else if u < 0xDC00 {
            let u2: u16 = match self.read_u16() {
                Some(u2) => u2,
                None => {
                    return Err(KlayError::InvalidSurrogatePair);
                },
            };
            if 0xDC00 <= u2 && u2 < 0xE000 {
                let scalar: u32 = 0x10000 + (u as u32 - 0xD800) * 0x400 + (u2 as u32 - 0xDC00);
                let c = match char_from_u32(scalar) {
                    Some(c) => c,
                    None => {
                        proof {
                            assert(false);
                        }
                        return Err(KlayError::InvalidSurrogatePair);
                    },
                };
                proof {
                    vstd::utf8::char_u32_cast(c, scalar);
                }
                Ok(Some(c))
            } else {
                Err(KlayError::InvalidSurrogatePair)
            }
        } else {
            Err(KlayError::InvalidSurrogatePair)
        }
    }
}

/// One step of line accumulation: characters gather until a newline is
/// produced or the input ends. The flag tells whether a newline ended
/// the line.
pub open spec fn line_rec(bytes: Seq<u8>, pos: int, little: bool, acc: Seq<char>) -> (Result<
    (Seq<char>, bool),
    KlayError,
>, int)
    recommends
        0 <= pos <= bytes.len(),
    decreases bytes.len() - pos,
{
    let (r, p) = next_char_spec(bytes, pos, little);
    match r {
        Err(e) => (Err(e), p),
        Ok(sc) => match sc {
            None => (Ok((acc, false)), p),
            Some(c) => if c == '\n' {
                (Ok((acc, true)), p)
            } else if p > pos {
                line_rec(bytes, p, little, acc.push(c))
            } else {
                (Ok((acc, true)), p)
            },
        },
    }
}

/// What reading one line yields: the characters before the newline, with
/// one trailing carriage return stripped when a newline ended the line;
/// nothing, where the input had ended before any character.
pub open spec fn next_line_spec(bytes: Seq<u8>, pos: int, little: bool) -> (Result<
    Option<Seq<char>>,
    KlayError,
>, int)
    recommends
        0 <= pos <= bytes.len(),
{
    let (r, p) = line_rec(bytes, pos, little, Seq::empty());
    match r {
        Err(e) => (Err(e), p),
        Ok(pair) => {
            let (line, hit_nl) = pair;
            if !hit_nl && line.len() == 0 {
                (Ok(None), p)
            } else if hit_nl && line.len() > 0 && line.last() == '\r' {
                (Ok(Some(line.drop_last())), p)
            } else {
                (Ok(Some(line)), p)
            }
        },
    }
}

/// All the lines of the stream, read one after another.
pub open spec fn lines_rec(bytes: Seq<u8>, pos: int, little: bool, acc: Seq<Seq<char>>) -> Result<
    Seq<Seq<char>>,
    KlayError,
>
    recommends
        0 <= pos <= bytes.len(),
    decreases bytes.len() - pos,
{
    let (r, p) = next_line_spec(bytes, pos, little);
    match r {
        Err(e) => Err(e),
        Ok(ol) => match ol {
            None => Ok(acc),
            Some(line) => if p > pos && p <= bytes.len() {
                lines_rec(bytes, p, little, acc.push(line))
            } else {
                Ok(acc.push(line))
            },
        },
    }
}

/// What splitting the whole stream into lines yields.
pub open spec fn lines_spec(bytes: Seq<u8>, pos: int, little: bool) -> Result<
    Seq<Seq<char>>,
    KlayError,
> {
    lines_rec(bytes, pos, little, Seq::empty())
}

impl AutoEndianReader {
    /// Reads one line: characters accumulate until a newline is decoded
    /// or the input ends; the newline and one carriage return before it
    /// are stripped. Nothing read at the end of input ends the
    /// iteration.
    pub fn next_line(&mut self) -> (r: Result<Option<String>, KlayError>)
        requires
            old(self).wf(),
        ensures
            final(self).wf(),
            final(self).inner().bytes == old(self).inner().bytes,
            (*final(self) is Little) == (*old(self) is Little),
            ({
                let (res, newpos) = next_line_spec(
                    old(self).inner().bytes@,
                    old(self).inner().pos as int,
                    *old(self) is Little,
                );
                final(self).inner().pos == newpos && match r {
                    Ok(ol) => match ol {
                        Some(line) => res == Ok::<Option<Seq<char>>, KlayError>(Some(line@)),
                        None => res == Ok::<Option<Seq<char>>, KlayError>(None),
                    },
                    Err(e) => res == Err::<Option<Seq<char>>, KlayError>(e),
                }
            }),
            r matches Ok(Some(_)) ==> final(self).inner().pos > old(self).inner().pos,
            final(self).inner().pos >= old(self).inner().pos,
    {
        let ghost bytes = old(self).inner().bytes@;
        let ghost pos0 = old(self).inner().pos as int;
        let ghost little = *old(self) is Little;
        let mut acc: Vec<char> = Vec::new();
        let mut hit_nl: bool = false;
        let mut done: bool = false;
        proof {
            assert(acc@ =~= Seq::<char>::empty());
        }
        while !done
            invariant
                self.wf(),
                self.inner().bytes == old(self).inner().bytes,
                (*self is Little) == (*old(self) is Little),
                bytes == old(self).inner().bytes@,
                little == (*old(self) is Little),
                pos0 == old(self).inner().pos as int,
                self.inner().pos >= pos0,
                acc@.len() > 0 ==> self.inner().pos > pos0,
                hit_nl ==> self.inner().pos > pos0,
                !done ==> !hit_nl,
                !done ==> line_rec(bytes, pos0, little, Seq::<char>::empty()) == line_rec(
                    bytes,
                    self.inner().pos as int,
                    little,
                    acc@,
                ),
                done ==> line_rec(bytes, pos0, little, Seq::<char>::empty()) == (
                    Ok::<(Seq<char>, bool), KlayError>((acc@, hit_nl)),
                    self.inner().pos as int,
                ),
            decreases bytes.len() - self.inner().pos, (if done { 0int } else { 1int }),
        {
            let ghost pre = self.inner().pos as int;
            let ghost acc_pre = acc@;
            match self.next_char() {
                Err(e) => {
                    return Err(e);
                },
                Ok(sc) => match sc {
                    None => {
                        done = true;
                        proof {
                            assert(line_rec(bytes, pre, little, acc_pre) == (
                                Ok::<(Seq<char>, bool), KlayError>((acc@, false)),
                                self.inner().pos as int,
                            ));
                        }
                    },
                    Some(c) => {
                        if c == '\n' {
                            hit_nl = true;
                            done = true;
                            proof {
                                assert(line_rec(bytes, pre, little, acc_pre) == (
                                    Ok::<(Seq<char>, bool), KlayError>((acc@, true)),
                                    self.inner().pos as int,
                                ));
                            }
                        } else {
                            acc.push(c);
                            proof {
                                assert(line_rec(bytes, pre, little, acc_pre) == line_rec(
                                    bytes,
                                    self.inner().pos as int,
                                    little,
                                    acc@,
                                ));
                            }
                        }
                    },
                },
            }
        }
        if hit_nl {
            if acc.len() > 0 {
                let lastc: char = acc[acc.len() - 1];
                if lastc == '\r' {
                    acc.pop();
                }
            }
        }
        let line = crate::text::chars_to_string(&acc);
        if !hit_nl && acc.len() == 0 {
            return Ok(None);
        }
        Ok(Some(line))
    }

    /// Splits the rest of the stream into lines.
    pub fn utf16_lines(&mut self) -> (r: Result<Vec<String>, KlayError>)
        requires
            old(self).wf(),
        ensures
            ({
                let res = lines_spec(
                    old(self).inner().bytes@,
                    old(self).inner().pos as int,
                    *old(self) is Little,
                );
                match r {
                    Ok(lines) => res == Ok::<Seq<Seq<char>>, KlayError>(lines.deep_view()),
                    Err(e) => res == Err::<Seq<Seq<char>>, KlayError>(e),
                }
            }),
    {
        let ghost bytes = old(self).inner().bytes@;
        let ghost pos0 = old(self).inner().pos as int;
        let ghost little = *old(self) is Little;
        let mut acc: Vec<String> = Vec::new();
        proof {
            assert(acc.deep_view() =~= Seq::<Seq<char>>::empty());
        }
        loop
            invariant
                self.wf(),
                self.inner().bytes == old(self).inner().bytes,
                (*self is Little) == (*old(self) is Little),
                bytes == old(self).inner().bytes@,
                little == (*old(self) is Little),
                pos0 == old(self).inner().pos as int,
                lines_rec(bytes, pos0, little, Seq::<Seq<char>>::empty()) == lines_rec(
                    bytes,
                    self.inner().pos as int,
                    little,
                    acc.deep_view(),
                ),
            decreases bytes.len() - self.inner().pos,
        {
            let ghost prev_acc = acc.deep_view();
            match self.next_line() {
                Err(e) => {
                    return Err(e);
                },
                Ok(ol) => match ol {
                    None => {
                        return Ok(acc);
                    },
                    Some(line) => {
                        acc.push(line);
                        proof {
                            assert(acc.deep_view() =~= prev_acc.push(acc@.last()@));
                        }
                    },
                },
            }
        }
    }
}

/// The two bytes of one 16-bit unit, little-endian.
pub open spec fn le_unit_bytes(u: u16) -> Seq<u8> {
    seq![(u as nat % 256) as u8, (u as nat / 256) as u8]
}

/// The UTF-16 units of one character: itself where it fits in one unit,
/// else a surrogate pair.
pub open spec fn utf16_units(c: char) -> Seq<u16> {
    if (c as u32) < 0x10000 {
        seq![(c as u32) as u16]
    } else {
        seq![
            (0xD800 + ((c as u32 - 0x10000) as u32 / 0x400)) as u16,
            (0xDC00 + ((c as u32 - 0x10000) as u32 % 0x400)) as u16,
        ]
    }
}

/// The little-endian bytes of one character.
pub open spec fn char_le_bytes(c: char) -> Seq<u8> {
    if (c as u32) < 0x10000 {
        le_unit_bytes(utf16_units(c)[0])
    } else {
        le_unit_bytes(utf16_units(c)[0]) + le_unit_bytes(utf16_units(c)[1])
    }
}

/// The little-endian UTF-16 encoding of a text, without a byte-order
/// mark.
pub open spec fn encode_utf16_le(text: Seq<char>) -> Seq<u8>
    decreases text.len(),
{
    if text.len() == 0 {
        Seq::empty()
    } else {
        encode_utf16_le(text.drop_last()) + char_le_bytes(text.last())
    }
}

/// Appends the little-endian UTF-16 encoding of a text.
pub fn push_utf16_le(out: &mut Vec<u8>, text: &Vec<char>)
    ensures
        final(out)@ == old(out)@ + encode_utf16_le(text@),
{
    let mut i: usize = 0;
    proof {
        assert(encode_utf16_le(text@.take(0)) =~= Seq::<u8>::empty());
        assert(out@ =~= old(out)@ + encode_utf16_le(text@.take(0)));
    }
    while i < text.len()
        invariant
            i <= text@.len(),
            out@ == old(out)@ + encode_utf16_le(text@.take(i as int)),
        decreases text@.len() - i,
    {
        let c: char = text[i];
        let ghost out_pre = out@;
        let v: u32 = c as u32;
        if v < 0x10000 {
            out.push((v % 256) as u8);
            out.push(((v / 256) % 256) as u8);
            proof {
                assert(out@ =~= out_pre + char_le_bytes(c));
            }
        } else {
            let hi: u32 = 0xD800 + (v - 0x10000) / 0x400;
            let lo: u32 = 0xDC00 + (v - 0x10000) % 0x400;
            proof {
                vstd::utf8::char_is_scalar(c);
                assert((v - 0x10000) / 0x400 < 0x400) by (nonlinear_arith)
                    requires
                        v <= 0x10FFFF,
                        v >= 0x10000,
                ;
            }
            out.push((hi % 256) as u8);
            out.push((hi / 256) as u8);
            out.push((lo % 256) as u8);
            out.push((lo / 256) as u8);
            proof {
                assert(out@ =~= out_pre + char_le_bytes(c));
            }
        }
        i = i + 1;
        proof {
            assert(text@.take(i as int).drop_last() =~= text@.take(i - 1));
            assert(text@.take(i as int).last() == text@[i - 1]);
            assert(out@ =~= old(out)@ + encode_utf16_le(text@.take(i as int)));
        }
    }
    proof {
        assert(text@.take(text@.len() as int) =~= text@);
    }
}


} // verus!
