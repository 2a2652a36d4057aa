//! Character and text utilities shared by the codecs: conversions between
//! `String` and `Vec<char>`, string equality, hexadecimal and decimal
//! number grammars with their exact values, and zero-padded hexadecimal
//! formatting with a proved round trip.

use vstd::prelude::*;

verus! {

/// Relies on `char::from_u32`: returns `Some` exactly when the value is a
/// Unicode scalar (not a surrogate, at most 0x10FFFF), and the returned
/// character casts back to the value.
#[verifier::external_body]
pub fn char_from_u32(u: u32) -> (r: Option<char>)
    ensures
        r is Some <==> (u < 0xD800 || (0xE000 <= u && u <= 0x10FFFF)),
        r matches Some(c) ==> c as u32 == u,
{
    char::from_u32(u)
}

/// Relies on `String::from_iter` over characters: the collected string
/// holds exactly the characters of the vector, in order.
#[verifier::external_body]
pub fn chars_to_string(v: &Vec<char>) -> (r: String)
    ensures
        r@ == v@,
{
    String::from_iter(v.iter().copied())
}

/// The characters of a string as a vector, in order.
pub fn string_to_chars(s: &str) -> (r: Vec<char>)
    ensures
        r@ == s@,
{
    let n: usize = s.unicode_len();
    let mut r: Vec<char> = Vec::new();
    let mut i: usize = 0;
    while i < n
        invariant
            n == s@.len(),
            i <= n,
            r@ == s@.subrange(0, i as int),
        decreases n - i,
    {
        r.push(s.get_char(i));
        i = i + 1;
        proof {
            assert(r@ =~= s@.subrange(0, i as int));
        }
    }
    proof {
        assert(r@ =~= s@);
    }
    r
}

/// Whether two strings hold the same characters.
pub fn str_eq(a: &str, b: &str) -> (r: bool)
    ensures
        r == (a@ == b@),
{
    let an: usize = a.unicode_len();
    let bn: usize = b.unicode_len();
    if an != bn {
        proof {
            assert(a@ != b@) by {
                assert(a@.len() != b@.len());
            }
        }
        return false;
    }
    let mut i: usize = 0;
    while i < an
        invariant
            an == a@.len(),
            an == b@.len(),
            i <= an,
            forall|j: int| 0 <= j < i ==> a@[j] == b@[j],
        decreases an - i,
    {
        if a.get_char(i) != b.get_char(i) {
            return false;
        }
        i = i + 1;
    }
    proof {
        assert(a@ =~= b@);
    }
    true
}

/// Appends the characters of a string to a character vector.
pub fn push_str(out: &mut Vec<char>, s: &str)
    ensures
        final(out)@ == old(out)@ + s@,
{
    let n: usize = s.unicode_len();
    let mut i: usize = 0;
    while i < n
        invariant
            n == s@.len(),
            i <= n,
            out@ == old(out)@ + s@.subrange(0, i as int),
        decreases n - i,
    {
        out.push(s.get_char(i));
        i = i + 1;
        proof {
            assert(out@ =~= old(out)@ + s@.subrange(0, i as int));
        }
    }
    proof {
        assert(out@ =~= old(out)@ + s@);
    }
}

/// The hexadecimal digits, both cases.
pub open spec fn is_hex_digit(c: char) -> bool {
    ('0' <= c && c <= '9') || ('a' <= c && c <= 'f') || ('A' <= c && c <= 'F')
}

/// The value of one hexadecimal digit.
pub open spec fn hex_digit_val(c: char) -> nat
    recommends
        is_hex_digit(c),
{
    if '0' <= c && c <= '9' {
        (c as nat - '0' as nat) as nat
    } else if 'a' <= c && c <= 'f' {
        (c as nat - 'a' as nat + 10) as nat
    } else {
        (c as nat - 'A' as nat + 10) as nat
    }
}

/// Whether every character of the sequence is a hexadecimal digit.
pub open spec fn all_hex(s: Seq<char>) -> bool {
    forall|i: int| 0 <= i < s.len() ==> is_hex_digit(#[trigger] s[i])
}

/// The value of a sequence of hexadecimal digits.
pub open spec fn hex_value(s: Seq<char>) -> nat
    decreases s.len(),
{
    if s.len() == 0 {
        0
    } else {
        hex_value(s.drop_last()) * 16 + hex_digit_val(s.last())
    }
}

/// What a hexadecimal number token means: its value, if the token is
/// non-empty, all digits, and the value fits in 32 bits.
pub open spec fn parse_hex_spec(s: Seq<char>) -> Option<u32> {
    if s.len() > 0 && all_hex(s) && hex_value(s) <= u32::MAX {
        Some(hex_value(s) as u32)
    } else {
        None
    }
}

/// The value of a prefix of a digit sequence never exceeds the value of
/// the whole.
proof fn lemma_hex_value_prefix(s: Seq<char>, j: int)
    requires
        0 <= j <= s.len(),
    ensures
        hex_value(s.take(j)) <= hex_value(s),
    decreases s.len(),
{
    if j < s.len() {
        assert(s.drop_last().take(j) =~= s.take(j));
        lemma_hex_value_prefix(s.drop_last(), j);
        assert(hex_value(s.drop_last()) * 16 >= hex_value(s.drop_last())) by (nonlinear_arith);
    } else {
        assert(s.take(j) =~= s);
    }
}

/// The value of one hexadecimal digit character.
pub fn hex_val(c: char) -> (r: Option<u8>)
    ensures
        r is Some <==> is_hex_digit(c),
        r matches Some(v) ==> v as nat == hex_digit_val(c),
{
    if '0' <= c && c <= '9' {
        Some((c as u8) - ('0' as u8))
    } else if 'a' <= c && c <= 'f' {
        Some((c as u8) - ('a' as u8) + 10)
    } else if 'A' <= c && c <= 'F' {
        Some((c as u8) - ('A' as u8) + 10)
    } else {
        None
    }
}

/// Reads a hexadecimal number token: non-empty, hexadecimal digits only,
/// value at most `u32::MAX`.
pub fn parse_hex(s: &str) -> (r: Option<u32>)
    ensures
        r == parse_hex_spec(s@),
{
    let n: usize = s.unicode_len();
    if n == 0 {
        return None;
    }
    let mut acc: u32 = 0;
    let mut i: usize = 0;
    while i < n
        invariant
            n == s@.len(),
            0 < n,
            i <= n,
            all_hex(s@.take(i as int)),
            acc as nat == hex_value(s@.take(i as int)),
        decreases n - i,
    {
        let c = s.get_char(i);
        let d = match hex_val(c) {
            Some(d) => d,
            None => {
                return None;
            },
        };
        proof {
            assert(s@.take(i + 1).drop_last() =~= s@.take(i as int));
            assert(s@.take(i + 1).last() == c);
        }
        if acc > (u32::MAX - (d as u32)) / 16 {
            proof {
                assert(hex_value(s@.take(i + 1)) > u32::MAX) by (nonlinear_arith)
                    requires
                        hex_value(s@.take(i + 1)) == acc as nat * 16 + d as nat,
                        acc > (u32::MAX - (d as u32)) / 16,
                        d < 16,
                ;
                lemma_hex_value_prefix(s@, i + 1);
            }
            return None;
        }
        proof {
            assert(acc as nat * 16 + d as nat <= u32::MAX) by (nonlinear_arith)
                requires
                    acc <= (u32::MAX - (d as u32)) / 16,
                    d < 16,
            ;
        }
        acc = acc * 16 + (d as u32);
        i = i + 1;
    }
    proof {
        assert(s@.take(n as int) =~= s@);
    }
    Some(acc)
}

/// The decimal digits.
pub open spec fn is_dec_digit(c: char) -> bool {
    '0' <= c && c <= '9'
}

/// Whether every character of the sequence is a decimal digit.
pub open spec fn all_dec(s: Seq<char>) -> bool {
    forall|i: int| 0 <= i < s.len() ==> is_dec_digit(#[trigger] s[i])
}

/// The value of a sequence of decimal digits.
pub open spec fn dec_value(s: Seq<char>) -> nat
    decreases s.len(),
{
    if s.len() == 0 {
        0
    } else {
        dec_value(s.drop_last()) * 10 + (s.last() as nat - '0' as nat) as nat
    }
}

/// What a decimal byte token means: its value, if the token is non-empty,
/// all decimal digits, and the value fits in a byte.
pub open spec fn parse_dec_u8_spec(s: Seq<char>) -> Option<u8> {
    if s.len() > 0 && all_dec(s) && dec_value(s) <= u8::MAX {
        Some(dec_value(s) as u8)
    } else {
        None
    }
}

/// The value of a prefix of a decimal digit sequence never exceeds the
/// value of the whole.
proof fn lemma_dec_value_prefix(s: Seq<char>, j: int)
    requires
        0 <= j <= s.len(),
    ensures
        dec_value(s.take(j)) <= dec_value(s),
    decreases s.len(),
{
    if j < s.len() {
        assert(s.drop_last().take(j) =~= s.take(j));
        lemma_dec_value_prefix(s.drop_last(), j);
        assert(dec_value(s.drop_last()) * 10 >= dec_value(s.drop_last())) by (nonlinear_arith);
    } else {
        assert(s.take(j) =~= s);
    }
}

/// Reads a decimal byte token: non-empty, decimal digits only, value at
/// most 255.
pub fn parse_dec_u8(s: &str) -> (r: Option<u8>)
    ensures
        r == parse_dec_u8_spec(s@),
{
    let n: usize = s.unicode_len();
    if n == 0 {
        return None;
    }
    let mut acc: u16 = 0;
    let mut i: usize = 0;
    while i < n
        invariant
            n == s@.len(),
            0 < n,
            i <= n,
            all_dec(s@.take(i as int)),
            acc as nat == dec_value(s@.take(i as int)),
            acc <= u8::MAX,
        decreases n - i,
    {
        let c = s.get_char(i);
        if !('0' <= c && c <= '9') {
            return None;
        }
        let d: u16 = (c as u16) - ('0' as u16);
        proof {
            assert(s@.take(i + 1).drop_last() =~= s@.take(i as int));
            assert(s@.take(i + 1).last() == c);
        }
        if acc * 10 + d > 255 {
            proof {
                lemma_dec_value_prefix(s@, i + 1);
            }
            return None;
        }
        acc = acc * 10 + d;
        i = i + 1;
    }
    proof {
        assert(s@.take(n as int) =~= s@);
    }
    Some(acc as u8)
}

/// The lowercase character of one hexadecimal digit value.
pub open spec fn hex_digit_char(v: nat) -> char
    recommends
        v < 16,
{
    if v == 0 {
        '0'
    } else if v == 1 {
        '1'
    } else if v == 2 {
        '2'
    } else if v == 3 {
        '3'
    } else if v == 4 {
        '4'
    } else if v == 5 {
        '5'
    } else if v == 6 {
        '6'
    } else if v == 7 {
        '7'
    } else if v == 8 {
        '8'
    } else if v == 9 {
        '9'
    } else if v == 10 {
        'a'
    } else if v == 11 {
        'b'
    } else if v == 12 {
        'c'
    } else if v == 13 {
        'd'
    } else if v == 14 {
        'e'
    } else {
        'f'
    }
}

/// The lowercase hexadecimal digits of a value, most significant first,
/// no leading zeros except for zero itself.
pub open spec fn to_hex(v: nat) -> Seq<char>
    decreases v,
{
    if v < 16 {
        seq![hex_digit_char(v)]
    } else {
        to_hex(v / 16) + seq![hex_digit_char(v % 16)]
    }
}

/// A run of zero characters.
pub open spec fn zero_chars(n: nat) -> Seq<char> {
    Seq::new(n, |i: int| '0')
}

/// A value in lowercase hexadecimal, zero-padded on the left to at least
/// the given width.
pub open spec fn hex_pad(v: nat, w: nat) -> Seq<char> {
    if to_hex(v).len() >= w {
        to_hex(v)
    } else {
        zero_chars((w - to_hex(v).len()) as nat) + to_hex(v)
    }
}

/// The exec character of one hexadecimal digit value.
pub fn hex_char(v: u32) -> (c: char)
    requires
        v < 16,
    ensures
        c == hex_digit_char(v as nat),
{
    if v == 0 {
        '0'
    } else if v == 1 {
        '1'
    } else if v == 2 {
        '2'
    } else if v == 3 {
        '3'
    } else if v == 4 {
        '4'
    } else if v == 5 {
        '5'
    } else if v == 6 {
        '6'
    } else if v == 7 {
        '7'
    } else if v == 8 {
        '8'
    } else if v == 9 {
        '9'
    } else if v == 10 {
        'a'
    } else if v == 11 {
        'b'
    } else if v == 12 {
        'c'
    } else if v == 13 {
        'd'
    } else if v == 14 {
        'e'
    } else {
        'f'
    }
}

fn push_hex_raw(out: &mut Vec<char>, v: u32)
    ensures
        final(out)@ == old(out)@ + to_hex(v as nat),
    decreases v,
{
    if v < 16 {
        out.push(hex_char(v));
        proof {
            assert(out@ =~= old(out)@ + to_hex(v as nat));
        }
    } else {
        proof {
            assert(v / 16 < v) by (nonlinear_arith)
                requires
                    v >= 16,
            ;
        }
        push_hex_raw(out, v / 16);
        out.push(hex_char(v % 16));
        proof {
            assert(out@ =~= old(out)@ + to_hex(v as nat));
        }
    }
}

/// Appends a value in lowercase hexadecimal, zero-padded on the left to
/// at least the given width.
pub fn push_hex(out: &mut Vec<char>, v: u32, width: usize)
    ensures
        final(out)@ == old(out)@ + hex_pad(v as nat, width as nat),
{
    let mut digits: Vec<char> = Vec::new();
    push_hex_raw(&mut digits, v);
    let mut pad: usize = 0;
    let ndig: usize = digits.len();
    if ndig < width {
        pad = width - ndig;
    }
    let mut i: usize = 0;
    proof {
        assert(out@ =~= old(out)@ + zero_chars(0));
    }
    while i < pad
        invariant
            i <= pad,
            out@ == old(out)@ + zero_chars(i as nat),
        decreases pad - i,
    {
        out.push('0');
        i = i + 1;
        proof {
            assert(out@ =~= old(out)@ + zero_chars(i as nat));
        }
    }
    let mut j: usize = 0;
    proof {
        assert(out@ =~= old(out)@ + zero_chars(pad as nat) + digits@.take(0));
    }
    while j < digits.len()
        invariant
            digits@ == to_hex(v as nat),
            out@ == old(out)@ + zero_chars(pad as nat) + digits@.take(j as int),
            j <= digits.len(),
        decreases digits.len() - j,
    {
        out.push(digits[j]);
        j = j + 1;
        proof {
            assert(out@ =~= old(out)@ + zero_chars(pad as nat) + digits@.take(j as int));
        }
    }
    proof {
        assert(digits@.take(digits@.len() as int) =~= digits@);
        if pad == 0 {
            assert(out@ =~= old(out)@ + hex_pad(v as nat, width as nat));
        } else {
            assert(out@ =~= old(out)@ + hex_pad(v as nat, width as nat));
        }
    }
}

/// Every digit the hexadecimal formatter emits is a hexadecimal digit.
proof fn lemma_to_hex_all_hex(v: nat)
    ensures
        all_hex(to_hex(v)),
        to_hex(v).len() >= 1,
    decreases v,
{
    if v < 16 {
        assert(is_hex_digit(hex_digit_char(v)));
    } else {
        lemma_to_hex_all_hex(v / 16);
        assert(is_hex_digit(hex_digit_char(v % 16)));
        assert(forall|i: int|
            0 <= i < to_hex(v).len() ==> is_hex_digit(#[trigger] to_hex(v)[i])) by {
            assert(forall|i: int|
                0 <= i < to_hex(v / 16).len() ==> to_hex(v)[i] == to_hex(v / 16)[i]);
        }
    }
}

/// Reading back the digits the hexadecimal formatter emits gives the
/// value it was given.
proof fn lemma_hex_value_to_hex(v: nat)
    ensures
        hex_value(to_hex(v)) == v,
    decreases v,
{
    if v < 16 {
        assert(hex_value(to_hex(v)) == hex_value(seq![hex_digit_char(v)]));
        assert(seq![hex_digit_char(v)].drop_last() =~= Seq::<char>::empty());
        assert(hex_value(Seq::<char>::empty()) == 0);
        assert(seq![hex_digit_char(v)].last() == hex_digit_char(v));
        assert(hex_digit_val(hex_digit_char(v)) == v);
    } else {
        lemma_hex_value_to_hex(v / 16);
        let s = to_hex(v);
        assert(s.drop_last() =~= to_hex(v / 16));
        assert(s.last() == hex_digit_char(v % 16));
        assert(hex_digit_val(hex_digit_char(v % 16)) == v % 16);
        assert((v / 16) * 16 + v % 16 == v) by (nonlinear_arith);
    }
}

/// Leading zero characters do not change the value of a digit sequence.
proof fn lemma_hex_value_zero_prefix(n: nat, s: Seq<char>)
    ensures
        hex_value(zero_chars(n) + s) == hex_value(s),
        all_hex(s) ==> all_hex(zero_chars(n) + s),
    decreases s.len(),
{
    if s.len() == 0 {
        assert(zero_chars(n) + s =~= zero_chars(n));
        lemma_hex_value_zeros(n);
    } else {
        lemma_hex_value_zero_prefix(n, s.drop_last());
        assert((zero_chars(n) + s).drop_last() =~= zero_chars(n) + s.drop_last());
        assert((zero_chars(n) + s).last() == s.last());
    }
}

/// A run of zero characters has value zero.
proof fn lemma_hex_value_zeros(n: nat)
    ensures
        hex_value(zero_chars(n)) == 0,
        all_hex(zero_chars(n)),
    decreases n,
{
    if n > 0 {
        lemma_hex_value_zeros((n - 1) as nat);
        assert(zero_chars(n).drop_last() =~= zero_chars((n - 1) as nat));
        assert(zero_chars(n).last() == '0');
    }
}

/// Round trip of the number grammar: a value formatted in padded
/// hexadecimal reads back as itself.
pub proof fn lemma_hex_round_trip(v: u32, w: nat)
    ensures
        parse_hex_spec(hex_pad(v as nat, w)) == Some(v),
{
    lemma_to_hex_all_hex(v as nat);
    lemma_hex_value_to_hex(v as nat);
    if to_hex(v as nat).len() < w {
        lemma_hex_value_zero_prefix((w - to_hex(v as nat).len()) as nat, to_hex(v as nat));
    }
}

/// The padded hexadecimal form is at least as wide as asked, and holds
/// hexadecimal digits only.
pub proof fn lemma_hex_pad_len(v: nat, w: nat)
    ensures
        hex_pad(v, w).len() >= w,
        hex_pad(v, w).len() >= 1,
        all_hex(hex_pad(v, w)),
{
    lemma_to_hex_all_hex(v);
    if to_hex(v).len() < w {
        lemma_hex_value_zero_prefix((w - to_hex(v).len()) as nat, to_hex(v));
    }
}


/// A run of space characters.
pub open spec fn space_chars(n: nat) -> Seq<char> {
    Seq::new(n, |i: int| ' ')
}

/// A text padded on the left with spaces to at least the given width.
pub open spec fn pad_left_spec(s: Seq<char>, w: nat) -> Seq<char> {
    if s.len() >= w {
        s
    } else {
        space_chars((w - s.len()) as nat) + s
    }
}

/// Appends a text padded on the left with spaces to at least the given
/// width.
pub fn push_padded(out: &mut Vec<char>, s: &Vec<char>, width: usize)
    ensures
        final(out)@ == old(out)@ + pad_left_spec(s@, width as nat),
{
    let mut pad: usize = 0;
    if s.len() < width {
        pad = width - s.len();
    }
    let mut i: usize = 0;
    proof {
        assert(out@ =~= old(out)@ + space_chars(0));
    }
    while i < pad
        invariant
            i <= pad,
            out@ == old(out)@ + space_chars(i as nat),
        decreases pad - i,
    {
        out.push(' ');
        i = i + 1;
        proof {
            assert(out@ =~= old(out)@ + space_chars(i as nat));
        }
    }
    let mut j: usize = 0;
    while j < s.len()
        invariant
            j <= s@.len(),
            out@ == old(out)@ + space_chars(pad as nat) + s@.take(j as int),
        decreases s@.len() - j,
    {
        out.push(s[j]);
        j = j + 1;
        proof {
            assert(out@ =~= old(out)@ + space_chars(pad as nat) + s@.take(j as int));
        }
    }
    proof {
        assert(s@.take(s@.len() as int) =~= s@);
        assert(out@ =~= old(out)@ + pad_left_spec(s@, width as nat));
    }
}

/// The blank characters the line grammar trims: a space or a tab.
pub open spec fn is_blank(c: char) -> bool {
    c == ' ' || c == '\t'
}

/// The text with leading blanks dropped.
pub open spec fn trim_front_spec(s: Seq<char>) -> Seq<char>
    decreases s.len(),
{
    if s.len() > 0 && is_blank(s.first()) {
        trim_front_spec(s.drop_first())
    } else {
        s
    }
}

/// The text with trailing blanks dropped.
pub open spec fn trim_back_spec(s: Seq<char>) -> Seq<char>
    decreases s.len(),
{
    if s.len() > 0 && is_blank(s.last()) {
        trim_back_spec(s.drop_last())
    } else {
        s
    }
}

/// The text with leading and trailing blanks dropped.
pub open spec fn trim_spec(s: Seq<char>) -> Seq<char> {
    trim_back_spec(trim_front_spec(s))
}

/// Drops leading and trailing blanks.
pub fn trim_chars(s: &Vec<char>) -> (r: Vec<char>)
    ensures
        r@ == trim_spec(s@),
{
    let n: usize = s.len();
    let mut a: usize = 0;
    proof {
        assert(s@.skip(0) =~= s@);
    }
    while a < n && (s[a] == ' ' || s[a] == '\t')
        invariant
            a <= n,
            n == s@.len(),
            trim_front_spec(s@) == trim_front_spec(s@.skip(a as int)),
        decreases n - a,
    {
        proof {
            assert(s@.skip(a as int).first() == s@[a as int]);
            assert(s@.skip(a as int).drop_first() =~= s@.skip(a + 1));
        }
        a = a + 1;
    }
    proof {
        if a < n {
            assert(s@.skip(a as int).first() == s@[a as int]);
        }
        assert(trim_front_spec(s@) == s@.skip(a as int));
    }
    let mut b: usize = n;
    proof {
        assert(s@.skip(a as int).take(n - a as int) =~= s@.skip(a as int));
    }
    while b > a && (s[b - 1] == ' ' || s[b - 1] == '\t')
        invariant
            a <= b <= n,
            n == s@.len(),
            trim_front_spec(s@) == s@.skip(a as int),
            trim_back_spec(s@.skip(a as int)) == trim_back_spec(
                s@.skip(a as int).take(b - a as int),
            ),
        decreases b,
    {
        proof {
            let t = s@.skip(a as int).take(b - a as int);
            assert(t.last() == s@[b - 1]);
            assert(t.drop_last() =~= s@.skip(a as int).take(b - 1 - a as int));
        }
        b = b - 1;
    }
    proof {
        let t = s@.skip(a as int).take(b - a as int);
        if b > a {
            assert(t.last() == s@[b - 1]);
        }
        assert(trim_back_spec(t) == t);
        assert(s@.skip(a as int).take(s@.skip(a as int).len() as int) =~= s@.skip(a as int));
    }
    let mut r: Vec<char> = Vec::new();
    let mut i: usize = a;
    while i < b
        invariant
            a <= i <= b <= n,
            n == s@.len(),
            r@ == s@.skip(a as int).take(i - a as int),
        decreases b - i,
    {
        r.push(s[i]);
        i = i + 1;
        proof {
            assert(r@ =~= s@.skip(a as int).take(i - a as int));
        }
    }
    r
}

/// The first position of a character at or after a starting point.
pub open spec fn find_from_spec(s: Seq<char>, c: char, from: int) -> Option<int>
    recommends
        0 <= from <= s.len(),
    decreases s.len() - from,
{
    if from < 0 || from >= s.len() {
        None
    } else if s[from] == c {
        Some(from)
    } else {
        find_from_spec(s, c, from + 1)
    }
}

/// Finds the first position of a character at or after a starting point.
pub fn find_from(s: &Vec<char>, c: char, from: usize) -> (r: Option<usize>)
    requires
        from <= s@.len(),
    ensures
        match r {
            Some(i) => from <= i < s@.len() && Some(i as int) == find_from_spec(
                s@,
                c,
                from as int,
            ),
            None => find_from_spec(s@, c, from as int) is None,
        },
{
    let mut i: usize = from;
    while i < s.len()
        invariant
            from <= i <= s@.len(),
            find_from_spec(s@, c, from as int) == find_from_spec(s@, c, i as int),
        decreases s@.len() - i,
    {
        if s[i] == c {
            return Some(i);
        }
        i = i + 1;
    }
    None
}

/// The last position of a character.
pub open spec fn rfind_spec(s: Seq<char>, c: char) -> Option<int>
    decreases s.len(),
{
    if s.len() == 0 {
        None
    } else if s.last() == c {
        Some(s.len() - 1)
    } else {
        rfind_spec(s.drop_last(), c)
    }
}

/// Finds the last position of a character.
pub fn rfind(s: &Vec<char>, c: char) -> (r: Option<usize>)
    ensures
        match r {
            Some(i) => i < s@.len() && Some(i as int) == rfind_spec(s@, c),
            None => rfind_spec(s@, c) is None,
        },
{
    let mut i: usize = s.len();
    proof {
        assert(s@.take(s@.len() as int) =~= s@);
    }
    while i > 0
        invariant
            i <= s@.len(),
            rfind_spec(s@, c) == rfind_spec(s@.take(i as int), c),
        decreases i,
    {
        i = i - 1;
        proof {
            assert(s@.take(i + 1).last() == s@[i as int]);
            assert(s@.take(i + 1).drop_last() =~= s@.take(i as int));
        }
        if s[i] == c {
            return Some(i);
        }
    }
    proof {
        assert(s@.take(0) =~= Seq::<char>::empty());
    }
    None
}

/// Whether one text begins with another.
pub open spec fn starts_with_spec(s: Seq<char>, p: Seq<char>) -> bool {
    s.len() >= p.len() && s.take(p.len() as int) == p
}

/// Whether a character vector begins with a pattern.
pub fn starts_with_chars(s: &Vec<char>, p: &str) -> (r: bool)
    ensures
        r == starts_with_spec(s@, p@),
{
    let m: usize = p.unicode_len();
    if s.len() < m {
        return false;
    }
    let mut i: usize = 0;
    while i < m
        invariant
            i <= m,
            m == p@.len(),
            m <= s@.len(),
            forall|j: int| 0 <= j < i ==> s@[j] == p@[j],
        decreases m - i,
    {
        if s[i] != p.get_char(i) {
            proof {
                assert(s@.take(m as int)[i as int] != p@[i as int]);
            }
            return false;
        }
        i = i + 1;
    }
    proof {
        assert(s@.take(m as int) =~= p@);
    }
    true
}

/// Whether one text holds another anywhere inside it.
pub open spec fn contains_spec(s: Seq<char>, p: Seq<char>) -> bool {
    exists|i: int| 0 <= i <= s.len() - p.len() && #[trigger] s.subrange(i, i + p.len()) == p
}

/// Whether a character vector holds a pattern anywhere inside it.
pub fn contains_chars(s: &Vec<char>, p: &str) -> (r: bool)
    ensures
        r == contains_spec(s@, p@),
{
    let m: usize = p.unicode_len();
    if s.len() < m {
        proof {
            assert(forall|i: int|
                0 <= i <= s@.len() - p@.len() ==> (#[trigger] s@.subrange(i, i + p@.len())).len()
                    == p@.len());
        }
        return false;
    }
    if m == 0 {
        proof {
            assert(s@.subrange(0int, 0int + p@.len() as int) =~= p@);
        }
        return true;
    }
    let n: usize = s.len();
    let mut i: usize = 0;
    while i <= n - m
        invariant
            n == s@.len(),
            m == p@.len(),
            m <= n,
            i <= n - m + 1,
            forall|k: int| 0 <= k < i ==> #[trigger] s@.subrange(k, k + p@.len()) != p@,
            1 <= m,
        decreases n - i,
    {
        let mut j: usize = 0;
        let mut ok: bool = true;
        while j < m
            invariant
                j <= m,
                m == p@.len(),
                n == s@.len(),
                i + m <= n,
                ok == (forall|t: int| 0 <= t < j ==> s@[i + t] == p@[t]),
            decreases m - j,
        {
            if s[i + j] != p.get_char(j) {
                ok = false;
                proof {
                    assert(s@[i + j] != p@[j as int]);
                }
                j = m;
            } else {
                j = j + 1;
            }
        }
        if ok {
            proof {
                assert(s@.subrange(i as int, i + p@.len()) =~= p@);
            }
            return true;
        }
        proof {
            if s@.subrange(i as int, i + p@.len()) == p@ {
                assert(forall|t: int|
                    0 <= t < p@.len() ==> s@.subrange(i as int, i + p@.len())[t] == p@[t]);
                assert(false);
            }
        }
        i = i + 1;
    }
    false
}


/// The fields of a text, split at every occurrence of a separator.
pub open spec fn split_sep_spec(s: Seq<char>, sep: char) -> Seq<Seq<char>>
    decreases s.len(),
{
    if s.len() == 0 {
        seq![Seq::<char>::empty()]
    } else if s.first() == sep {
        seq![Seq::<char>::empty()] + split_sep_spec(s.drop_first(), sep)
    } else {
        let rest = split_sep_spec(s.drop_first(), sep);
        seq![seq![s.first()] + rest.first()] + rest.drop_first()
    }
}

/// Splitting yields at least one field.
pub proof fn lemma_split_sep_nonempty(s: Seq<char>, sep: char)
    ensures
        split_sep_spec(s, sep).len() >= 1,
    decreases s.len(),
{
    if s.len() > 0 && s.first() != sep {
        lemma_split_sep_nonempty(s.drop_first(), sep);
    }
}

/// Splits a text at every occurrence of a separator.
pub fn split_sep(s: &Vec<char>, sep: char) -> (r: Vec<Vec<char>>)
    ensures
        r.deep_view() == split_sep_spec(s@, sep),
{
    let n: usize = s.len();
    let mut tokens: Vec<Vec<char>> = Vec::new();
    let mut cur: Vec<char> = Vec::new();
    let mut i: usize = 0;
    proof {
        lemma_split_sep_nonempty(s@, sep);
        assert(s@.skip(0) =~= s@);
        assert(tokens.deep_view() + (seq![cur@ + split_sep_spec(s@.skip(0), sep).first()]
            + split_sep_spec(s@.skip(0), sep).drop_first()) =~~= split_sep_spec(s@, sep));
    }
    while i < n
        invariant
            i <= n,
            n == s@.len(),
            split_sep_spec(s@.skip(i as int), sep).len() >= 1,
            tokens.deep_view() + (seq![cur@ + split_sep_spec(s@.skip(i as int), sep).first()]
                + split_sep_spec(s@.skip(i as int), sep).drop_first()) =~~= split_sep_spec(
                s@,
                sep,
            ),
        decreases n - i,
    {
        let c = s[i];
        let ghost tail = s@.skip(i as int);
        proof {
            assert(tail.first() == c);
            assert(tail.drop_first() =~= s@.skip(i + 1));
            lemma_split_sep_nonempty(s@.skip(i + 1), sep);
        }
        if c == sep {
            let ghost toks_pre = tokens.deep_view();
            tokens.push(cur);
            cur = Vec::new();
            proof {
                assert(tokens.deep_view() =~~= toks_pre.push(tokens@.last()@));
                assert(tokens.deep_view() + (seq![cur@ + split_sep_spec(s@.skip(i + 1), sep).first()]
                    + split_sep_spec(s@.skip(i + 1), sep).drop_first()) =~~= split_sep_spec(
                    s@,
                    sep,
                ));
            }
        } else {
            cur.push(c);
            proof {
                assert(tokens.deep_view() + (seq![cur@ + split_sep_spec(s@.skip(i + 1), sep).first()]
                    + split_sep_spec(s@.skip(i + 1), sep).drop_first()) =~~= split_sep_spec(
                    s@,
                    sep,
                ));
            }
        }
        i = i + 1;
    }
    proof {
        assert(s@.skip(n as int) =~= Seq::<char>::empty());
    }
    let ghost toks_pre = tokens.deep_view();
    tokens.push(cur);
    proof {
        assert(tokens.deep_view() =~~= toks_pre.push(tokens@.last()@));
        assert(tokens.deep_view() =~~= split_sep_spec(s@, sep));
    }
    tokens
}


/// The characters of a span of a vector.
pub fn sub_chars(s: &Vec<char>, a: usize, b: usize) -> (r: Vec<char>)
    requires
        a <= b <= s@.len(),
    ensures
        r@ == s@.subrange(a as int, b as int),
{
    let mut r: Vec<char> = Vec::new();
    let mut i: usize = a;
    while i < b
        invariant
            a <= i <= b <= s@.len(),
            r@ == s@.subrange(a as int, i as int),
        decreases b - i,
    {
        r.push(s[i]);
        i = i + 1;
        proof {
            assert(r@ =~= s@.subrange(a as int, i as int));
        }
    }
    r
}


/// The uppercase character of one hexadecimal digit value.
pub open spec fn hex_digit_char_upper(v: nat) -> char
    recommends
        v < 16,
{
    if v == 0 {
        '0'
    } else if v == 1 {
        '1'
    } else if v == 2 {
        '2'
    } else if v == 3 {
        '3'
    } else if v == 4 {
        '4'
    } else if v == 5 {
        '5'
    } else if v == 6 {
        '6'
    } else if v == 7 {
        '7'
    } else if v == 8 {
        '8'
    } else if v == 9 {
        '9'
    } else if v == 10 {
        'A'
    } else if v == 11 {
        'B'
    } else if v == 12 {
        'C'
    } else if v == 13 {
        'D'
    } else if v == 14 {
        'E'
    } else {
        'F'
    }
}

/// The uppercase hexadecimal digits of a value, most significant first.
pub open spec fn to_hex_upper(v: nat) -> Seq<char>
    decreases v,
{
    if v < 16 {
        seq![hex_digit_char_upper(v)]
    } else {
        to_hex_upper(v / 16) + seq![hex_digit_char_upper(v % 16)]
    }
}

/// A value in uppercase hexadecimal, zero-padded on the left to at
/// least the given width.
pub open spec fn hex_pad_upper(v: nat, w: nat) -> Seq<char> {
    if to_hex_upper(v).len() >= w {
        to_hex_upper(v)
    } else {
        zero_chars((w - to_hex_upper(v).len()) as nat) + to_hex_upper(v)
    }
}

/// The exec uppercase character of one hexadecimal digit value.
fn hex_char_upper(v: u32) -> (c: char)
    requires
        v < 16,
    ensures
        c == hex_digit_char_upper(v as nat),
{
    if v == 0 {
        '0'
    } else if v == 1 {
        '1'
    } else if v == 2 {
        '2'
    } else if v == 3 {
        '3'
    } else if v == 4 {
        '4'
    } else if v == 5 {
        '5'
    } else if v == 6 {
        '6'
    } else if v == 7 {
        '7'
    } else if v == 8 {
        '8'
    } else if v == 9 {
        '9'
    } else if v == 10 {
        'A'
    } else if v == 11 {
        'B'
    } else if v == 12 {
        'C'
    } else if v == 13 {
        'D'
    } else if v == 14 {
        'E'
    } else {
        'F'
    }
}

fn push_hex_upper_raw(out: &mut Vec<char>, v: u32)
    ensures
        final(out)@ == old(out)@ + to_hex_upper(v as nat),
    decreases v,
{
    if v < 16 {
        out.push(hex_char_upper(v));
        proof {
            assert(out@ =~= old(out)@ + to_hex_upper(v as nat));
        }
    } else {
        proof {
            assert(v / 16 < v) by (nonlinear_arith)
                requires
                    v >= 16,
            ;
        }
        push_hex_upper_raw(out, v / 16);
        out.push(hex_char_upper(v % 16));
        proof {
            assert(out@ =~= old(out)@ + to_hex_upper(v as nat));
        }
    }
}

/// Appends a value in uppercase hexadecimal, zero-padded on the left to
/// at least the given width.
pub fn push_hex_upper(out: &mut Vec<char>, v: u32, width: usize)
    ensures
        final(out)@ == old(out)@ + hex_pad_upper(v as nat, width as nat),
{
    let mut digits: Vec<char> = Vec::new();
    push_hex_upper_raw(&mut digits, v);
    let mut pad: usize = 0;
    let ndig: usize = digits.len();
    if ndig < width {
        pad = width - ndig;
    }
    let mut i: usize = 0;
    proof {
        assert(out@ =~= old(out)@ + zero_chars(0));
    }
    while i < pad
        invariant
            i <= pad,
            out@ == old(out)@ + zero_chars(i as nat),
        decreases pad - i,
    {
        out.push('0');
        i = i + 1;
        proof {
            assert(out@ =~= old(out)@ + zero_chars(i as nat));
        }
    }
    let mut j: usize = 0;
    proof {
        assert(out@ =~= old(out)@ + zero_chars(pad as nat) + digits@.take(0));
    }
    while j < digits.len()
        invariant
            digits@ == to_hex_upper(v as nat),
            out@ == old(out)@ + zero_chars(pad as nat) + digits@.take(j as int),
            j <= digits.len(),
        decreases digits.len() - j,
    {
        out.push(digits[j]);
        j = j + 1;
        proof {
            assert(out@ =~= old(out)@ + zero_chars(pad as nat) + digits@.take(j as int));
        }
    }
    proof {
        assert(digits@.take(digits@.len() as int) =~= digits@);
        assert(out@ =~= old(out)@ + hex_pad_upper(v as nat, width as nat));
    }
}


/// A text without the separator splits into itself alone.
pub proof fn lemma_split_sep_single(a: Seq<char>, sep: char)
    requires
        forall|i: int| 0 <= i < a.len() ==> a[i] != sep,
    ensures
        split_sep_spec(a, sep) == seq![a],
    decreases a.len(),
{
    if a.len() == 0 {
        assert(split_sep_spec(a, sep) =~~= seq![a]);
    } else {
        assert(a.first() == a[0]);
        assert(forall|i: int|
            0 <= i < a.drop_first().len() ==> (#[trigger] a.drop_first()[i]) == a[i + 1]);
        lemma_split_sep_single(a.drop_first(), sep);
        assert(split_sep_spec(a, sep) =~~= seq![a]);
    }
}

/// Splitting a separator-free field, the separator, and a remainder
/// yields the field followed by the split of the remainder.
pub proof fn lemma_split_sep_concat(a: Seq<char>, rest: Seq<char>, sep: char)
    requires
        forall|i: int| 0 <= i < a.len() ==> a[i] != sep,
    ensures
        split_sep_spec(a + seq![sep] + rest, sep) == seq![a] + split_sep_spec(rest, sep),
    decreases a.len(),
{
    let s = a + seq![sep] + rest;
    if a.len() == 0 {
        assert(s.first() == sep);
        assert(s.drop_first() =~= rest);
        assert(split_sep_spec(s, sep) =~~= seq![a] + split_sep_spec(rest, sep));
    } else {
        assert(s.first() == a[0]);
        assert(a[0] != sep);
        assert(s.drop_first() =~= a.drop_first() + seq![sep] + rest);
        assert(forall|i: int|
            0 <= i < a.drop_first().len() ==> (#[trigger] a.drop_first()[i]) == a[i + 1]);
        lemma_split_sep_concat(a.drop_first(), rest, sep);
        let r = split_sep_spec(s.drop_first(), sep);
        assert(r == seq![a.drop_first()] + split_sep_spec(rest, sep));
        assert(r.first() == a.drop_first());
        assert(seq![s.first()] + r.first() =~= a);
        assert(r.drop_first() =~= split_sep_spec(rest, sep));
        assert(split_sep_spec(s, sep) =~~= seq![a] + split_sep_spec(rest, sep));
    }
}

/// Leading blanks fall away under trimming.
pub proof fn lemma_trim_front_spaces(n: nat, t: Seq<char>)
    ensures
        trim_front_spec(space_chars(n) + t) == trim_front_spec(t),
    decreases n,
{
    if n == 0 {
        assert(space_chars(0) + t =~= t);
    } else {
        let s = space_chars(n) + t;
        assert(s.first() == ' ');
        assert(s.drop_first() =~= space_chars((n - 1) as nat) + t);
        lemma_trim_front_spaces((n - 1) as nat, t);
    }
}

/// A padded clean token trims back to the token itself.
pub proof fn lemma_trim_pad(t: Seq<char>, w: nat, extra: nat)
    requires
        t.len() > 0,
        !is_blank(t.first()),
        !is_blank(t.last()),
    ensures
        trim_spec(space_chars(extra) + pad_left_spec(t, w)) == t,
{
    let padded = space_chars(extra) + pad_left_spec(t, w);
    if t.len() >= w {
        assert(padded =~= space_chars(extra) + t);
        lemma_trim_front_spaces(extra, t);
        assert(trim_front_spec(t) == t);
        assert(trim_back_spec(t) == t);
    } else {
        let k = (w - t.len()) as nat;
        assert(padded =~= space_chars(extra + k) + t);
        lemma_trim_front_spaces(extra + k, t);
        assert(trim_front_spec(t) == t);
        assert(trim_back_spec(t) == t);
    }
}


/// Finding from a position is finding in the remainder, shifted.
pub proof fn lemma_find_from_skip(s: Seq<char>, c: char, from: int)
    requires
        0 <= from <= s.len(),
    ensures
        find_from_spec(s, c, from) == match find_from_spec(s.skip(from), c, 0) {
            Some(j) => Some(from + j),
            None => None,
        },
    decreases s.len() - from,
{
    if from < s.len() {
        assert(s.skip(from)[0] == s[from]);
        if s[from] != c {
            lemma_find_from_skip(s, c, from + 1);
            assert(s.skip(from).drop_first() =~= s.skip(from + 1));
            lemma_find_from_step(s.skip(from), c);
        }
    }
}

/// One step of the search: a miss at the front moves to the rest.
proof fn lemma_find_from_step(s: Seq<char>, c: char)
    requires
        s.len() > 0,
        s[0] != c,
    ensures
        find_from_spec(s, c, 0) == match find_from_spec(s.drop_first(), c, 0) {
            Some(j) => Some(1 + j),
            None => None,
        },
    decreases s.len(),
{
    lemma_find_shift(s, c, 1);
}

/// The search in a text from a position equals the search in the text
/// with its front dropped, shifted by one.
proof fn lemma_find_shift(s: Seq<char>, c: char, from: int)
    requires
        1 <= from <= s.len(),
    ensures
        find_from_spec(s, c, from) == match find_from_spec(s.drop_first(), c, from - 1) {
            Some(j) => Some(1 + j),
            None => None,
        },
    decreases s.len() - from,
{
    if from < s.len() {
        assert(s.drop_first()[from - 1] == s[from]);
        if s[from] != c {
            lemma_find_shift(s, c, from + 1);
        }
    }
}

/// Finding a character that a prefix lacks finds it in the remainder.
pub proof fn lemma_find_from_concat(a: Seq<char>, b: Seq<char>, c: char)
    requires
        forall|i: int| 0 <= i < a.len() ==> a[i] != c,
    ensures
        find_from_spec(a + b, c, 0) == match find_from_spec(b, c, 0) {
            Some(j) => Some(a.len() + j),
            None => None,
        },
    decreases a.len(),
{
    if a.len() == 0 {
        assert(a + b =~= b);
    } else {
        assert((a + b)[0] == a[0]);
        if b.len() == 0 && a.len() == 0 {
        } else {
            assert((a + b).len() > 0);
            lemma_find_from_step(a + b, c);
            assert((a + b).drop_first() =~= a.drop_first() + b);
            assert(forall|i: int|
                0 <= i < a.drop_first().len() ==> (#[trigger] a.drop_first()[i]) == a[i + 1]);
            lemma_find_from_concat(a.drop_first(), b, c);
        }
    }
}


} // verus!
