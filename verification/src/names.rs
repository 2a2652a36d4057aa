//! The symbol bi-map: a bidirectional table between symbolic key names
//! and Unicode code points, built once and never mutated afterwards.
//! Lookups that find nothing fall back to the synthesized `U<hex>` form
//! handled in the XKB codec.

use vstd::prelude::*;

verus! {

broadcast use vstd::string::group_string_axioms;

/// A bidirectional table between symbolic key names and code points.
///
/// The table is a sequence of (name, code point) pairs; later pairs
/// shadow earlier ones, in either direction, as repeated insertions into
/// a map would.
pub struct BiMap {
    pairs: Vec<(String, char)>,
}

impl View for BiMap {
    type V = Seq<(Seq<char>, char)>;

    closed spec fn view(&self) -> Seq<(Seq<char>, char)> {
        self.pairs.deep_view()
    }
}

/// The code point the youngest pair with this name binds, if any.
pub open spec fn find_char(pairs: Seq<(Seq<char>, char)>, name: Seq<char>) -> Option<char>
    decreases pairs.len(),
{
    if pairs.len() == 0 {
        None
    } else if pairs.last().0 == name {
        Some(pairs.last().1)
    } else {
        find_char(pairs.drop_last(), name)
    }
}

/// The name the youngest pair with this code point binds, if any.
pub open spec fn find_name(pairs: Seq<(Seq<char>, char)>, c: char) -> Option<Seq<char>>
    decreases pairs.len(),
{
    if pairs.len() == 0 {
        None
    } else if pairs.last().1 == c {
        Some(pairs.last().0)
    } else {
        find_name(pairs.drop_last(), c)
    }
}

/// A well-formed table binds each name and each code point at most once.
pub open spec fn bimap_wf(pairs: Seq<(Seq<char>, char)>) -> bool {
    forall|i: int, j: int|
        0 <= i < j < pairs.len() ==> (#[trigger] pairs[i]).0 != (#[trigger] pairs[j]).0
            && pairs[i].1 != pairs[j].1
}

/// In a well-formed table, looking a found name back up gives the code
/// point it was found for, and the other way around.
pub proof fn lemma_bimap_round_trip(pairs: Seq<(Seq<char>, char)>, c: char)
    requires
        bimap_wf(pairs),
        find_name(pairs, c) is Some,
    ensures
        find_char(pairs, find_name(pairs, c)->Some_0) == Some(c),
    decreases pairs.len(),
{
    if pairs.len() > 0 {
        if pairs.last().1 == c {
            assert(find_char(pairs, pairs.last().0) == Some(c));
        } else {
            let name = find_name(pairs.drop_last(), c)->Some_0;
            lemma_bimap_round_trip(pairs.drop_last(), c);
            lemma_find_char_in_table(pairs.drop_last(), name);
            assert(pairs.last().0 != name);
            lemma_bimap_wf_drop_last(pairs);
        }
    }
}

/// A found name is the name of some pair of the table.
proof fn lemma_find_char_in_table(pairs: Seq<(Seq<char>, char)>, name: Seq<char>)
    requires
        find_char(pairs, name) is Some,
    ensures
        exists|i: int|
            0 <= i < pairs.len() && (#[trigger] pairs[i]).0 == name && pairs[i].1 == find_char(
                pairs,
                name,
            )->Some_0,
    decreases pairs.len(),
{
    if pairs.len() > 0 && pairs.last().0 != name {
        lemma_find_char_in_table(pairs.drop_last(), name);
        let i = choose|i: int|
            0 <= i < pairs.drop_last().len() && (#[trigger] pairs.drop_last()[i]).0 == name
                && pairs.drop_last()[i].1 == find_char(pairs.drop_last(), name)->Some_0;
        assert(pairs[i].0 == name && pairs[i].1 == find_char(pairs, name)->Some_0);
    }
}

/// Well-formedness is kept when the youngest pair is dropped.
proof fn lemma_bimap_wf_drop_last(pairs: Seq<(Seq<char>, char)>)
    requires
        bimap_wf(pairs),
        pairs.len() > 0,
    ensures
        bimap_wf(pairs.drop_last()),
{
}

impl BiMap {
    /// An empty table.
    pub fn new() -> (r: BiMap)
        ensures
            r@ == Seq::<(Seq<char>, char)>::empty(),
    {
        let r = BiMap { pairs: Vec::new() };
        proof {
            assert(r@ =~= Seq::<(Seq<char>, char)>::empty());
        }
        r
    }

    /// Binds a name and a code point to each other. A binding shadows
    /// any older binding of the same name or code point.
    pub fn insert(&mut self, name: &str, c: char)
        ensures
            final(self)@ == old(self)@.push((name@, c)),
    {
        self.pairs.push((name.to_owned(), c));
        proof {
            assert(self@ =~= old(self)@.push((name@, c)));
        }
    }

    /// The code point bound to a symbolic name, if any.
    pub fn get_char(&self, name: &str) -> (r: Option<char>)
        ensures
            r == find_char(self@, name@),
    {
        let n: usize = self.pairs.len();
        let mut i: usize = n;
        proof {
            assert(self@.take(n as int) =~= self@);
        }
        while i > 0
            invariant
                i <= n,
                n == self.pairs.len(),
                n == self@.len(),
                find_char(self@, name@) == find_char(self@.take(i as int), name@),
            decreases i,
        {
            i = i - 1;
            proof {
                assert(self@.take(i + 1).drop_last() =~= self@.take(i as int));
                assert(self@.take(i + 1).last() == self@[i as int]);
            }
            if crate::text::str_eq(self.pairs[i].0.as_str(), name) {
                return Some(self.pairs[i].1);
            }
        }
        proof {
            assert(self@.take(0) =~= Seq::<(Seq<char>, char)>::empty());
        }
        None
    }

    /// The standard table: the printable seven-bit characters and the
    /// Latin-1 block under their X11 keysym names, one name per code
    /// point, and one synthetic entry binding the empty sentinel to the
    /// name `NoSymbol`, added last.
    pub fn standard() -> (r: BiMap)
        ensures
            r@.len() > 0,
            r@.last() == ("NoSymbol"@, '\0'),
    {
        let mut r = BiMap::new();
        r.insert("space", ' ');
        r.insert("exclam", '!');
        r.insert("quotedbl", '"');
        r.insert("numbersign", '#');
        r.insert("dollar", '$');
        r.insert("percent", '%');
        r.insert("ampersand", '&');
        r.insert("apostrophe", '\'');
        r.insert("parenleft", '(');
        r.insert("parenright", ')');
        r.insert("asterisk", '*');
        r.insert("plus", '+');
        r.insert("comma", ',');
        r.insert("minus", '-');
        r.insert("period", '.');
        r.insert("slash", '/');
        r.insert("zero", '0');
        r.insert("one", '1');
        r.insert("two", '2');
        r.insert("three", '3');
        r.insert("four", '4');
        r.insert("five", '5');
        r.insert("six", '6');
        r.insert("seven", '7');
        r.insert("eight", '8');
        r.insert("nine", '9');
        r.insert("colon", ':');
        r.insert("semicolon", ';');
        r.insert("less", '<');
        r.insert("equal", '=');
        r.insert("greater", '>');
        r.insert("question", '?');
        r.insert("at", '@');
        r.insert("bracketleft", '[');
        r.insert("backslash", '\\');
        r.insert("bracketright", ']');
        r.insert("asciicircum", '^');
        r.insert("underscore", '_');
        r.insert("grave", '`');
        r.insert("braceleft", '{');
        r.insert("bar", '|');
        r.insert("braceright", '}');
        r.insert("asciitilde", '~');
        r.insert("A", 'A');
        r.insert("B", 'B');
        r.insert("C", 'C');
        r.insert("D", 'D');
        r.insert("E", 'E');
        r.insert("F", 'F');
        r.insert("G", 'G');
        r.insert("H", 'H');
        r.insert("I", 'I');
        r.insert("J", 'J');
        r.insert("K", 'K');
        r.insert("L", 'L');
        r.insert("M", 'M');
        r.insert("N", 'N');
        r.insert("O", 'O');
        r.insert("P", 'P');
        r.insert("Q", 'Q');
        r.insert("R", 'R');
        r.insert("S", 'S');
        r.insert("T", 'T');
        r.insert("U", 'U');
        r.insert("V", 'V');
        r.insert("W", 'W');
        r.insert("X", 'X');
        r.insert("Y", 'Y');
        r.insert("Z", 'Z');
        r.insert("a", 'a');
        r.insert("b", 'b');
        r.insert("c", 'c');
        r.insert("d", 'd');
        r.insert("e", 'e');
        r.insert("f", 'f');
        r.insert("g", 'g');
        r.insert("h", 'h');
        r.insert("i", 'i');
        r.insert("j", 'j');
        r.insert("k", 'k');
        r.insert("l", 'l');
        r.insert("m", 'm');
        r.insert("n", 'n');
        r.insert("o", 'o');
        r.insert("p", 'p');
        r.insert("q", 'q');
        r.insert("r", 'r');
        r.insert("s", 's');
        r.insert("t", 't');
        r.insert("u", 'u');
        r.insert("v", 'v');
        r.insert("w", 'w');
        r.insert("x", 'x');
        r.insert("y", 'y');
        r.insert("z", 'z');
        r.insert("nobreakspace", '\u{a0}');
        r.insert("exclamdown", '\u{a1}');
        r.insert("cent", '\u{a2}');
        r.insert("sterling", '\u{a3}');
        r.insert("currency", '\u{a4}');
        r.insert("yen", '\u{a5}');
        r.insert("brokenbar", '\u{a6}');
        r.insert("section", '\u{a7}');
        r.insert("diaeresis", '\u{a8}');
        r.insert("copyright", '\u{a9}');
        r.insert("ordfeminine", '\u{aa}');
        r.insert("guillemotleft", '\u{ab}');
        r.insert("notsign", '\u{ac}');
        r.insert("hyphen", '\u{ad}');
        r.insert("registered", '\u{ae}');
        r.insert("macron", '\u{af}');
        r.insert("degree", '\u{b0}');
        r.insert("plusminus", '\u{b1}');
        r.insert("twosuperior", '\u{b2}');
        r.insert("threesuperior", '\u{b3}');
        r.insert("acute", '\u{b4}');
        r.insert("mu", '\u{b5}');
        r.insert("paragraph", '\u{b6}');
        r.insert("periodcentered", '\u{b7}');
        r.insert("cedilla", '\u{b8}');
        r.insert("onesuperior", '\u{b9}');
        r.insert("masculine", '\u{ba}');
        r.insert("guillemotright", '\u{bb}');
        r.insert("onequarter", '\u{bc}');
        r.insert("onehalf", '\u{bd}');
        r.insert("threequarters", '\u{be}');
        r.insert("questiondown", '\u{bf}');
        r.insert("Agrave", '\u{c0}');
        r.insert("Aacute", '\u{c1}');
        r.insert("Acircumflex", '\u{c2}');
        r.insert("Atilde", '\u{c3}');
        r.insert("Adiaeresis", '\u{c4}');
        r.insert("Aring", '\u{c5}');
        r.insert("AE", '\u{c6}');
        r.insert("Ccedilla", '\u{c7}');
        r.insert("Egrave", '\u{c8}');
        r.insert("Eacute", '\u{c9}');
        r.insert("Ecircumflex", '\u{ca}');
        r.insert("Ediaeresis", '\u{cb}');
        r.insert("Igrave", '\u{cc}');
        r.insert("Iacute", '\u{cd}');
        r.insert("Icircumflex", '\u{ce}');
        r.insert("Idiaeresis", '\u{cf}');
        r.insert("ETH", '\u{d0}');
        r.insert("Ntilde", '\u{d1}');
        r.insert("Ograve", '\u{d2}');
        r.insert("Oacute", '\u{d3}');
        r.insert("Ocircumflex", '\u{d4}');
        r.insert("Otilde", '\u{d5}');
        r.insert("Odiaeresis", '\u{d6}');
        r.insert("multiply", '\u{d7}');
        r.insert("Oslash", '\u{d8}');
        r.insert("Ugrave", '\u{d9}');
        r.insert("Uacute", '\u{da}');
        r.insert("Ucircumflex", '\u{db}');
        r.insert("Udiaeresis", '\u{dc}');
        r.insert("Yacute", '\u{dd}');
        r.insert("THORN", '\u{de}');
        r.insert("ssharp", '\u{df}');
        r.insert("agrave", '\u{e0}');
        r.insert("aacute", '\u{e1}');
        r.insert("acircumflex", '\u{e2}');
        r.insert("atilde", '\u{e3}');
        r.insert("adiaeresis", '\u{e4}');
        r.insert("aring", '\u{e5}');
        r.insert("ae", '\u{e6}');
        r.insert("ccedilla", '\u{e7}');
        r.insert("egrave", '\u{e8}');
        r.insert("eacute", '\u{e9}');
        r.insert("ecircumflex", '\u{ea}');
        r.insert("ediaeresis", '\u{eb}');
        r.insert("igrave", '\u{ec}');
        r.insert("iacute", '\u{ed}');
        r.insert("icircumflex", '\u{ee}');
        r.insert("idiaeresis", '\u{ef}');
        r.insert("eth", '\u{f0}');
        r.insert("ntilde", '\u{f1}');
        r.insert("ograve", '\u{f2}');
        r.insert("oacute", '\u{f3}');
        r.insert("ocircumflex", '\u{f4}');
        r.insert("otilde", '\u{f5}');
        r.insert("odiaeresis", '\u{f6}');
        r.insert("division", '\u{f7}');
        r.insert("oslash", '\u{f8}');
        r.insert("ugrave", '\u{f9}');
        r.insert("uacute", '\u{fa}');
        r.insert("ucircumflex", '\u{fb}');
        r.insert("udiaeresis", '\u{fc}');
        r.insert("yacute", '\u{fd}');
        r.insert("thorn", '\u{fe}');
        r.insert("ydiaeresis", '\u{ff}');
        r.insert("NoSymbol", '\0');
        r
    }


    /// Whether the table is well formed: no two pairs share a name or a
    /// code point. A table that passes satisfies the assumptions of the
    /// lookup round-trip laws.
    pub fn is_well_formed(&self) -> (r: bool)
        ensures
            r == bimap_wf(self@),
    {
        let n: usize = self.pairs.len();
        let mut i: usize = 0;
        proof {
            assert(forall|k: int|
                0 <= k < n ==> self@[k] == ((#[trigger] self.pairs@[k]).0@, self.pairs@[k].1));
        }
        while i < n
            invariant
                i <= n,
                n == self.pairs@.len(),
                n == self@.len(),
                forall|k: int|
                    0 <= k < n ==> self@[k] == ((#[trigger] self.pairs@[k]).0@, self.pairs@[k].1),
                forall|a: int, b: int|
                    0 <= a < b < n && a < i ==> (#[trigger] self@[a]).0 != (#[trigger] self@[b]).0
                        && self@[a].1 != self@[b].1,
            decreases n - i,
        {
            let mut j: usize = i + 1;
            while j < n
                invariant
                    i < n,
                    i + 1 <= j <= n,
                    n == self.pairs@.len(),
                    n == self@.len(),
                    forall|k: int|
                        0 <= k < n ==> self@[k] == ((#[trigger] self.pairs@[k]).0@, self.pairs@[k].1),
                    forall|b: int|
                        i < b < j ==> (#[trigger] self@[b]).0 != self@[i as int].0 && self@[b].1
                            != self@[i as int].1,
                decreases n - j,
            {
                let same_name = crate::text::str_eq(
                    self.pairs[i].0.as_str(),
                    self.pairs[j].0.as_str(),
                );
                if same_name || self.pairs[i].1 == self.pairs[j].1 {
                    proof {
                        assert(self@[i as int].0 == self@[j as int].0 || self@[i as int].1
                            == self@[j as int].1);
                        assert(!bimap_wf(self@));
                    }
                    return false;
                }
                j = j + 1;
            }
            i = i + 1;
        }
        proof {
            assert(bimap_wf(self@));
        }
        true
    }

    /// The symbolic name bound to a code point, if any.
    pub fn get_name(&self, c: char) -> (r: Option<String>)
        ensures
            match r {
                Some(name) => find_name(self@, c) == Some(name@),
                None => find_name(self@, c) is None,
            },
    {
        let n: usize = self.pairs.len();
        let mut i: usize = n;
        proof {
            assert(self@.take(n as int) =~= self@);
        }
        while i > 0
            invariant
                i <= n,
                n == self.pairs.len(),
                n == self@.len(),
                find_name(self@, c) == find_name(self@.take(i as int), c),
            decreases i,
        {
            i = i - 1;
            proof {
                assert(self@.take(i + 1).drop_last() =~= self@.take(i as int));
                assert(self@.take(i + 1).last() == self@[i as int]);
            }
            if self.pairs[i].1 == c {
                return Some(self.pairs[i].0.clone());
            }
        }
        proof {
            assert(self@.take(0) =~= Seq::<(Seq<char>, char)>::empty());
        }
        None
    }
}

} // verus!
