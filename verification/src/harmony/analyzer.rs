//! Roman-numeral chord parsing and progression analysis.
use vstd::prelude::*;
use vstd::string::StringExecFns;
use crate::interval::pitch_name_of;
use crate::rules::trunc_rem12;
use crate::text::str_eq;
use crate::harmony::tonal_graph::{pitch_name_fn, TonalGraph, with_progression};

verus! {

/// Scale degrees of the major scale, in semitones above the tonic.
pub const MAJOR_SCALE: [i32; 7] = [0, 2, 4, 5, 7, 9, 11];

/// Scale degrees of the natural minor scale, in semitones above the tonic.
pub const MINOR_SCALE: [i32; 7] = [0, 2, 3, 5, 7, 8, 10];

/// The quality of the triad on each degree of the major scale.
pub const MAJOR_QUALITIES: [&'static str; 7] = ["maj", "min", "min", "maj", "maj", "min", "dim"];

/// What `str::to_lowercase` returns for a string (Unicode lowercase mapping).
pub uninterp spec fn lowercase_of(s: Seq<char>) -> Seq<char>;

/// What `char::is_uppercase` returns for a character (the Unicode `Uppercase` property).
pub uninterp spec fn uppercase_char(c: char) -> bool;

/// Calls `str::to_lowercase`; the contract only names its result (the Unicode
/// lowercase mapping of the whole string), which is a function of the string alone.
#[verifier::external_body]
fn to_lowercase(s: &str) -> (r: String)
    ensures
        r@ == lowercase_of(s@),
{
    s.to_lowercase()
}

/// Calls `char::is_uppercase`; the contract only names its result (whether the
/// character has the Unicode `Uppercase` property), a function of the character alone.
#[verifier::external_body]
fn is_uppercase(c: char) -> (r: bool)
    ensures
        r == uppercase_char(c),
{
    c.is_uppercase()
}

/// A chord read from a Roman numeral in a key.
#[derive(Debug)]
pub struct Chord {
    pub root: i32,
    pub quality: String,
    pub function: String,
    pub key: (i32, String),
    pub is_diatonic: bool,
    pub is_secondary_dominant: bool,
    pub implied_key: (i32, String),
}

/// The contents of a chord, with its texts as character sequences.
pub struct ChordView {
    pub root: int,
    pub quality: Seq<char>,
    pub function: Seq<char>,
    pub key: (int, Seq<char>),
    pub is_diatonic: bool,
    pub is_secondary_dominant: bool,
    pub implied_key: (int, Seq<char>),
}

impl Clone for Chord {
    fn clone(&self) -> (r: Self)
        ensures
            r@ == self@,
    {
        Chord {
            root: self.root,
            quality: self.quality.clone(),
            function: self.function.clone(),
            key: (self.key.0, self.key.1.clone()),
            is_diatonic: self.is_diatonic,
            is_secondary_dominant: self.is_secondary_dominant,
            implied_key: (self.implied_key.0, self.implied_key.1.clone()),
        }
    }
}

impl View for Chord {
    type V = ChordView;

    open spec fn view(&self) -> ChordView {
        ChordView {
            root: self.root as int,
            quality: self.quality@,
            function: self.function@,
            key: (self.key.0 as int, self.key.1@),
            is_diatonic: self.is_diatonic,
            is_secondary_dominant: self.is_secondary_dominant,
            implied_key: (self.implied_key.0 as int, self.implied_key.1@),
        }
    }
}

/// The text "major".
pub open spec fn major_text() -> Seq<char> {
    seq!['m', 'a', 'j', 'o', 'r']
}

/// The position of the first '/' in `s` (its length when there is none).
pub open spec fn slash_position(s: Seq<char>) -> int
    decreases s.len(),
{
    if s.len() == 0 {
        0
    } else if s[0] == '/' {
        0
    } else {
        1 + slash_position(s.skip(1))
    }
}

/// `slash_position` finds the first '/' when there is one.
pub proof fn lemma_slash_position(s: Seq<char>)
    ensures
        0 <= slash_position(s) <= s.len(),
        forall|j: int| 0 <= j < slash_position(s) ==> s[j] != '/',
        slash_position(s) < s.len() ==> s[slash_position(s)] == '/',
        s.contains('/') <==> slash_position(s) < s.len(),
    decreases s.len(),
{
    if s.len() > 0 && s[0] != '/' {
        lemma_slash_position(s.skip(1));
        assert forall|j: int| 0 <= j < slash_position(s) implies s[j] != '/' by {
            if j > 0 {
                assert(s.skip(1)[j - 1] == s[j]);
            }
        }
        if s.contains('/') {
            let k = choose|k: int| 0 <= k < s.len() && s[k] == '/';
            assert(s.skip(1)[k - 1] == '/');
        }
        if slash_position(s) < s.len() {
            assert(s.skip(1)[slash_position(s) - 1] == s[slash_position(s)]);
        }
    } else if s.len() > 0 {
        assert(s.contains('/')) by {
            assert(s[0] == '/');
        }
    }
}

/// `s` starts with the character `c`.
pub open spec fn starts_with_char(s: Seq<char>, c: char) -> bool {
    s.len() > 0 && s[0] == c
}

/// The accidental written before a numeral ("bb", "##", "b" before an uppercase letter,
/// "#", or none) and the rest of the text; `upper` tells whether the character after a
/// leading 'b' is uppercase.
pub open spec fn accidental_split(s: Seq<char>, upper: bool) -> (Seq<char>, Seq<char>) {
    if s.len() >= 2 && s[0] == 'b' && s[1] == 'b' {
        (seq!['b', 'b'], s.skip(2))
    } else if s.len() >= 2 && s[0] == '#' && s[1] == '#' {
        (seq!['#', '#'], s.skip(2))
    } else if s.len() > 1 && s[0] == 'b' && upper {
        (seq!['b'], s.skip(1))
    } else if s.len() > 0 && s[0] == '#' {
        (seq!['#'], s.skip(1))
    } else {
        (seq![], s)
    }
}

/// The scale degree (0 for I) that a Roman numeral names, in either case; 0 for any other text.
pub open spec fn degree_of(num: Seq<char>) -> int {
    if num == seq!['I'] || num == seq!['i'] { 0 }
    else if num == seq!['I', 'I'] || num == seq!['i', 'i'] { 1 }
    else if num == seq!['I', 'I', 'I'] || num == seq!['i', 'i', 'i'] { 2 }
    else if num == seq!['I', 'V'] || num == seq!['i', 'v'] { 3 }
    else if num == seq!['V'] || num == seq!['v'] { 4 }
    else if num == seq!['V', 'I'] || num == seq!['v', 'i'] { 5 }
    else if num == seq!['V', 'I', 'I'] || num == seq!['v', 'i', 'i'] { 6 }
    else { 0 }
}

/// The pitch class `pc` moved by an accidental: down two, up two, down one or up one
/// semitone (with Rust's sign-keeping `%`), or unchanged.
pub open spec fn apply_accidental(pc: int, acc: Seq<char>) -> int {
    if acc == seq!['b', 'b'] { trunc_rem12(pc + 10) }
    else if acc == seq!['#', '#'] { trunc_rem12(pc + 2) }
    else if acc == seq!['b'] { trunc_rem12(pc + 11) }
    else if acc == seq!['#'] { trunc_rem12(pc + 1) }
    else { pc }
}

/// The triad quality of a degree of the major scale.
pub open spec fn quality_of(degree: int) -> Seq<char> {
    if degree == 0 || degree == 3 || degree == 4 { seq!['m', 'a', 'j'] }
    else if degree == 6 { seq!['d', 'i', 'm'] }
    else { seq!['m', 'i', 'n'] }
}

/// The scale (major, or natural minor for any other mode) in semitones above the tonic.
pub open spec fn scale_of(major: bool) -> Seq<i32> {
    if major { MAJOR_SCALE@ } else { MINOR_SCALE@ }
}

/// The numeral starts with 'b' followed by an uppercase character (as `char::is_uppercase`
/// tells), which makes the 'b' a flat.
pub open spec fn flat_before_uppercase(s: Seq<char>) -> bool {
    s.len() > 1 && s[0] == 'b' && uppercase_char(s[1])
}

/// The chord that `parse_roman` reads from `symbol` in the key with tonic `key_tonic`
/// and mode `mode`: the chord of `chord_in_mode` for the lowercased mode.
pub open spec fn chord_of(symbol: Seq<char>, key_tonic: int, mode: Seq<char>) -> ChordView
    decreases symbol.len(), 1int,
{
    chord_in_mode(symbol, key_tonic, lowercase_of(mode), flat_before_uppercase(symbol))
}

/// The chord read from `symbol` in the key with tonic `key_tonic` and the lowercased
/// mode `ml`, where `upper` tells whether the character after a leading 'b' is
/// uppercase. A numeral "X/Y" (not starting with an accidental) is the chord X in the
/// major key on the root of Y: a secondary dominant, never diatonic. Otherwise an
/// optional accidental and a numeral give a degree of the key's scale (major when `ml`
/// is "major", else natural minor), moved by the accidental; the chord is diatonic when
/// it has no accidental and its root is in the scale.
pub open spec fn chord_in_mode(symbol: Seq<char>, key_tonic: int, ml: Seq<char>, upper: bool) -> ChordView
    decreases symbol.len(), 0int,
{
    if symbol.contains('/') && !starts_with_char(symbol, 'b') && !starts_with_char(symbol, '#') {
        proof {
            lemma_slash_position(symbol);
        }
        let pos = slash_position(symbol);
        let tc = chord_of(symbol.skip(pos + 1), key_tonic, ml);
        let dc = chord_of(symbol.take(pos), tc.root, major_text());
        ChordView {
            root: dc.root,
            quality: dc.quality,
            function: symbol,
            key: (key_tonic, ml),
            is_diatonic: false,
            is_secondary_dominant: true,
            implied_key: (tc.root, major_text()),
        }
    } else {
        let scale = scale_of(ml == major_text());
        let acc = accidental_split(symbol, upper).0;
        let degree = degree_of(accidental_split(symbol, upper).1);
        let root = apply_accidental(trunc_rem12(key_tonic + scale[degree]), acc);
        ChordView {
            root: root,
            quality: quality_of(degree),
            function: symbol,
            key: (key_tonic, ml),
            is_diatonic: (exists|j: int| 0 <= j < 7 && trunc_rem12(key_tonic + scale[j]) == root) && acc.len() == 0,
            is_secondary_dominant: false,
            implied_key: (key_tonic, ml),
        }
    }
}

/// A flat before a numeral (with the numeral's first letter uppercase) lowers the root
/// of the plain numeral's chord by a semitone, a sharp raises it by one, and both make the
/// chord non-diatonic, while the plain numeral is diatonic. Stated for numerals written
/// with the letters I and V, in a key with a non-negative tonic.
pub proof fn law_accidentals_shift_root(num: Seq<char>, key_tonic: int, ml: Seq<char>, upper: bool)
    requires
        num.len() >= 1,
        forall|i: int| 0 <= i < num.len() ==> #[trigger] num[i] == 'I' || num[i] == 'V',
        0 <= key_tonic,
    ensures
        ({
            let c = chord_in_mode(num, key_tonic, ml, upper);
            let f = chord_in_mode(seq!['b'] + num, key_tonic, ml, true);
            let h = chord_in_mode(seq!['#'] + num, key_tonic, ml, upper);
            &&& c.is_diatonic
            &&& 0 <= c.root < 12
            &&& f.root == (c.root + 11) % 12
            &&& h.root == (c.root + 1) % 12
            &&& !f.is_diatonic
            &&& !h.is_diatonic
        }),
{
    let fb = seq!['b'] + num;
    let hs = seq!['#'] + num;
    assert(!num.contains('/')) by {
        if num.contains('/') {
            let k = choose|k: int| 0 <= k < num.len() && num[k] == '/';
            assert(num[k] == 'I' || num[k] == 'V');
        }
    }
    assert(num[0] != 'b' && num[0] != '#' && num[0] != '/');
    assert(fb[0] == 'b' && fb[1] == num[0] && fb.skip(1) =~= num);
    assert(hs[0] == '#' && hs[1] == num[0] && hs.skip(1) =~= num);
    let scale = scale_of(ml == major_text());
    let degree = degree_of(num);
    assert(0 <= degree < 7);
    assert(accidental_split(num, upper) == (Seq::<char>::empty(), num));
    assert(accidental_split(fb, true) == (seq!['b'], num));
    assert(accidental_split(hs, upper) == (seq!['#'], num));
    let base = trunc_rem12(key_tonic + scale[degree]);
    assert(scale[degree] >= 0);
    assert(0 <= base < 12);
    let c = chord_in_mode(num, key_tonic, ml, upper);
    assert(c.root == base);
    assert(c.is_diatonic) by {
        assert(trunc_rem12(key_tonic + scale[degree]) == c.root);
    }
}

/// The value of a Roman digit (either case); 0 for any other character.
pub open spec fn roman_digit(c: char) -> int {
    if c == 'I' || c == 'i' { 1 }
    else if c == 'V' || c == 'v' { 5 }
    else if c == 'X' || c == 'x' { 10 }
    else { 0 }
}

/// The value of a Roman numeral: the sum of its digits, a digit standing before a larger
/// one counting negatively (so "IV" is 4 and "VII" is 7).
pub open spec fn roman_value(s: Seq<char>) -> int
    decreases s.len(),
{
    if s.len() == 0 {
        0
    } else if s.len() >= 2 && roman_digit(s[0]) < roman_digit(s[1]) {
        roman_value(s.drop_first()) - roman_digit(s[0])
    } else {
        roman_digit(s[0]) + roman_value(s.drop_first())
    }
}

/// The fourteen numerals that name the degrees of a scale: I to VII, in upper or lower case.
pub open spec fn degree_numeral(s: Seq<char>) -> bool {
    ||| s == seq!['I'] ||| s == seq!['I', 'I'] ||| s == seq!['I', 'I', 'I'] ||| s == seq!['I', 'V']
    ||| s == seq!['V'] ||| s == seq!['V', 'I'] ||| s == seq!['V', 'I', 'I']
    ||| s == seq!['i'] ||| s == seq!['i', 'i'] ||| s == seq!['i', 'i', 'i'] ||| s == seq!['i', 'v']
    ||| s == seq!['v'] ||| s == seq!['v', 'i'] ||| s == seq!['v', 'i', 'i']
}

/// A degree numeral names the scale degree one below its Roman value (I is the tonic,
/// degree 0; VII is degree 6), in either case; the triads of the major scale are major on
/// I, IV and V, minor on II, III and VI, and diminished on VII.
pub proof fn law_numeral_degrees(s: Seq<char>)
    requires
        degree_numeral(s),
    ensures
        degree_of(s) == roman_value(s) - 1,
        1 <= roman_value(s) <= 7,
        (roman_value(s) == 1 || roman_value(s) == 4 || roman_value(s) == 5) ==> quality_of(degree_of(s)) == seq!['m', 'a', 'j'],
        (roman_value(s) == 2 || roman_value(s) == 3 || roman_value(s) == 6) ==> quality_of(degree_of(s)) == seq!['m', 'i', 'n'],
        roman_value(s) == 7 ==> quality_of(degree_of(s)) == seq!['d', 'i', 'm'],
{
    reveal_with_fuel(roman_value, 4);
    assert(seq!['I', 'I'].drop_first() =~= seq!['I']);
    assert(seq!['I', 'I', 'I'].drop_first() =~= seq!['I', 'I']);
    assert(seq!['I', 'V'].drop_first() =~= seq!['V']);
    assert(seq!['V', 'I'].drop_first() =~= seq!['I']);
    assert(seq!['V', 'I', 'I'].drop_first() =~= seq!['I', 'I']);
    assert(seq!['i', 'i'].drop_first() =~= seq!['i']);
    assert(seq!['i', 'i', 'i'].drop_first() =~= seq!['i', 'i']);
    assert(seq!['i', 'v'].drop_first() =~= seq!['v']);
    assert(seq!['v', 'i'].drop_first() =~= seq!['i']);
    assert(seq!['v', 'i', 'i'].drop_first() =~= seq!['i', 'i']);
    assert(seq!['I'].drop_first() =~= Seq::<char>::empty());
    assert(seq!['V'].drop_first() =~= Seq::<char>::empty());
    assert(seq!['i'].drop_first() =~= Seq::<char>::empty());
    assert(seq!['v'].drop_first() =~= Seq::<char>::empty());
}

/// A plain degree numeral (no accidental) in a key with a non-negative tonic is the
/// triad on the degree one below its Roman value: its root is that degree of the key's
/// scale above the tonic, reduced mod 12, and it is diatonic.
pub proof fn law_plain_numeral_root(s: Seq<char>, key_tonic: int, ml: Seq<char>, upper: bool)
    requires
        degree_numeral(s),
        0 <= key_tonic,
    ensures
        ({
            let c = chord_in_mode(s, key_tonic, ml, upper);
            let scale = if ml == major_text() { seq![0i32, 2, 4, 5, 7, 9, 11] } else { seq![0i32, 2, 3, 5, 7, 8, 10] };
            &&& c.root == (key_tonic + scale[roman_value(s) - 1]) % 12
            &&& c.is_diatonic
            &&& !c.is_secondary_dominant
        }),
{
    law_numeral_degrees(s);
    assert(MAJOR_SCALE@ =~= seq![0i32, 2, 4, 5, 7, 9, 11]);
    assert(MINOR_SCALE@ =~= seq![0i32, 2, 3, 5, 7, 8, 10]);
    assert(!s.contains('/')) by {
        if s.contains('/') {
            let k = choose|k: int| 0 <= k < s.len() && s[k] == '/';
            assert(s[k] == 'I' || s[k] == 'V' || s[k] == 'i' || s[k] == 'v');
        }
    }
    assert(s[0] != 'b' && s[0] != '#');
    assert(accidental_split(s, upper) == (Seq::<char>::empty(), s));
    let scale = scale_of(ml == major_text());
    let degree = degree_of(s);
    let root = trunc_rem12(key_tonic + scale[degree]);
    assert(scale[degree] >= 0);
    assert(exists|j: int| 0 <= j < 7 && trunc_rem12(key_tonic + scale[j]) == root) by {
        assert(trunc_rem12(key_tonic + scale[degree]) == root);
    }
    let c = chord_in_mode(s, key_tonic, ml, upper);
    assert(Seq::<char>::empty() != seq!['b', 'b'] && Seq::<char>::empty() != seq!['#', '#']
        && Seq::<char>::empty() != seq!['b'] && Seq::<char>::empty() != seq!['#']) by {
        assert(seq!['b'].len() == 1 && seq!['#'].len() == 1 && seq!['b', 'b'].len() == 2 && seq!['#', '#'].len() == 2);
    }
    assert(apply_accidental(root, Seq::<char>::empty()) == root);
    assert(!(s.contains('/') && !starts_with_char(s, 'b') && !starts_with_char(s, '#')));
    assert(c.root == root);
    assert(c.is_diatonic);
    assert(root == (key_tonic + scale[degree]) % 12);
    let lit = if ml == major_text() { seq![0i32, 2, 4, 5, 7, 9, 11] } else { seq![0i32, 2, 3, 5, 7, 8, 10] };
    assert(scale == lit);
}

fn find_slash(s: &str) -> (r: usize)
    ensures
        r == slash_position(s@),
{
    proof {
        lemma_slash_position(s@);
    }
    let n = s.unicode_len();
    let mut i: usize = 0;
    while i < n && s.get_char(i) != '/'
        invariant
            n == s@.len(),
            0 <= i <= n,
            forall|j: int| 0 <= j < i ==> s@[j] != '/',
        decreases n - i,
    {
        i = i + 1;
    }
    i
}

fn parse_acc(s: &str, upper: bool) -> (r: (String, &str))
    ensures
        r.0@ == accidental_split(s@, upper).0,
        r.1@ == accidental_split(s@, upper).1,
{
    proof {
        reveal_strlit("bb");
        reveal_strlit("##");
        reveal_strlit("b");
        reveal_strlit("#");
        reveal_strlit("");
    }
    let n = s.unicode_len();
    if n >= 2 && s.get_char(0) == 'b' && s.get_char(1) == 'b' {
        (String::from_str("bb"), s.substring_char(2, n))
    } else if n >= 2 && s.get_char(0) == '#' && s.get_char(1) == '#' {
        (String::from_str("##"), s.substring_char(2, n))
    } else if n > 1 && s.get_char(0) == 'b' && upper {
        (String::from_str("b"), s.substring_char(1, n))
    } else if n > 0 && s.get_char(0) == '#' {
        (String::from_str("#"), s.substring_char(1, n))
    } else {
        assert(s@.subrange(0, n as int) =~= s@);
        (String::from_str(""), s.substring_char(0, n))
    }
}

fn num_to_degree(s: &str) -> (r: usize)
    ensures
        r == degree_of(s@),
        r < 7,
{
    proof {
        reveal_strlit("I");
        reveal_strlit("i");
        reveal_strlit("II");
        reveal_strlit("ii");
        reveal_strlit("III");
        reveal_strlit("iii");
        reveal_strlit("IV");
        reveal_strlit("iv");
        reveal_strlit("V");
        reveal_strlit("v");
        reveal_strlit("VI");
        reveal_strlit("vi");
        reveal_strlit("VII");
        reveal_strlit("vii");
        assert("I"@ =~= seq!['I']);
        assert("i"@ =~= seq!['i']);
        assert("II"@ =~= seq!['I', 'I']);
        assert("ii"@ =~= seq!['i', 'i']);
        assert("III"@ =~= seq!['I', 'I', 'I']);
        assert("iii"@ =~= seq!['i', 'i', 'i']);
        assert("IV"@ =~= seq!['I', 'V']);
        assert("iv"@ =~= seq!['i', 'v']);
        assert("V"@ =~= seq!['V']);
        assert("v"@ =~= seq!['v']);
        assert("VI"@ =~= seq!['V', 'I']);
        assert("vi"@ =~= seq!['v', 'i']);
        assert("VII"@ =~= seq!['V', 'I', 'I']);
        assert("vii"@ =~= seq!['v', 'i', 'i']);
    }
    if str_eq(s, "I") || str_eq(s, "i") {
        0
    } else if str_eq(s, "II") || str_eq(s, "ii") {
        1
    } else if str_eq(s, "III") || str_eq(s, "iii") {
        2
    } else if str_eq(s, "IV") || str_eq(s, "iv") {
        3
    } else if str_eq(s, "V") || str_eq(s, "v") {
        4
    } else if str_eq(s, "VI") || str_eq(s, "vi") {
        5
    } else if str_eq(s, "VII") || str_eq(s, "vii") {
        6
    } else {
        0
    }
}

fn apply_acc(pc: i32, acc: &str) -> (r: i32)
    requires
        -12 < pc < 12,
    ensures
        r == apply_accidental(pc as int, acc@),
        -12 < r < 12,
{
    proof {
        reveal_strlit("bb");
        reveal_strlit("##");
        reveal_strlit("b");
        reveal_strlit("#");
        assert("bb"@ =~= seq!['b', 'b']);
        assert("##"@ =~= seq!['#', '#']);
        assert("b"@ =~= seq!['b']);
        assert("#"@ =~= seq!['#']);
    }
    if str_eq(acc, "bb") {
        (pc + 10) % 12
    } else if str_eq(acc, "##") {
        (pc + 2) % 12
    } else if str_eq(acc, "b") {
        (pc + 11) % 12
    } else if str_eq(acc, "#") {
        (pc + 1) % 12
    } else {
        pc
    }
}

/// Reads the Roman numeral `symbol` in the key with tonic `key_tonic` and mode `mode`
/// ("major", in any case, or else natural minor).
pub fn parse_roman(symbol: &str, key_tonic: i32, mode: &str) -> (r: Chord)
    requires
        key_tonic <= i32::MAX - 11,
    ensures
        r@ == chord_of(symbol@, key_tonic as int, mode@),
        -12 < r.root < 12,
    decreases symbol@.len(), 1nat,
{
    let ml = to_lowercase(mode);
    let n = symbol.unicode_len();
    let upper = n > 1 && symbol.get_char(0) == 'b' && is_uppercase(symbol.get_char(1));
    parse_roman_in_mode(symbol, key_tonic, ml.as_str(), upper)
}

/// Reads the Roman numeral `symbol` in the key with tonic `key_tonic` and the mode
/// `ml`, given already in lowercase; `upper` tells whether the character after a
/// leading 'b' is uppercase (a flat then precedes the numeral).
pub fn parse_roman_in_mode(symbol: &str, key_tonic: i32, ml: &str, upper: bool) -> (r: Chord)
    requires
        key_tonic <= i32::MAX - 11,
    ensures
        r@ == chord_in_mode(symbol@, key_tonic as int, ml@, upper),
        -12 < r.root < 12,
    decreases symbol@.len(), 0nat,
{
    proof {
        reveal_strlit("major");
        assert("major"@ =~= major_text());
        lemma_slash_position(symbol@);
    }
    let is_major = str_eq(ml, "major");
    let n = symbol.unicode_len();
    let starts_b = n > 0 && symbol.get_char(0) == 'b';
    let starts_sharp = n > 0 && symbol.get_char(0) == '#';
    let pos = find_slash(symbol);
    if pos < n && !starts_b && !starts_sharp {
        let after = symbol.substring_char(pos + 1, n);
        let before = symbol.substring_char(0, pos);
        assert(after@ =~= symbol@.skip(pos + 1));
        assert(before@ =~= symbol@.take(pos as int));
        let tc = parse_roman(after, key_tonic, ml);
        let dc = parse_roman(before, tc.root, "major");
        return Chord {
            root: dc.root,
            quality: dc.quality,
            function: String::from_str(symbol),
            key: (key_tonic, String::from_str(ml)),
            is_diatonic: false,
            is_secondary_dominant: true,
            implied_key: (tc.root, String::from_str("major")),
        };
    }
    let scale = if is_major { MAJOR_SCALE } else { MINOR_SCALE };
    assert(scale@ == scale_of(ml@ == major_text()));
    let (acc, num) = parse_acc(symbol, upper);
    let degree = num_to_degree(num);
    let base = (key_tonic + scale[degree]) % 12;
    let root = apply_acc(base, acc.as_str());
    proof {
        reveal_strlit("maj");
        reveal_strlit("min");
        reveal_strlit("dim");
    }
    let quality = String::from_str(MAJOR_QUALITIES[degree]);
    assert(quality@ =~= quality_of(degree as int));
    let mut in_scale = false;
    let mut j: usize = 0;
    while j < 7
        invariant
            0 <= j <= 7,
            key_tonic <= i32::MAX - 11,
            scale@ == scale_of(ml@ == major_text()),
            in_scale == exists|k: int| 0 <= k < j && trunc_rem12(key_tonic + scale@[k]) == root,
        decreases 7 - j,
    {
        if (key_tonic + scale[j]) % 12 == root {
            in_scale = true;
        }
        j = j + 1;
    }
    let is_diatonic = in_scale && acc.as_str().is_empty();
    let key_mode = String::from_str(ml);
    Chord {
        root,
        quality,
        function: String::from_str(symbol),
        key: (key_tonic, key_mode),
        is_diatonic,
        is_secondary_dominant: false,
        implied_key: (key_tonic, String::from_str(ml)),
    }
}

impl Chord {
    /// The name of the chord's root, or "?" when the root is not a pitch class in 0..=11.
    pub fn root_name(&self) -> (r: String)
        ensures
            0 <= self.root <= 11 ==> r@ == pitch_name_of(self.root as int),
            !(0 <= self.root <= 11) ==> r@ == "?"@,
    {
        let name = match pitch_name_fn(self.root) {
            Ok(n) => n,
            Err(_) => "?",
        };
        String::from_str(name)
    }
}

/// The analysis of a progression. Its stability score is
/// `diatonic_count` divided by the number of chords.
#[derive(Debug, Clone)]
pub struct ProgressionAnalysis {
    pub chords: Vec<Chord>,
    pub graph: TonalGraph,
    pub modulations: Vec<(usize, String)>,
    pub modal_interchanges: Vec<(usize, String)>,
    pub diatonic_count: usize,
}

/// The chords of a progression as read in a key.
pub open spec fn chords_of(symbols: Seq<&str>, key_tonic: int, mode: Seq<char>) -> Seq<ChordView> {
    symbols.map_values(|s: &str| chord_of(s@, key_tonic, mode))
}

/// The roots of a list of chords.
pub open spec fn roots_of(chords: Seq<ChordView>) -> Seq<i32> {
    chords.map_values(|c: ChordView| c.root as i32)
}

/// The notes on the first `n` chords: each secondary dominant, and each later chord that is
/// not diatonic, with its position.
pub open spec fn modulation_notes(chords: Seq<ChordView>, n: int) -> Seq<(usize, Seq<char>)>
    decreases n,
{
    if n <= 0 {
        seq![]
    } else {
        let prev = modulation_notes(chords, n - 1);
        let c = chords[n - 1];
        if c.is_secondary_dominant {
            prev.push(((n - 1) as usize, "Sec dom "@ + c.function))
        } else if !c.is_diatonic && n - 1 > 0 {
            prev.push(((n - 1) as usize, "Non-diatonic "@ + c.function))
        } else {
            prev
        }
    }
}

/// The number of diatonic chords among the first `n`.
pub open spec fn diatonic_upto(chords: Seq<ChordView>, n: int) -> nat
    decreases n,
{
    if n <= 0 { 0 } else { diatonic_upto(chords, n - 1) + if chords[n - 1].is_diatonic { 1nat } else { 0nat } }
}

/// The texts of a list of notes.
pub open spec fn notes_view(v: Seq<(usize, String)>) -> Seq<(usize, Seq<char>)> {
    v.map_values(|p: (usize, String)| (p.0, p.1@))
}

/// Reads each symbol as a chord in the key, records the root movements in a tonal graph,
/// notes secondary dominants and (after the first chord) non-diatonic chords, and counts
/// the diatonic chords. An empty progression is refused (it has no holonomy walk);
/// `wrap` only closes that walk, which the analysis does not keep.
pub fn analyze_progression(symbols: &[&str], key_tonic: i32, mode: &str, wrap: bool) -> (r: ProgressionAnalysis)
    requires
        symbols@.len() > 0,
        key_tonic <= i32::MAX - 11,
    ensures
        ({
            let cs = chords_of(symbols@, key_tonic as int, mode@);
            &&& r.chords@.len() == symbols@.len()
            &&& forall|i: int| 0 <= i < symbols@.len() ==> (#[trigger] r.chords@[i])@ == cs[i]
            &&& r.graph.wf()
            &&& r.graph@ == with_progression(Seq::empty(), roots_of(cs), cs.len() as int)
            &&& notes_view(r.modulations@) == modulation_notes(cs, cs.len() as int)
            &&& r.modal_interchanges@.len() == 0
            &&& r.diatonic_count == diatonic_upto(cs, cs.len() as int)
        }),
{
    let ghost cs = chords_of(symbols@, key_tonic as int, mode@);
    let mut chords: Vec<Chord> = Vec::new();
    let mut roots: Vec<i32> = Vec::new();
    let mut mods: Vec<(usize, String)> = Vec::new();
    let mut diat: usize = 0;
    let mut i: usize = 0;
    proof {
        reveal_strlit("Sec dom ");
        reveal_strlit("Non-diatonic ");
    }
    while i < symbols.len()
        invariant
            key_tonic <= i32::MAX - 11,
            cs == chords_of(symbols@, key_tonic as int, mode@),
            0 <= i <= symbols@.len(),
            chords@.len() == i,
            forall|j: int| 0 <= j < i ==> (#[trigger] chords@[j])@ == cs[j],
            roots@ == roots_of(cs).take(i as int),
            notes_view(mods@) == modulation_notes(cs, i as int),
            diat == diatonic_upto(cs, i as int),
            diat <= i,
        decreases symbols.len() - i,
    {
        let c = parse_roman(symbols[i], key_tonic, mode);
        assert(c@ == cs[i as int]);
        roots.push(c.root);
        assert(roots_of(cs).take(i + 1) =~= roots_of(cs).take(i as int).push(c.root));
        if c.is_secondary_dominant {
            let m = String::from_str("Sec dom ").concat(c.function.as_str());
            mods.push((i, m));
        } else if !c.is_diatonic && i > 0 {
            let m = String::from_str("Non-diatonic ").concat(c.function.as_str());
            mods.push((i, m));
        }
        assert(notes_view(mods@) =~= modulation_notes(cs, i + 1));
        if c.is_diatonic {
            diat = diat + 1;
        }
        chords.push(c);
        i = i + 1;
    }
    assert(roots_of(cs).take(symbols.len() as int) =~= roots_of(cs));
    let mut graph = TonalGraph::new();
    let _ = graph.build_from_progression(roots.as_slice());
    ProgressionAnalysis {
        chords,
        graph,
        modulations: mods,
        modal_interchanges: Vec::new(),
        diatonic_count: diat,
    }
}

} // verus!
