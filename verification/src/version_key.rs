//! The canonical identity of a toolchain: `<name>@<major>.<minor>.<patch>`.
//!
//! A key is written as a name, an `@`, and three decimal numbers separated
//! by dots. The name is everything in front of the first `@`; a debug build
//! carries the suffix `-dbg` as part of its name. Each number is written
//! without leading zeros and fits in eight bits.

use vstd::prelude::*;
use vstd::string::*;

use crate::text::{chars_of, find_char};

verus! {

/// The mathematical value of a [`VersionKey`].
pub struct KeyModel {
    pub name: Seq<char>,
    pub major: u8,
    pub minor: u8,
    pub patch: u8,
}

/// The identity of a toolchain.
#[derive(Debug)]
pub struct VersionKey {
    pub name: String,
    pub major: u8,
    pub minor: u8,
    pub patch: u8,
}

/// Why a string is not a version key.
#[derive(Debug, PartialEq, Eq, Structural, Clone, Copy)]
pub enum ParseError {
    /// The string holds no `@`.
    MissingSeparator,
    /// What follows the first `@` is not three canonical numbers.
    MalformedVersion,
}

impl View for VersionKey {
    type V = KeyModel;

    open spec fn view(&self) -> KeyModel {
        KeyModel { name: self.name@, major: self.major, minor: self.minor, patch: self.patch }
    }
}

/// The character that stands for the decimal digit `d`.
pub open spec fn digit_char(d: int) -> char
    recommends
        0 <= d < 10,
{
    (d + 48) as u8 as char
}

/// Whether `c` is one of `'0'` to `'9'`.
pub open spec fn is_digit(c: char) -> bool {
    '0' <= c && c <= '9'
}

/// The decimal numeral of `n`, without leading zeros.
pub open spec fn numeral(n: u8) -> Seq<char> {
    if n < 10 {
        seq![digit_char(n as int)]
    } else if n < 100 {
        seq![digit_char(n as int / 10), digit_char(n as int % 10)]
    } else {
        seq![digit_char(n as int / 100), digit_char(n as int / 10 % 10), digit_char(n as int % 10)]
    }
}

/// The number that `t` is the numeral of, if it is one.
pub open spec fn numeral_value(t: Seq<char>) -> Option<u8> {
    if exists|n: u8| numeral(n) == t {
        Some(choose|n: u8| numeral(n) == t)
    } else {
        None
    }
}

/// The text of a version: three numerals separated by dots.
pub open spec fn version_text(major: u8, minor: u8, patch: u8) -> Seq<char> {
    numeral(major) + seq!['.'] + numeral(minor) + seq!['.'] + numeral(patch)
}

/// The canonical text of a key.
pub open spec fn key_text(k: KeyModel) -> Seq<char> {
    k.name + seq!['@'] + version_text(k.major, k.minor, k.patch)
}

/// A key whose name holds no `@`: the keys that texts denote.
pub open spec fn well_formed(k: KeyModel) -> bool {
    !k.name.contains('@')
}

/// Whether `s` is the canonical text of some well-formed key.
pub open spec fn is_key_text(s: Seq<char>) -> bool {
    exists|k: KeyModel| well_formed(k) && key_text(k) == s
}

/// The key that `s` denotes, if it denotes one.
pub open spec fn parse_key(s: Seq<char>) -> Option<KeyModel> {
    if is_key_text(s) {
        Some(choose|k: KeyModel| well_formed(k) && key_text(k) == s)
    } else {
        None
    }
}

/// The code point of a digit's character.
pub proof fn lemma_digit_code(d: int)
    requires
        0 <= d < 10,
    ensures
        digit_char(d) as u32 == 48 + d,
        is_digit(digit_char(d)),
{
}

/// Every character of a numeral is a digit, and a numeral of more than one
/// digit does not start with `0`.
pub proof fn lemma_numeral_shape(n: u8)
    ensures
        1 <= numeral(n).len() <= 3,
        forall|i: int| 0 <= i < numeral(n).len() ==> is_digit(#[trigger] numeral(n)[i]),
        numeral(n).len() > 1 ==> numeral(n)[0] != '0',
        !numeral(n).contains('.'),
        !numeral(n).contains('@'),
{
}

/// Two numbers with one numeral are one number.
pub proof fn lemma_numeral_injective(m: u8, n: u8)
    requires
        numeral(m) == numeral(n),
    ensures
        m == n,
{
    let t = numeral(n);
    let v = n as int;
    if t.len() == 1 {
        assert(t[0] == digit_char(v));
    } else if t.len() == 2 {
        assert(t[0] == digit_char(v / 10) && t[1] == digit_char(v % 10));
    } else {
        assert(t[0] == digit_char(v / 100) && t[1] == digit_char(v / 10 % 10) && t[2]
            == digit_char(v % 10));
    }
    lemma_digits_value(m, v, t);
}

/// `numeral_value` inverts `numeral`.
pub proof fn lemma_numeral_value(n: u8)
    ensures
        numeral_value(numeral(n)) == Some(n),
{
    let m = choose|m: u8| numeral(m) == numeral(n);
    lemma_numeral_injective(m, n);
}

/// Where the parts of a well-formed key stand in its text.
pub proof fn lemma_key_text_parts(k: KeyModel)
    requires
        well_formed(k),
    ensures
        ({
            let s = key_text(k);
            let at = k.name.len() as int;
            let d1 = at + 1 + numeral(k.major).len();
            let d2 = d1 + 1 + numeral(k.minor).len();
            &&& s.len() == d2 + 1 + numeral(k.patch).len()
            &&& s[at] == '@'
            &&& s[d1] == '.'
            &&& s[d2] == '.'
            &&& forall|i: int| 0 <= i < at ==> s[i] != '@'
            &&& forall|i: int| at < i < d1 ==> s[i] != '.'
            &&& forall|i: int| d1 < i < d2 ==> s[i] != '.'
            &&& s.subrange(0, at) == k.name
            &&& s.subrange(at + 1, d1) == numeral(k.major)
            &&& s.subrange(d1 + 1, d2) == numeral(k.minor)
            &&& s.subrange(d2 + 1, s.len() as int) == numeral(k.patch)
        }),
{
    let s = key_text(k);
    let at = k.name.len() as int;
    let d1 = at + 1 + numeral(k.major).len();
    let d2 = d1 + 1 + numeral(k.minor).len();
    lemma_numeral_shape(k.major);
    lemma_numeral_shape(k.minor);
    lemma_numeral_shape(k.patch);
    assert forall|i: int| 0 <= i < at implies s[i] != '@' by {
        assert(s[i] == k.name[i]);
    }
    assert forall|i: int| at < i < d1 implies s[i] != '.' by {
        assert(s[i] == numeral(k.major)[i - at - 1]);
    }
    assert forall|i: int| d1 < i < d2 implies s[i] != '.' by {
        assert(s[i] == numeral(k.minor)[i - d1 - 1]);
    }
    assert(s.subrange(0, at) =~= k.name);
    assert(s.subrange(at + 1, d1) =~= numeral(k.major));
    assert(s.subrange(d1 + 1, d2) =~= numeral(k.minor));
    assert(s.subrange(d2 + 1, s.len() as int) =~= numeral(k.patch));
}

/// A text is the text of at most one well-formed key.
pub proof fn lemma_key_text_injective(a: KeyModel, b: KeyModel)
    requires
        well_formed(a),
        well_formed(b),
        key_text(a) == key_text(b),
    ensures
        a == b,
{
    lemma_key_text_parts(a);
    lemma_key_text_parts(b);
    let s = key_text(a);
    let at = a.name.len() as int;
    if b.name.len() < at {
        assert(s[b.name.len() as int] == '@');
    }
    if at < b.name.len() {
        assert(s[at] == '@');
    }
    let d1 = at + 1 + numeral(a.major).len();
    let e1 = at + 1 + numeral(b.major).len();
    if d1 < e1 {
        assert(s[d1] == '.');
    }
    if e1 < d1 {
        assert(s[e1] == '.');
    }
    let d2 = d1 + 1 + numeral(a.minor).len();
    let e2 = d1 + 1 + numeral(b.minor).len();
    if d2 < e2 {
        assert(s[d2] == '.');
    }
    if e2 < d2 {
        assert(s[e2] == '.');
    }
    lemma_numeral_injective(a.major, b.major);
    lemma_numeral_injective(a.minor, b.minor);
    lemma_numeral_injective(a.patch, b.patch);
}

/// Reading back the text of a well-formed key gives that key.
pub proof fn law_key_round_trip(k: KeyModel)
    requires
        well_formed(k),
    ensures
        parse_key(key_text(k)) == Some(k),
{
    let s = key_text(k);
    assert(is_key_text(s));
    let c = choose|c: KeyModel| well_formed(c) && key_text(c) == s;
    lemma_key_text_injective(c, k);
}

/// Writing out the key that a text denotes gives that text again.
pub proof fn law_text_round_trip(s: Seq<char>)
    requires
        is_key_text(s),
    ensures
        parse_key(s) is Some,
        well_formed(parse_key(s).unwrap()),
        key_text(parse_key(s).unwrap()) == s,
{
}

/// The digit that `c` stands for, if it is one.
fn digit_of(c: char) -> (r: Option<u8>)
    ensures
        r matches Some(d) ==> d < 10 && digit_char(d as int) == c,
        r is None ==> !is_digit(c),
{
    if '0' <= c && c <= '9' {
        let code: u32 = c as u32;
        Some((code - 48) as u8)
    } else {
        None
    }
}

/// Reads the characters of `cs` from `from` up to `to` as one numeral.
fn parse_numeral(cs: &Vec<char>, from: usize, to: usize) -> (r: Option<u8>)
    requires
        from <= to <= cs.len(),
    ensures
        r == numeral_value(cs@.subrange(from as int, to as int)),
{
    let ghost t = cs@.subrange(from as int, to as int);
    let len: usize = to - from;
    if len == 0 || len > 3 {
        proof {
            assert forall|n: u8| numeral(n) != t by {
                lemma_numeral_shape(n);
            }
        }
        return None;
    }
    let mut value: u32 = 0;
    let mut i: usize = from;
    while i < to
        invariant
            from <= i <= to <= cs.len(),
            to - from == len,
            1 <= len <= 3,
            t == cs@.subrange(from as int, to as int),
            forall|j: int| 0 <= j < i - from ==> is_digit(#[trigger] t[j]),
            i - from == 0 ==> value == 0,
            i - from == 1 ==> digit_char(value as int) == t[0] && value < 10,
            i - from == 2 ==> digit_char(value as int / 10) == t[0] && digit_char(value as int % 10)
                == t[1] && value < 100,
            i - from == 3 ==> digit_char(value as int / 100) == t[0] && digit_char(
                value as int / 10 % 10,
            ) == t[1] && digit_char(value as int % 10) == t[2] && value < 1000,
        decreases to - i,
    {
        let c = cs[i];
        assert(c == t[i - from]);
        match digit_of(c) {
            None => {
                proof {
                    assert forall|n: u8| numeral(n) != t by {
                        lemma_numeral_shape(n);
                        assert(!is_digit(t[i - from]));
                    }
                }
                return None;
            },
            Some(d) => {
                value = value * 10 + d as u32;
            },
        }
        i += 1;
    }
    if len > 1 && cs[from] == '0' {
        proof {
            assert(t[0] == '0');
            assert forall|n: u8| numeral(n) != t by {
                lemma_numeral_shape(n);
            }
        }
        return None;
    }
    if value > 255 {
        proof {
            lemma_digit_code(0);
            assert forall|n: u8| numeral(n) != t by {
                if numeral(n) == t {
                    lemma_digits_value(n, value as int, t);
                }
            }
        }
        return None;
    }
    let n: u8 = value as u8;
    proof {
        lemma_digit_code(0);
        assert(t[0] == '0' ==> value as int / 100 == 0 || len < 3) by {
            lemma_digit_code(value as int / 100 % 10);
        }
        lemma_digit_code(value as int / 10 % 10);
        lemma_digit_code(value as int % 10);
        assert(numeral(n) =~= t);
        lemma_numeral_value(n);
    }
    Some(n)
}

/// A text of up to three digits whose value is `value` is the numeral of no
/// other number.
#[verifier::spinoff_prover]
proof fn lemma_digits_value(n: u8, value: int, t: Seq<char>)
    requires
        0 <= value < 1000,
        1 <= t.len() <= 3,
        t.len() == 1 ==> digit_char(value) == t[0] && value < 10,
        t.len() == 2 ==> digit_char(value / 10) == t[0] && digit_char(value % 10) == t[1] && value
            < 100,
        t.len() == 3 ==> digit_char(value / 100) == t[0] && digit_char(value / 10 % 10) == t[1]
            && digit_char(value % 10) == t[2],
        numeral(n) == t,
    ensures
        n == value,
{
    let m = n as int;
    lemma_digit_code(m % 10);
    lemma_digit_code(m / 10 % 10);
    lemma_digit_code(m / 100);
    lemma_digit_code(value % 10);
    lemma_digit_code(value / 10 % 10);
    lemma_digit_code(value / 100);
    let a = numeral(n);
    if a.len() == 1 {
        assert(a[0] == digit_char(m));
    } else if a.len() == 2 {
        assert(a[0] == digit_char(m / 10));
        assert(a[1] == digit_char(m % 10));
    } else {
        assert(a[0] == digit_char(m / 100));
        assert(a[1] == digit_char(m / 10 % 10));
        assert(a[2] == digit_char(m % 10));
    }
}

/// The one-character string of the digit `d`.
fn digit_str(d: u8) -> (r: &'static str)
    requires
        d < 10,
    ensures
        r@ == seq![digit_char(d as int)],
{
    proof {
        reveal_strlit("0");
        reveal_strlit("1");
        reveal_strlit("2");
        reveal_strlit("3");
        reveal_strlit("4");
        reveal_strlit("5");
        reveal_strlit("6");
        reveal_strlit("7");
        reveal_strlit("8");
        reveal_strlit("9");
    }
    let r = match d {
        0 => "0",
        1 => "1",
        2 => "2",
        3 => "3",
        4 => "4",
        5 => "5",
        6 => "6",
        7 => "7",
        8 => "8",
        _ => "9",
    };
    assert(r@ =~= seq![digit_char(d as int)]);
    r
}

/// Appends the numeral of `n` to `out`.
fn push_numeral(out: &mut String, n: u8)
    ensures
        final(out)@ == old(out)@ + numeral(n),
{
    if n >= 100 {
        out.append(digit_str(n / 100));
    }
    if n >= 10 {
        out.append(digit_str(n / 10 % 10));
    }
    out.append(digit_str(n % 10));
    assert(out@ =~= old(out)@ + numeral(n));
}

impl VersionKey {
    /// Reads a key from its text.
    ///
    /// Succeeds exactly on the canonical texts of well-formed keys, and then
    /// returns the key that the text denotes. A text without `@` is refused
    /// as `MissingSeparator`, any other as `MalformedVersion`.
    pub fn parse(s: &str) -> (r: Result<VersionKey, ParseError>)
        ensures
            match r {
                Ok(k) => parse_key(s@) == Some(k@) && well_formed(k@) && key_text(k@) == s@,
                Err(ParseError::MissingSeparator) => parse_key(s@) is None && !s@.contains('@'),
                Err(ParseError::MalformedVersion) => parse_key(s@) is None && s@.contains('@'),
            },
    {
        let cs = chars_of(s);
        let n = cs.len();
        let at = find_char(&cs, 0, '@');
        if at == n {
            proof {
                assert forall|k: KeyModel| well_formed(k) implies key_text(k) != s@ by {
                    lemma_key_text_parts(k);
                }
            }
            return Err(ParseError::MissingSeparator);
        }
        assert(s@[at as int] == '@');
        let d1 = find_char(&cs, at + 1, '.');
        let d2 = if d1 < n {
            find_char(&cs, d1 + 1, '.')
        } else {
            n
        };
        if d2 == n {
            proof {
                assert forall|k: KeyModel| well_formed(k) implies key_text(k) != s@ by {
                    lemma_key_text_parts(k);
                }
            }
            return Err(ParseError::MalformedVersion);
        }
        let major = parse_numeral(&cs, at + 1, d1);
        let minor = parse_numeral(&cs, d1 + 1, d2);
        let patch = parse_numeral(&cs, d2 + 1, n);
        match (major, minor, patch) {
            (Some(major), Some(minor), Some(patch)) => {
                let name = String::from_str(s.substring_char(0, at));
                let key = VersionKey { name, major, minor, patch };
                proof {
                    assert(numeral(major) == s@.subrange(at + 1, d1 as int));
                    assert(numeral(minor) == s@.subrange(d1 + 1, d2 as int));
                    assert(numeral(patch) == s@.subrange(d2 + 1, n as int));
                    assert(key_text(key@) =~= s@);
                    assert(!key@.name.contains('@'));
                    law_key_round_trip(key@);
                }
                Ok(key)
            },
            _ => {
                proof {
                    assert forall|k: KeyModel| well_formed(k) implies key_text(k) != s@ by {
                        lemma_key_text_parts(k);
                        if key_text(k) == s@ {
                            assert(k.name.len() == at);
                            assert(at + 1 + numeral(k.major).len() == d1);
                            assert(d1 + 1 + numeral(k.minor).len() == d2);
                            lemma_numeral_value(k.major);
                            lemma_numeral_value(k.minor);
                            lemma_numeral_value(k.patch);
                        }
                    }
                }
                Err(ParseError::MalformedVersion)
            },
        }
    }

    /// The canonical text of the key.
    pub fn to_string(&self) -> (r: String)
        ensures
            r@ == key_text(self@),
    {
        let mut out = self.name.clone();
        out.append("@");
        push_numeral(&mut out, self.major);
        out.append(".");
        push_numeral(&mut out, self.minor);
        out.append(".");
        push_numeral(&mut out, self.patch);
        proof {
            reveal_strlit("@");
            reveal_strlit(".");
            assert("@"@ =~= seq!['@']);
            assert("."@ =~= seq!['.']);
            assert(out@ =~= key_text(self@));
        }
        out
    }
}

impl Clone for VersionKey {
    fn clone(&self) -> (r: VersionKey)
        ensures
            r@ == self@,
    {
        VersionKey {
            name: self.name.clone(),
            major: self.major,
            minor: self.minor,
            patch: self.patch,
        }
    }
}

} // verus!
