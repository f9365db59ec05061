//! Character and string helpers shared by the lexer, the checker's messages
//! and the interpreter's `str` and `print`.
use vstd::prelude::*;

verus! {

broadcast use vstd::string::group_string_axioms;

/// The character for a decimal digit `d` (0..=9).
pub open spec fn digit_char(d: nat) -> char {
    (48 + d) as char
}

/// Decimal digits of a natural number, most significant first, no leading zeros.
pub open spec fn nat_text(n: nat) -> Seq<char>
    decreases n,
{
    if n < 10 {
        seq![digit_char(n)]
    } else {
        nat_text(n / 10).push(digit_char(n % 10))
    }
}

/// Decimal text of an integer, with a leading '-' when negative.
pub open spec fn int_text(n: int) -> Seq<char> {
    if n < 0 {
        seq!['-'] + nat_text((-n) as nat)
    } else {
        nat_text(n as nat)
    }
}

/// Whether `c` is an ASCII decimal digit ('0'..='9').
pub open spec fn is_digit(c: char) -> bool {
    '0' <= c && c <= '9'
}

/// The value of an ASCII decimal digit.
pub open spec fn digit_value(c: char) -> nat {
    (c as int - 48) as nat
}

/// The number that a sequence of decimal digits denotes.
pub open spec fn digits_value(ds: Seq<char>) -> nat
    decreases ds.len(),
{
    if ds.len() == 0 {
        0
    } else {
        digits_value(ds.drop_last()) * 10 + digit_value(ds.last())
    }
}

/// What `char::is_whitespace` answers for `c`: whether it has the Unicode
/// `White_Space` property, a fixed list of 25 code points.
pub open spec fn unicode_whitespace(c: char) -> bool {
    let n = c as int;
    ||| 0x9 <= n <= 0xD
    ||| n == 0x20
    ||| n == 0x85
    ||| n == 0xA0
    ||| n == 0x1680
    ||| 0x2000 <= n <= 0x200A
    ||| n == 0x2028
    ||| n == 0x2029
    ||| n == 0x202F
    ||| n == 0x205F
    ||| n == 0x3000
}

/// An ASCII letter: `A` to `Z` or `a` to `z`.
pub open spec fn ascii_letter(c: char) -> bool {
    ('a' <= c && c <= 'z') || ('A' <= c && c <= 'Z')
}

/// What `char::is_alphabetic` answers for a character beyond ASCII
/// (Unicode `Alphabetic`).
pub uninterp spec fn non_ascii_alphabetic(c: char) -> bool;

/// What `char::is_numeric` answers for a character beyond ASCII (Unicode
/// general category `Nd`, `Nl` or `No`).
pub uninterp spec fn non_ascii_numeric(c: char) -> bool;

/// What `char::is_alphabetic` answers for `c`: among ASCII characters the
/// letters have the `Alphabetic` property, and nothing else does.
pub open spec fn unicode_alphabetic(c: char) -> bool {
    if (c as int) < 128 {
        ascii_letter(c)
    } else {
        non_ascii_alphabetic(c)
    }
}

/// What `char::is_numeric` answers for `c`: among ASCII characters the
/// digits `0` to `9` are numeric, and nothing else is.
pub open spec fn unicode_numeric(c: char) -> bool {
    if (c as int) < 128 {
        is_digit(c)
    } else {
        non_ascii_numeric(c)
    }
}

/// What `<str as Debug>::fmt` writes for a string: the quoted, escaped text.
pub uninterp spec fn debug_quoted(s: Seq<char>) -> Seq<char>;

/// Whether `c` is whitespace, as `char::is_whitespace` answers: one of the
/// code points with the Unicode `White_Space` property.
pub(crate) fn is_whitespace(c: char) -> (b: bool)
    ensures
        b == unicode_whitespace(c),
{
    let n = c as u32;
    (0x9 <= n && n <= 0xD) || n == 0x20 || n == 0x85 || n == 0xA0 || n == 0x1680 || (0x2000 <= n && n
        <= 0x200A) || n == 0x2028 || n == 0x2029 || n == 0x202F || n == 0x205F || n == 0x3000
}

/// Calls `char::is_alphabetic`: the ASCII letters, and beyond ASCII the
/// answer named by `non_ascii_alphabetic`.
#[verifier::external_body]
pub(crate) fn is_alphabetic(c: char) -> (b: bool)
    ensures
        b == (if (c as int) < 128 { ascii_letter(c) } else { non_ascii_alphabetic(c) }),
{
    c.is_alphabetic()
}

/// Calls `char::is_alphanumeric`, which std documents as `is_alphabetic() ||
/// is_numeric()`: among ASCII characters the letters and digits, and beyond
/// ASCII the answers named by `non_ascii_alphabetic` and `non_ascii_numeric`.
#[verifier::external_body]
pub(crate) fn is_alphanumeric(c: char) -> (b: bool)
    ensures
        b == (if (c as int) < 128 {
            ascii_letter(c) || is_digit(c)
        } else {
            non_ascii_alphabetic(c) || non_ascii_numeric(c)
        }),
{
    c.is_alphanumeric()
}

/// Formats a string with `{:?}` (std's `Debug` for `str`); the text is named
/// by `debug_quoted`.
#[verifier::external_body]
pub(crate) fn debug_string(s: &str) -> (r: String)
    ensures
        r@ == debug_quoted(s@),
{
    format!("{:?}", s)
}

/// Collects characters into a `String` (std's `FromIterator<char>`), which
/// holds exactly those characters in order.
#[verifier::external_body]
pub(crate) fn string_from_chars(cs: &Vec<char>) -> (s: String)
    ensures
        s@ == cs@,
{
    cs.iter().collect()
}

/// The characters of `s`, in order.
pub fn chars_of(s: &str) -> (v: Vec<char>)
    ensures
        v@ == s@,
{
    let n = s.unicode_len();
    let mut v: Vec<char> = Vec::new();
    let mut i: usize = 0;
    while i < n
        invariant
            n == s@.len(),
            i <= n,
            v@ == s@.take(i as int),
        decreases n - i,
    {
        v.push(s.get_char(i));
        i = i + 1;
        assert(v@ =~= s@.take(i as int));
    }
    assert(s@.take(n as int) =~= s@);
    v
}

fn push_nat_text(m: u64, out: &mut Vec<char>)
    ensures
        final(out)@ == old(out)@ + nat_text(m as nat),
    decreases m,
{
    if m >= 10 {
        push_nat_text(m / 10, out);
    }
    let d: u64 = m % 10;
    let c: char = char_of_digit(d);
    out.push(c);
    assert(final(out)@ =~= old(out)@ + nat_text(m as nat));
}

fn char_of_digit(d: u64) -> (c: char)
    requires
        d < 10,
    ensures
        c == digit_char(d as nat),
{
    if d == 0 { '0' }
    else if d == 1 { '1' }
    else if d == 2 { '2' }
    else if d == 3 { '3' }
    else if d == 4 { '4' }
    else if d == 5 { '5' }
    else if d == 6 { '6' }
    else if d == 7 { '7' }
    else if d == 8 { '8' }
    else { '9' }
}

/// Decimal text of `n`, as `i64`'s `Display` writes it.
pub fn int_to_string(n: i64) -> (s: String)
    ensures
        s@ == int_text(n as int),
{
    let mut cs: Vec<char> = Vec::new();
    if n < 0 {
        cs.push('-');
        let m: u64 = if n == i64::MIN {
            9223372036854775808u64
        } else {
            (-n) as u64
        };
        push_nat_text(m, &mut cs);
    } else {
        push_nat_text(n as u64, &mut cs);
    }
    string_from_chars(&cs)
}

/// Decimal text of `n`, as `u64`'s `Display` writes it.
pub fn uint_to_string(n: u64) -> (s: String)
    ensures
        s@ == nat_text(n as nat),
        s@ == int_text(n as int),
{
    let mut cs: Vec<char> = Vec::new();
    push_nat_text(n, &mut cs);
    assert(cs@ =~= nat_text(n as nat));
    string_from_chars(&cs)
}

/// Whether `s` holds exactly the text `w`.
pub fn spells_string(s: &String, w: &str) -> (b: bool)
    ensures
        b == (s@ == w@),
{
    let ws = String::from_str(w);
    *s == ws
}

} // verus!
