//! JSON literal text: string escaping and decimal integers.
//!
//! Everything here is stated over `Seq<char>`, the view of `str` and `String`.

use vstd::prelude::*;
use vstd::string::*;

verus! {

/// `String::push` appends exactly one character to the end of the string.
pub assume_specification[ std::string::String::push ](s: &mut std::string::String, c: char)
    ensures
        final(s)@ == old(s)@.push(c),
;

/// `str::ends_with`, called with a `char` pattern, tells whether the string's last character is
/// that character; an empty string ends with nothing.
#[verifier::external_body]
pub(crate) fn ends_with_char(s: &str, c: char) -> (r: bool)
    ensures
        r == (s@.len() > 0 && s@.last() == c),
{
    s.ends_with(c)
}

/// The character that writes the digit `d` in base sixteen, lower case.
pub open spec fn hex_digit(d: int) -> char {
    if d == 0 {
        '0'
    } else if d == 1 {
        '1'
    } else if d == 2 {
        '2'
    } else if d == 3 {
        '3'
    } else if d == 4 {
        '4'
    } else if d == 5 {
        '5'
    } else if d == 6 {
        '6'
    } else if d == 7 {
        '7'
    } else if d == 8 {
        '8'
    } else if d == 9 {
        '9'
    } else if d == 10 {
        'a'
    } else if d == 11 {
        'b'
    } else if d == 12 {
        'c'
    } else if d == 13 {
        'd'
    } else if d == 14 {
        'e'
    } else {
        'f'
    }
}

/// The decimal digits of a natural number, most significant first, without leading zeros.
pub open spec fn digits(n: nat) -> Seq<char>
    decreases n,
{
    if n < 10 {
        seq![hex_digit(n as int)]
    } else {
        digits(n / 10).push(hex_digit((n % 10) as int))
    }
}

/// The JSON literal of an integer: its decimal digits, after a minus sign when it is negative.
pub open spec fn decimal(i: int) -> Seq<char> {
    if i < 0 {
        seq!['-'] + digits((-i) as nat)
    } else {
        digits(i as nat)
    }
}

/// How one character of a string is written inside a JSON string literal: the quote and the
/// backslash behind a backslash, a control character by its short escape or as `\u00XX`, and
/// any other character as itself.
pub open spec fn escape_char(c: char) -> Seq<char> {
    if c == '"' {
        seq!['\\', '"']
    } else if c == '\\' {
        seq!['\\', '\\']
    } else if c == '\n' {
        seq!['\\', 'n']
    } else if c == '\r' {
        seq!['\\', 'r']
    } else if c == '\t' {
        seq!['\\', 't']
    } else if c == '\u{8}' {
        seq!['\\', 'b']
    } else if c == '\u{c}' {
        seq!['\\', 'f']
    } else if (c as u32) < 0x20 {
        seq!['\\', 'u', '0', '0', hex_digit((c as u32 / 16) as int), hex_digit((c as u32 % 16) as int)]
    } else {
        seq![c]
    }
}

/// The characters of `s`, each written as `escape_char` says.
pub open spec fn escaped(s: Seq<char>) -> Seq<char>
    decreases s.len(),
{
    if s.len() == 0 {
        Seq::empty()
    } else {
        escaped(s.drop_last()) + escape_char(s.last())
    }
}

/// The JSON string literal of `s`: its escaped characters between two quotes.
pub open spec fn quoted(s: Seq<char>) -> Seq<char> {
    seq!['"'] + escaped(s) + seq!['"']
}

/// True of a text that holds no control character: no line feed, no NUL, nothing below the
/// space.
pub open spec fn is_clean(s: Seq<char>) -> bool {
    forall|i: int| 0 <= i < s.len() ==> (#[trigger] s[i] as u32) >= 0x20
}

/// Two clean texts, one behind the other, are a clean text.
pub proof fn lemma_clean_concat(a: Seq<char>, b: Seq<char>)
    requires
        is_clean(a),
        is_clean(b),
    ensures
        is_clean(a + b),
{
    assert forall|i: int| 0 <= i < (a + b).len() implies (#[trigger] (a + b)[i] as u32)
        >= 0x20 by {
        if i < a.len() {
            assert((a + b)[i] == a[i]);
        } else {
            assert((a + b)[i] == b[i - a.len()]);
        }
    }
}

/// Every character is escaped to a clean text.
proof fn lemma_escape_char_is_clean(c: char)
    ensures
        is_clean(escape_char(c)),
{
    let d = (c as u32) as int;
    if (c as u32) < 0x20 {
        assert(0 <= d / 16 < 2);
        assert(0 <= d % 16 < 16);
    }
}

/// An escaped string is clean: inside a string literal a line feed or a NUL never stands as
/// itself.
pub proof fn lemma_escaped_is_clean(s: Seq<char>)
    ensures
        is_clean(escaped(s)),
        is_clean(quoted(s)),
    decreases s.len(),
{
    if s.len() > 0 {
        lemma_escaped_is_clean(s.drop_last());
        lemma_escape_char_is_clean(s.last());
        lemma_clean_concat(escaped(s.drop_last()), escape_char(s.last()));
    }
    lemma_clean_concat(seq!['"'], escaped(s));
    lemma_clean_concat(seq!['"'] + escaped(s), seq!['"']);
}

/// The digits of a number are clean.
proof fn lemma_digits_are_clean(n: nat)
    ensures
        is_clean(digits(n)),
    decreases n,
{
    if n >= 10 {
        lemma_digits_are_clean(n / 10);
        lemma_clean_concat(digits(n / 10), seq![hex_digit((n % 10) as int)]);
        assert(digits(n / 10).push(hex_digit((n % 10) as int)) == digits(n / 10) + seq![
            hex_digit((n % 10) as int),
        ]);
    }
}

/// The decimal text of an integer is clean.
pub proof fn lemma_decimal_is_clean(i: int)
    ensures
        is_clean(decimal(i)),
{
    if i < 0 {
        lemma_digits_are_clean((-i) as nat);
        lemma_clean_concat(seq!['-'], digits((-i) as nat));
    } else {
        lemma_digits_are_clean(i as nat);
    }
}

/// The character of one digit.
fn digit_char(d: u8) -> (c: char)
    requires
        d < 16,
    ensures
        c == hex_digit(d as int),
{
    if d == 0 {
        '0'
    } else if d == 1 {
        '1'
    } else if d == 2 {
        '2'
    } else if d == 3 {
        '3'
    } else if d == 4 {
        '4'
    } else if d == 5 {
        '5'
    } else if d == 6 {
        '6'
    } else if d == 7 {
        '7'
    } else if d == 8 {
        '8'
    } else if d == 9 {
        '9'
    } else if d == 10 {
        'a'
    } else if d == 11 {
        'b'
    } else if d == 12 {
        'c'
    } else if d == 13 {
        'd'
    } else if d == 14 {
        'e'
    } else {
        'f'
    }
}

/// Appends the decimal digits of `n` to `out`.
fn push_digits(out: &mut String, n: u64)
    ensures
        final(out)@ == old(out)@ + digits(n as nat),
    decreases n,
{
    if n < 10 {
        out.push(digit_char(n as u8));
    } else {
        push_digits(out, n / 10);
        out.push(digit_char((n % 10) as u8));
    }
}

/// Appends the JSON literal of `value` to `out`.
pub fn push_decimal(out: &mut String, value: i64)
    ensures
        final(out)@ == old(out)@ + decimal(value as int),
{
    if value < 0 {
        out.push('-');
        let magnitude: u64 = (-(value + 1)) as u64 + 1;
        push_digits(out, magnitude);
    } else {
        push_digits(out, value as u64);
    }
}

/// Appends one character of a string literal to `out`, escaped where JSON asks for it.
pub fn push_escaped_char(out: &mut String, c: char)
    ensures
        final(out)@ == old(out)@ + escape_char(c),
{
    if c == '"' {
        out.push('\\');
        out.push('"');
    } else if c == '\\' {
        out.push('\\');
        out.push('\\');
    } else if c == '\n' {
        out.push('\\');
        out.push('n');
    } else if c == '\r' {
        out.push('\\');
        out.push('r');
    } else if c == '\t' {
        out.push('\\');
        out.push('t');
    } else if c == '\u{8}' {
        out.push('\\');
        out.push('b');
    } else if c == '\u{c}' {
        out.push('\\');
        out.push('f');
    } else if (c as u32) < 0x20 {
        let code: u32 = c as u32;
        out.push('\\');
        out.push('u');
        out.push('0');
        out.push('0');
        out.push(digit_char((code / 16) as u8));
        out.push(digit_char((code % 16) as u8));
    } else {
        out.push(c);
    }
}

/// Appends the escaped characters of `s` to `out`.
pub fn push_escaped(out: &mut String, s: &str)
    ensures
        final(out)@ == old(out)@ + escaped(s@),
{
    broadcast use vstd::string::group_string_axioms;

    let ghost start = out@;
    for c in it: s.chars()
        invariant
            it.seq() == s@,
            out@ == start + escaped(s@.take(it.index())),
    {
        proof {
            let i = it.index();
            assert(s@.take(i + 1).drop_last() == s@.take(i));
            assert(s@.take(i + 1).last() == c);
        }
        push_escaped_char(out, c);
    }
    assert(s@.take(s@.len() as int) == s@);
}

/// Appends the JSON string literal of `s` to `out`.
pub fn push_quoted(out: &mut String, s: &str)
    ensures
        final(out)@ == old(out)@ + quoted(s@),
{
    out.push('"');
    push_escaped(out, s);
    out.push('"');
}

} // verus!
