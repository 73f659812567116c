//! JSON number literals, kept as text.
//!
//! A number that is not an integer travels through the library as its decimal text, so that
//! no floating-point arithmetic is needed to pass it on.

use vstd::prelude::*;
use vstd::string::*;

verus! {

/// How far a reader of a JSON number literal has come.
#[derive(Clone, Copy, Debug, PartialEq, Eq, Structural)]
pub enum Phase {
    /// Nothing read.
    Start,
    /// A minus sign.
    Minus,
    /// The single digit zero of the integer part.
    Zero,
    /// An integer part that starts with a digit from one to nine.
    Integer,
    /// The decimal point.
    Point,
    /// At least one digit behind the decimal point.
    Fraction,
    /// The letter that starts the exponent.
    Mark,
    /// The sign of the exponent.
    Sign,
    /// At least one digit of the exponent.
    Exponent,
    /// Not a number literal, whatever follows.
    Reject,
}

/// True of the ten decimal digits.
pub open spec fn is_digit(c: char) -> bool {
    '0' <= c && c <= '9'
}

/// The phase after one more character.
pub open spec fn advance(phase: Phase, c: char) -> Phase {
    match phase {
        Phase::Start => if c == '-' {
            Phase::Minus
        } else if c == '0' {
            Phase::Zero
        } else if is_digit(c) {
            Phase::Integer
        } else {
            Phase::Reject
        },
        Phase::Minus => if c == '0' {
            Phase::Zero
        } else if is_digit(c) {
            Phase::Integer
        } else {
            Phase::Reject
        },
        Phase::Zero => if c == '.' {
            Phase::Point
        } else if c == 'e' || c == 'E' {
            Phase::Mark
        } else {
            Phase::Reject
        },
        Phase::Integer => if is_digit(c) {
            Phase::Integer
        } else if c == '.' {
            Phase::Point
        } else if c == 'e' || c == 'E' {
            Phase::Mark
        } else {
            Phase::Reject
        },
        Phase::Point => if is_digit(c) {
            Phase::Fraction
        } else {
            Phase::Reject
        },
        Phase::Fraction => if is_digit(c) {
            Phase::Fraction
        } else if c == 'e' || c == 'E' {
            Phase::Mark
        } else {
            Phase::Reject
        },
        Phase::Mark => if c == '+' || c == '-' {
            Phase::Sign
        } else if is_digit(c) {
            Phase::Exponent
        } else {
            Phase::Reject
        },
        Phase::Sign => if is_digit(c) {
            Phase::Exponent
        } else {
            Phase::Reject
        },
        Phase::Exponent => if is_digit(c) {
            Phase::Exponent
        } else {
            Phase::Reject
        },
        Phase::Reject => Phase::Reject,
    }
}

/// The phase after all the characters of `s`.
pub open spec fn phase_after(s: Seq<char>) -> Phase
    decreases s.len(),
{
    if s.len() == 0 {
        Phase::Start
    } else {
        advance(phase_after(s.drop_last()), s.last())
    }
}

/// True of the phases in which a complete number literal has been read.
pub open spec fn is_complete(phase: Phase) -> bool {
    phase == Phase::Zero || phase == Phase::Integer || phase == Phase::Fraction || phase
        == Phase::Exponent
}

/// True of the JSON number literals: an optional minus sign, an integer part without leading
/// zeros, an optional fraction and an optional exponent.
pub open spec fn is_number(s: Seq<char>) -> bool {
    is_complete(phase_after(s))
}

/// The phase after the characters of `s`, read from the phase `phase` on.
pub open spec fn advance_all(phase: Phase, s: Seq<char>) -> Phase
    decreases s.len(),
{
    if s.len() == 0 {
        phase
    } else {
        advance(advance_all(phase, s.drop_last()), s.last())
    }
}

/// Reading a text in two parts ends in the phase of reading it whole.
pub proof fn lemma_advance_concat(phase: Phase, a: Seq<char>, b: Seq<char>)
    ensures
        advance_all(phase, a + b) == advance_all(advance_all(phase, a), b),
    decreases b.len(),
{
    if b.len() == 0 {
        assert(a + b == a);
    } else {
        assert((a + b).drop_last() == a + b.drop_last());
        assert((a + b).last() == b.last());
        lemma_advance_concat(phase, a, b.drop_last());
    }
}

/// Reading from the start is reading all the characters.
proof fn lemma_phase_after_is_advance_all(s: Seq<char>)
    ensures
        phase_after(s) == advance_all(Phase::Start, s),
    decreases s.len(),
{
    if s.len() > 0 {
        lemma_phase_after_is_advance_all(s.drop_last());
    }
}

/// The digits of a number that is not zero are an integer part, at the start of a literal or
/// behind its minus sign.
proof fn lemma_digits_are_an_integer_part(phase: Phase, n: nat)
    requires
        n >= 1,
        phase == Phase::Start || phase == Phase::Minus,
    ensures
        advance_all(phase, crate::text::digits(n)) == Phase::Integer,
    decreases n,
{
    let text = crate::text::digits(n);
    if n < 10 {
        assert(text.drop_last() == Seq::<char>::empty());
        assert(text.last() == crate::text::hex_digit(n as int));
        assert(advance_all(phase, text.drop_last()) == phase);
    } else {
        let d = crate::text::hex_digit((n % 10) as int);
        assert(text.drop_last() == crate::text::digits(n / 10));
        assert(text.last() == d);
        lemma_digits_are_an_integer_part(phase, n / 10);
        assert(is_digit(d));
    }
}

/// A text that a reader has not rejected holds only characters of number literals, none of
/// them a control character.
proof fn lemma_unrejected_is_clean(s: Seq<char>)
    requires
        phase_after(s) != Phase::Reject,
    ensures
        crate::text::is_clean(s),
    decreases s.len(),
{
    if s.len() > 0 {
        let c = s.last();
        assert(advance(Phase::Reject, c) == Phase::Reject);
        lemma_unrejected_is_clean(s.drop_last());
        assert(is_digit(c) || c == '-' || c == '+' || c == '.' || c == 'e' || c == 'E');
        assert forall|i: int| 0 <= i < s.len() implies (#[trigger] s[i] as u32) >= 0x20 by {
            if i < s.len() - 1 {
                assert(s[i] == s.drop_last()[i]);
            }
        }
    }
}

/// A number literal holds no control character.
pub proof fn lemma_number_is_clean(s: Seq<char>)
    requires
        is_number(s),
    ensures
        crate::text::is_clean(s),
{
    lemma_unrejected_is_clean(s);
}

/// The decimal text of every integer is a number literal.
pub proof fn lemma_decimal_is_number(i: int)
    ensures
        is_number(crate::text::decimal(i)),
{
    if i < 0 {
        let minus = seq!['-'];
        let digits = crate::text::digits((-i) as nat);
        lemma_phase_after_is_advance_all(minus + digits);
        lemma_advance_concat(Phase::Start, minus, digits);
        assert(minus.drop_last() == Seq::<char>::empty());
        assert(advance_all(Phase::Start, minus.drop_last()) == Phase::Start);
        assert(advance_all(Phase::Start, minus) == Phase::Minus);
        lemma_digits_are_an_integer_part(Phase::Minus, (-i) as nat);
    } else if i == 0 {
        let zero = crate::text::digits(0);
        assert(zero.drop_last() == Seq::<char>::empty());
        assert(phase_after(zero.drop_last()) == Phase::Start);
        assert(zero.last() == '0');
    } else {
        lemma_phase_after_is_advance_all(crate::text::digits(i as nat));
        lemma_digits_are_an_integer_part(Phase::Start, i as nat);
    }
}

/// A number, by its JSON literal.
#[derive(Clone, Debug, PartialEq, Eq)]
pub struct Number {
    pub text: String,
}

impl View for Number {
    type V = Seq<char>;

    open spec fn view(&self) -> Seq<char> {
        self.text@
    }
}

fn next_phase(phase: Phase, c: char) -> (r: Phase)
    ensures
        r == advance(phase, c),
{
    let digit = '0' <= c && c <= '9';
    match phase {
        Phase::Start => if c == '-' {
            Phase::Minus
        } else if c == '0' {
            Phase::Zero
        } else if digit {
            Phase::Integer
        } else {
            Phase::Reject
        },
        Phase::Minus => if c == '0' {
            Phase::Zero
        } else if digit {
            Phase::Integer
        } else {
            Phase::Reject
        },
        Phase::Zero => if c == '.' {
            Phase::Point
        } else if c == 'e' || c == 'E' {
            Phase::Mark
        } else {
            Phase::Reject
        },
        Phase::Integer => if digit {
            Phase::Integer
        } else if c == '.' {
            Phase::Point
        } else if c == 'e' || c == 'E' {
            Phase::Mark
        } else {
            Phase::Reject
        },
        Phase::Point => if digit {
            Phase::Fraction
        } else {
            Phase::Reject
        },
        Phase::Fraction => if digit {
            Phase::Fraction
        } else if c == 'e' || c == 'E' {
            Phase::Mark
        } else {
            Phase::Reject
        },
        Phase::Mark => if c == '+' || c == '-' {
            Phase::Sign
        } else if digit {
            Phase::Exponent
        } else {
            Phase::Reject
        },
        Phase::Sign => if digit {
            Phase::Exponent
        } else {
            Phase::Reject
        },
        Phase::Exponent => if digit {
            Phase::Exponent
        } else {
            Phase::Reject
        },
        Phase::Reject => Phase::Reject,
    }
}

/// Tells whether `text` is a JSON number literal.
pub fn is_number_text(text: &str) -> (r: bool)
    ensures
        r == is_number(text@),
{
    broadcast use vstd::string::group_string_axioms;

    let mut phase = Phase::Start;
    for c in it: text.chars()
        invariant
            it.seq() == text@,
            phase == phase_after(text@.take(it.index())),
    {
        proof {
            let i = it.index();
            assert(text@.take(i + 1).drop_last() == text@.take(i));
            assert(text@.take(i + 1).last() == c);
        }
        phase = next_phase(phase, c);
    }
    assert(text@.take(text@.len() as int) == text@);
    phase == Phase::Zero || phase == Phase::Integer || phase == Phase::Fraction || phase
        == Phase::Exponent
}

impl Number {
    /// The number with the literal `text`, if `text` is a number literal.
    pub fn parse(text: &str) -> (r: Option<Number>)
        ensures
            match r {
                Some(number) => is_number(text@) && number@ == text@,
                None => !is_number(text@),
            },
    {
        if is_number_text(text) {
            Some(Number { text: text.to_owned() })
        } else {
            None
        }
    }

    /// The number of an integer.
    pub fn from_integer(value: i64) -> (r: Number)
        ensures
            r@ == crate::text::decimal(value as int),
            is_number(r@),
    {
        proof {
            lemma_decimal_is_number(value as int);
        }
        let mut text = String::new();
        crate::text::push_decimal(&mut text, value);
        Number { text }
    }

    /// Whether the text held is a number literal.
    pub fn is_valid(&self) -> (r: bool)
        ensures
            r == is_number(self@),
    {
        is_number_text(self.text.as_str())
    }
}

} // verus!
