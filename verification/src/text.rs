//! Characters and strings: the character classes of the tokeniser, the order
//! of names, and the conversions between numbers, characters and strings.

use vstd::prelude::*;

verus! {

/// Whether `char::is_alphabetic` holds of the character (the Unicode property
/// `Alphabetic`).
pub uninterp spec fn alphabetic(c: char) -> bool;

/// Whether `char::is_numeric` holds of the character (the Unicode general
/// categories `Nd`, `Nl` and `No`).
pub uninterp spec fn numeric(c: char) -> bool;

/// `char::is_alphabetic`.
#[verifier::external_body]
pub(crate) fn is_alphabetic(c: char) -> (r: bool)
    ensures
        r == alphabetic(c),
{
    c.is_alphabetic()
}

/// `char::is_numeric`.
#[verifier::external_body]
pub(crate) fn is_numeric(c: char) -> (r: bool)
    ensures
        r == numeric(c),
{
    c.is_numeric()
}

/// `String::push`: the character is added at the end.
#[verifier::external_body]
pub(crate) fn push_char(s: &mut String, c: char)
    ensures
        final(s)@ == old(s)@.push(c),
{
    s.push(c)
}

/// Equality of string slices: they are equal when they hold the same
/// characters.
#[verifier::external_body]
pub(crate) fn str_equal(a: &str, b: &str) -> (r: bool)
    ensures
        r == (a@ == b@),
{
    a == b
}

/// The lexicographic order on character sequences, characters compared by
/// code point; a proper prefix comes first.
pub open spec fn text_less(a: Seq<char>, b: Seq<char>) -> bool
    decreases a.len(),
{
    if b.len() == 0 {
        false
    } else if a.len() == 0 {
        true
    } else if a[0] != b[0] {
        (a[0] as int) < (b[0] as int)
    } else {
        text_less(a.drop_first(), b.drop_first())
    }
}

/// The order `<` of string slices, which std documents as lexicographic by
/// byte value, and so by code point.
#[verifier::external_body]
pub(crate) fn str_less(a: &str, b: &str) -> (r: bool)
    ensures
        r == text_less(a@, b@),
{
    a < b
}

/// The characters of a string slice, in order.
pub fn chars_of(source: &str) -> (chars: Vec<char>)
    ensures
        chars@ == source@,
{
    let mut chars: Vec<char> = Vec::new();
    for c in it: source.chars()
        invariant
            chars@ == it.seq().take(it.index()),
    {
        chars.push(c);
    }
    chars
}

/// The string made of the characters `chars[from..to]`.
pub fn string_of(chars: &Vec<char>, from: usize, to: usize) -> (s: String)
    requires
        from <= to <= chars.len(),
    ensures
        s@ == chars@.subrange(from as int, to as int),
{
    let mut s = String::new();
    let mut i: usize = from;
    while i < to
        invariant
            from <= i <= to <= chars.len(),
            s@ == chars@.subrange(from as int, i as int),
        decreases to - i,
    {
        push_char(&mut s, chars[i]);
        i += 1;
    }
    s
}

/// The digits of a natural number in base ten, without leading zeros.
pub open spec fn decimal_digits(n: nat) -> Seq<char>
    decreases n,
{
    if n < 10 {
        seq![('0' as int + n) as char]
    } else {
        decimal_digits(n / 10).push(('0' as int + n % 10) as char)
    }
}

/// An integer written in base ten, with `-` before a negative one.
pub open spec fn decimal_text(value: int) -> Seq<char> {
    if value < 0 {
        seq!['-'] + decimal_digits((-value) as nat)
    } else {
        decimal_digits(value as nat)
    }
}

/// The digit for a number below ten.
fn digit_char(digit: u64) -> (c: char)
    requires
        digit < 10,
    ensures
        c == ('0' as int + digit) as char,
{
    (48u8 + digit as u8) as char
}

/// The integer written in base ten, with `-` before a negative one.
pub fn decimal_string(value: i64) -> (s: String)
    ensures
        s@ == decimal_text(value as int),
{
    let magnitude: u64 = if value < 0 {
        (-(value + 1)) as u64 + 1
    } else {
        value as u64
    };
    let mut digits: Vec<char> = Vec::new();
    digits.push(digit_char(magnitude % 10));
    let mut rest: u64 = magnitude / 10;
    while rest > 0
        invariant
            decimal_digits(magnitude as nat) == (if rest > 0 {
                decimal_digits(rest as nat)
            } else {
                Seq::empty()
            }) + digits@,
        decreases rest,
    {
        let ghost before = digits@;
        digits.insert(0, digit_char(rest % 10));
        proof {
            let higher: Seq<char> = if rest / 10 > 0 {
                decimal_digits((rest / 10) as nat)
            } else {
                Seq::empty()
            };
            assert(decimal_digits(rest as nat) =~= higher + seq![
                ('0' as int + rest % 10) as char,
            ]);
            assert(digits@ =~= seq![('0' as int + rest % 10) as char] + before);
            assert(decimal_digits(rest as nat) + before =~= higher + digits@);
        }
        rest = rest / 10;
    }
    if value < 0 {
        let ghost unsigned = digits@;
        digits.insert(0, '-');
        assert(digits@ =~= seq!['-'] + unsigned);
    }
    let s = string_of(&digits, 0, digits.len());
    proof {
        assert(digits@.subrange(0, digits.len() as int) =~= digits@);
    }
    s
}

/// Unless two texts are equal, one of them is below the other.
pub proof fn lemma_text_less_total(a: Seq<char>, b: Seq<char>)
    ensures
        a == b || text_less(a, b) || text_less(b, a),
    decreases a.len(),
{
    if a.len() > 0 && b.len() > 0 && a[0] == b[0] {
        lemma_text_less_total(a.drop_first(), b.drop_first());
        if a.drop_first() == b.drop_first() {
            assert(a.len() == b.len()) by {
                assert(a.drop_first().len() == b.drop_first().len());
            }
            assert forall|i: int| 0 <= i < a.len() implies a[i] == b[i] by {
                if i > 0 {
                    assert(a.drop_first()[i - 1] == b.drop_first()[i - 1]);
                }
            }
            assert(a =~= b);
        }
    } else if a.len() == 0 && b.len() == 0 {
        assert(a =~= b);
    }
}

} // verus!
