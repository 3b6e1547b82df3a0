//! Character classes and small verified string utilities shared by the
//! lexer, the decoder and the path logic.

use vstd::prelude::*;
use vstd::string::*;

verus! {

/// Relies on std's `String::push`: appends the given character to the end
/// of the string.
pub assume_specification[ String::push ](s: &mut String, ch: char)
    ensures
        final(s)@ == old(s)@.push(ch),
;

pub open spec fn is_digit(c: char) -> bool {
    48 <= c as u32 <= 57
}

pub open spec fn is_nonzero_digit(c: char) -> bool {
    49 <= c as u32 <= 57
}

pub open spec fn is_upper(c: char) -> bool {
    65 <= c as u32 <= 90
}

/// Characters allowed after the first character of a keyword:
/// upper-case letters, digits and `-`.
pub open spec fn is_keyword_char(c: char) -> bool {
    is_upper(c) || is_digit(c) || c == '-'
}

pub open spec fn is_hex_digit(c: char) -> bool {
    is_digit(c) || (97 <= c as u32 <= 102) || (65 <= c as u32 <= 70)
}

/// Characters that terminate a line.
pub open spec fn is_line_break(c: char) -> bool {
    c == '\r' || c == '\n'
}

pub open spec fn is_whitespace(c: char) -> bool {
    c == ' ' || c == '\t' || c == '\r' || c == '\n'
}

pub fn char_is_digit(c: char) -> (r: bool)
    ensures
        r == is_digit(c),
{
    '0' <= c && c <= '9'
}

pub fn char_is_nonzero_digit(c: char) -> (r: bool)
    ensures
        r == is_nonzero_digit(c),
{
    '1' <= c && c <= '9'
}

pub fn char_is_upper(c: char) -> (r: bool)
    ensures
        r == is_upper(c),
{
    'A' <= c && c <= 'Z'
}

pub fn char_is_keyword_char(c: char) -> (r: bool)
    ensures
        r == is_keyword_char(c),
{
    char_is_upper(c) || char_is_digit(c) || c == '-'
}

pub fn char_is_hex_digit(c: char) -> (r: bool)
    ensures
        r == is_hex_digit(c),
{
    char_is_digit(c) || ('a' <= c && c <= 'f') || ('A' <= c && c <= 'F')
}

pub fn char_is_line_break(c: char) -> (r: bool)
    ensures
        r == is_line_break(c),
{
    c == '\r' || c == '\n'
}

pub fn char_is_whitespace(c: char) -> (r: bool)
    ensures
        r == is_whitespace(c),
{
    c == ' ' || c == '\t' || c == '\r' || c == '\n'
}

/// Character-wise string equality, proved against the views.
pub fn str_eq(a: &str, b: &str) -> (r: bool)
    ensures
        r == (a@ == b@),
{
    let alen = a.unicode_len();
    let blen = b.unicode_len();
    if alen != blen {
        return false;
    }
    let mut i: usize = 0;
    while i < alen
        invariant
            alen == a@.len(),
            blen == b@.len(),
            alen == blen,
            i <= alen,
            forall|j: int| 0 <= j < i ==> a@[j] == b@[j],
        decreases alen - i,
    {
        if a.get_char(i) != b.get_char(i) {
            return false;
        }
        i += 1;
    }
    proof {
        assert(a@ =~= b@);
    }
    true
}

/// The numeric value of a decimal digit character; ten for anything else.
pub open spec fn char_digit_val(c: char) -> nat {
    if is_digit(c) {
        (c as u32 - 48) as nat
    } else {
        10
    }
}

/// The value of a string of decimal digits, most significant first.
pub open spec fn digits_val(s: Seq<char>) -> nat
    decreases s.len(),
{
    if s.len() == 0 {
        0
    } else {
        digits_val(s.drop_last()) * 10 + char_digit_val(s.last())
    }
}

/// The decimal digit character for a value below ten; `'0'` otherwise.
pub open spec fn digit_char(d: nat) -> char {
    if d == 0 {
        '0'
    } else if d == 1 {
        '1'
    } else if d == 2 {
        '2'
    } else if d == 3 {
        '3'
    } else if d == 4 {
        '4'
    } else if d == 5 {
        '5'
    } else if d == 6 {
        '6'
    } else if d == 7 {
        '7'
    } else if d == 8 {
        '8'
    } else if d == 9 {
        '9'
    } else {
        '0'
    }
}

/// The canonical decimal rendering of a number: no leading zeros, and a
/// single `'0'` for zero.
pub open spec fn spec_u64_digits(n: nat) -> Seq<char>
    decreases n,
{
    if n < 10 {
        seq![digit_char(n)]
    } else {
        spec_u64_digits(n / 10).push(digit_char(n % 10))
    }
}

pub proof fn lemma_digit_char_val(d: nat)
    requires
        d < 10,
    ensures
        char_digit_val(digit_char(d)) == d,
        is_digit(digit_char(d)),
        digit_char(d) == '0' ==> d == 0,
        d != 0 ==> is_nonzero_digit(digit_char(d)),
{
}

pub proof fn lemma_digits_val_of_u64_digits(n: nat)
    ensures
        digits_val(spec_u64_digits(n)) == n,
        spec_u64_digits(n).len() >= 1,
        forall|i: int|
            0 <= i < spec_u64_digits(n).len() ==> is_digit(#[trigger] spec_u64_digits(n)[i]),
        spec_u64_digits(n)[0] == '0' ==> n == 0,
        n > 0 ==> is_nonzero_digit(spec_u64_digits(n)[0]),
    decreases n,
{
    if n < 10 {
        lemma_digit_char_val(n);
        let s = seq![digit_char(n)];
        assert(spec_u64_digits(n) == s);
        assert(s.drop_last() =~= Seq::<char>::empty());
        assert(s.last() == digit_char(n));
        assert(digits_val(s) == digits_val(s.drop_last()) * 10 + char_digit_val(s.last()));
        assert(digits_val(s.drop_last()) == 0);
        assert(digits_val(s) == n);
    } else {
        lemma_digits_val_of_u64_digits(n / 10);
        lemma_digit_char_val(n % 10);
        let pre = spec_u64_digits(n / 10);
        assert(pre.push(digit_char(n % 10)).drop_last() =~= pre);
        assert(digits_val(spec_u64_digits(n)) == (n / 10) * 10 + n % 10);
        assert((n / 10) * 10 + n % 10 == n) by (nonlinear_arith);
    }
}

/// A digit string's value only grows when the string is extended.
pub proof fn lemma_digits_val_prefix(s: Seq<char>, k: int)
    requires
        0 <= k <= s.len(),
    ensures
        digits_val(s.take(k)) <= digits_val(s),
    decreases s.len(),
{
    if k < s.len() {
        assert(s.take(k) =~= s.drop_last().take(k));
        lemma_digits_val_prefix(s.drop_last(), k);
        assert(digits_val(s.drop_last()) * 10 >= digits_val(s.drop_last())) by (nonlinear_arith);
    } else {
        assert(s.take(k) =~= s);
    }
}

fn digit_char_exec(d: u64) -> (r: char)
    requires
        d < 10,
    ensures
        r == digit_char(d as nat),
{
    if d == 0 {
        '0'
    } else if d == 1 {
        '1'
    } else if d == 2 {
        '2'
    } else if d == 3 {
        '3'
    } else if d == 4 {
        '4'
    } else if d == 5 {
        '5'
    } else if d == 6 {
        '6'
    } else if d == 7 {
        '7'
    } else if d == 8 {
        '8'
    } else {
        '9'
    }
}

/// Render a number in decimal, matching `spec_u64_digits`.
pub fn u64_to_string(n: u64) -> (r: String)
    ensures
        r@ == spec_u64_digits(n as nat),
{
    let mut digits: Vec<char> = Vec::new();
    let mut m: u64 = n;
    if m == 0 {
        digits.push('0');
        assert(digits@ =~= spec_u64_digits(0).reverse());
    }
    while m > 0
        invariant
            spec_u64_digits(n as nat) =~= if m > 0 {
                spec_u64_digits(m as nat) + digits@.reverse()
            } else {
                digits@.reverse()
            },
        decreases m,
    {
        let d = m % 10;
        digits.push(digit_char_exec(d));
        proof {
            assert(digits@.reverse() =~= seq![digit_char(d as nat)] + digits@.drop_last().reverse());
            if m >= 10 {
                assert(spec_u64_digits(m as nat) + digits@.drop_last().reverse() =~= spec_u64_digits(
                    (m / 10) as nat,
                ) + digits@.reverse());
            } else {
                assert(spec_u64_digits(m as nat) + digits@.drop_last().reverse() =~= digits@.reverse());
            }
        }
        m = m / 10;
    }
    let mut r = String::new();
    let mut i: usize = digits.len();
    while i > 0
        invariant
            i <= digits@.len(),
            r@ =~= digits@.skip(i as int).reverse(),
        decreases i,
    {
        i = i - 1;
        r.push(digits[i]);
        proof {
            assert(digits@.skip(i as int).reverse() =~= digits@.skip(i as int + 1).reverse().push(
                digits@[i as int],
            ));
        }
    }
    proof {
        assert(digits@.skip(0) =~= digits@);
    }
    r
}

} // verus!
