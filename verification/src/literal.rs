//! Integer literals: the shape of their text, checked here, and their value,
//! read by `syn`.

use vstd::prelude::*;
use vstd::string::StrSliceExecFns;

verus! {

/// The bases an integer literal can be written in.
#[derive(Clone, Copy, Debug, PartialEq, Eq, Structural)]
pub enum Base {
    Binary,
    Octal,
    Decimal,
    Hexadecimal,
}

/// Whether a character is a digit of the base.
pub open spec fn is_digit_in(c: char, base: Base) -> bool {
    match base {
        Base::Binary => c == '0' || c == '1',
        Base::Octal => '0' <= c && c <= '7',
        Base::Decimal => '0' <= c && c <= '9',
        Base::Hexadecimal => ('0' <= c && c <= '9') || ('a' <= c && c <= 'f') || ('A' <= c && c
            <= 'F'),
    }
}

/// Whether a character can stand among the digits: a digit of the base or
/// the separator `_`.
pub open spec fn is_digit_or_separator(c: char, base: Base) -> bool {
    is_digit_in(c, base) || c == '_'
}

/// Whether a character is a letter of the ASCII alphabet.
pub open spec fn is_ascii_letter(c: char) -> bool {
    ('a' <= c && c <= 'z') || ('A' <= c && c <= 'Z')
}

/// Whether a character can stand in a suffix: an ASCII letter, a decimal
/// digit or `_`.
pub open spec fn is_suffix_char(c: char) -> bool {
    is_ascii_letter(c) || ('0' <= c && c <= '9') || c == '_'
}

/// The base that the text announces: `0x`, `0o` and `0b` in front, decimal
/// otherwise.
pub open spec fn base_of(text: Seq<char>) -> Base {
    if text.len() >= 2 && text[0] == '0' && text[1] == 'x' {
        Base::Hexadecimal
    } else if text.len() >= 2 && text[0] == '0' && text[1] == 'o' {
        Base::Octal
    } else if text.len() >= 2 && text[0] == '0' && text[1] == 'b' {
        Base::Binary
    } else {
        Base::Decimal
    }
}

/// Where the digits begin: after the two characters that announce a base,
/// if there are any.
pub open spec fn digits_start(text: Seq<char>) -> int {
    if base_of(text) is Decimal {
        0
    } else {
        2
    }
}

/// Whether the digits and separators run from `digits_start` up to `end`
/// and no further.
pub open spec fn digits_end_at(text: Seq<char>, end: int) -> bool {
    &&& digits_start(text) <= end <= text.len()
    &&& forall|k: int|
        digits_start(text) <= k < end ==> is_digit_or_separator(#[trigger] text[k], base_of(text))
    &&& end < text.len() ==> !is_digit_or_separator(text[end], base_of(text))
}

/// Whether a digit of the base stands between `digits_start` and `end`.
pub open spec fn has_digit_before(text: Seq<char>, end: int) -> bool {
    exists|k: int| digits_start(text) <= k < end && is_digit_in(#[trigger] text[k], base_of(text))
}

/// Whether what stands from `end` on is no suffix at all or a suffix: ASCII
/// letters, digits and `_`, beginning with a letter other than `e` and `E`,
/// which would begin an exponent.
pub open spec fn is_suffix_from(text: Seq<char>, end: int) -> bool {
    end == text.len() || {
        &&& 0 <= end < text.len()
        &&& is_ascii_letter(text[end])
        &&& text[end] != 'e'
        &&& text[end] != 'E'
        &&& forall|k: int| end < k < text.len() ==> is_suffix_char(#[trigger] text[k])
    }
}

/// Whether the text has the shape of an integer literal: decimal digits and
/// `_` beginning with a digit, or `0x`, `0o` or `0b` and then digits of that
/// base and `_` with at least one digit; after that nothing or a suffix.
pub open spec fn has_int_literal_shape(text: Seq<char>) -> bool {
    &&& text.len() > 0
    &&& '0' <= text[0] && text[0] <= '9'
    &&& exists|end: int|
        digits_end_at(text, end) && has_digit_before(text, end) && is_suffix_from(text, end)
}

/// The value that the text of an integer literal stands for as `syn` reads
/// it, in any base, with separators, with or without a suffix; `None` where
/// the value does not fit.
pub uninterp spec fn int_literal_value(text: Seq<char>) -> Option<u64>;

/// Reads the text of an integer literal. The body hands the text to
/// `syn::parse_str` for a `syn::LitInt` and asks the literal for its value
/// with `LitInt::base10_parse`; the result is `None` where either of them
/// refuses. The text must have the shape of an integer literal: every lexer
/// reads such a text as one literal, and `syn` panics on some literals of
/// other kinds.
#[verifier::external_body]
fn parse_int_literal(text: &str) -> (value: Option<u64>)
    requires
        has_int_literal_shape(text@),
    ensures
        value == int_literal_value(text@),
{
    match syn::parse_str::<syn::LitInt>(text) {
        Ok(literal) => literal.base10_parse::<u64>().ok(),
        Err(_) => None,
    }
}

/// The value of a literal's text as a bound: the text has to have the shape
/// of an integer literal and a value that fits.
pub open spec fn bound_value_of(text: Seq<char>) -> Option<u64> {
    if has_int_literal_shape(text) {
        int_literal_value(text)
    } else {
        None
    }
}

/// Tells whether a character can stand among the digits of the base.
fn digit_or_separator(c: char, base: Base) -> (ok: (bool, bool))
    ensures
        ok.0 == is_digit_or_separator(c, base),
        ok.1 == is_digit_in(c, base),
{
    let digit = match base {
        Base::Binary => c == '0' || c == '1',
        Base::Octal => '0' <= c && c <= '7',
        Base::Decimal => '0' <= c && c <= '9',
        Base::Hexadecimal => ('0' <= c && c <= '9') || ('a' <= c && c <= 'f') || ('A' <= c && c
            <= 'F'),
    };
    (digit || c == '_', digit)
}

/// Tells whether a character can stand in a suffix, and whether it can
/// begin one.
fn suffix_char(c: char) -> (ok: (bool, bool))
    ensures
        ok.0 == is_suffix_char(c),
        ok.1 == (is_ascii_letter(c) && c != 'e' && c != 'E'),
{
    let letter = ('a' <= c && c <= 'z') || ('A' <= c && c <= 'Z');
    (letter || ('0' <= c && c <= '9') || c == '_', letter && c != 'e' && c != 'E')
}

/// Tells whether a text has the shape of an integer literal.
pub fn is_int_literal(text: &str) -> (ok: bool)
    ensures
        ok == has_int_literal_shape(text@),
{
    let len = text.unicode_len();
    if len == 0 {
        return false;
    }
    let first = text.get_char(0);
    if !('0' <= first && first <= '9') {
        return false;
    }
    let base = if len < 2 || first != '0' {
        Base::Decimal
    } else {
        let second = text.get_char(1);
        if second == 'x' {
            Base::Hexadecimal
        } else if second == 'o' {
            Base::Octal
        } else if second == 'b' {
            Base::Binary
        } else {
            Base::Decimal
        }
    };
    let start: usize = match base {
        Base::Decimal => 0,
        _ => 2,
    };
    let mut end: usize = start;
    let mut digit_seen = false;
    while end < len
        invariant
            len == text@.len(),
            base == base_of(text@),
            start == digits_start(text@),
            start <= end <= len,
            forall|k: int| start <= k < end ==> is_digit_or_separator(#[trigger] text@[k], base),
            digit_seen == has_digit_before(text@, end as int),
        ensures
            end < len ==> !is_digit_or_separator(text@[end as int], base),
        decreases len - end,
    {
        let (fits, digit) = digit_or_separator(text.get_char(end), base);
        if !fits {
            break ;
        }
        proof {
            if digit {
                assert(is_digit_in(text@[end as int], base));
            } else if has_digit_before(text@, end + 1) {
                let k = choose|k: int|
                    start <= k < end + 1 && is_digit_in(#[trigger] text@[k], base);
                assert(k < end);
            }
        }
        digit_seen = digit_seen || digit;
        end += 1;
    }
    assert(digits_end_at(text@, end as int));
    assert forall|other: int| digits_end_at(text@, other) implies other == end by {
        if other < end {
            assert(is_digit_or_separator(text@[other], base));
        }
        if end < other {
            assert(is_digit_or_separator(text@[end as int], base));
        }
    }
    if !digit_seen {
        return false;
    }
    if end == len {
        return true;
    }
    let (_, begins) = suffix_char(text.get_char(end));
    if !begins {
        return false;
    }
    let mut at: usize = end + 1;
    while at < len
        invariant
            len == text@.len(),
            end < at <= len,
            forall|k: int| end < k < at ==> is_suffix_char(#[trigger] text@[k]),
        decreases len - at,
    {
        let (fits, _) = suffix_char(text.get_char(at));
        if !fits {
            assert(!is_suffix_char(text@[at as int]));
            return false;
        }
        at += 1;
    }
    true
}

/// Reads the text of a literal as a bound of the range.
pub fn bound_value(text: &str) -> (value: Option<u64>)
    ensures
        value == bound_value_of(text@),
{
    if is_int_literal(text) {
        parse_int_literal(text)
    } else {
        None
    }
}

} // verus!
