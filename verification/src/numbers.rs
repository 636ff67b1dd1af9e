//! Decimal integers in tokens and their English cardinal spelling.

use vstd::prelude::*;

verus! {

/// One of the ten ASCII digits.
pub open spec fn is_ascii_digit(c: char) -> bool {
    '0' <= c <= '9'
}

/// Every character of `s` is an ASCII digit.
pub open spec fn all_digits(s: Seq<char>) -> bool {
    forall|i: int| 0 <= i < s.len() ==> is_ascii_digit(#[trigger] s[i])
}

/// The number a digit stands for.
pub open spec fn digit_value(c: char) -> int {
    c as u32 as int - '0' as u32 as int
}

/// The number a digit string denotes in base ten; zero for the empty string.
pub open spec fn decimal_value(s: Seq<char>) -> int
    decreases s.len(),
{
    if s.len() == 0 {
        0
    } else {
        10 * decimal_value(s.drop_last()) + digit_value(s.last())
    }
}

/// The text carries a leading `+` or `-`.
pub open spec fn has_sign(s: Seq<char>) -> bool {
    s.len() > 0 && (s[0] == '-' || s[0] == '+')
}

/// The text after its sign, if it has one.
pub open spec fn unsigned_part(s: Seq<char>) -> Seq<char> {
    if has_sign(s) {
        s.skip(1)
    } else {
        s
    }
}

/// The signed 64-bit integer that a token denotes: an optional sign, then
/// one or more ASCII digits and nothing else, with a value in range.
pub open spec fn parses_as_i64(s: Seq<char>) -> Option<i64> {
    let digits = unsigned_part(s);
    let value = if has_sign(s) && s[0] == '-' {
        -decimal_value(digits)
    } else {
        decimal_value(digits)
    };
    if digits.len() > 0 && all_digits(digits) && i64::MIN <= value <= i64::MAX {
        Some(value as i64)
    } else {
        None
    }
}

/// The English cardinal spelling of `n` as `rust_numerals::number_to_cardinal`
/// writes it, such as "one hundred and twenty-three" for 123.
pub uninterp spec fn cardinal_of(n: i64) -> Seq<char>;

/// A token after numeric expansion: the cardinal spelling of the integer it
/// denotes, or the token itself where it denotes none.
pub open spec fn expanded(s: Seq<char>) -> Seq<char> {
    match parses_as_i64(s) {
        Some(n) => cardinal_of(n),
        None => s,
    }
}

/// Magnitude of the most negative 64-bit integer.
pub const MAGNITUDE_LIMIT: u64 = 0x8000_0000_0000_0000;

/// A digit string never denotes a negative number.
pub proof fn lemma_decimal_value_nonnegative(s: Seq<char>)
    requires
        all_digits(s),
    ensures
        0 <= decimal_value(s),
    decreases s.len(),
{
    if s.len() > 0 {
        lemma_decimal_value_nonnegative(s.drop_last());
    }
}

/// The signs are ASCII punctuation, so a text without punctuation denotes no
/// negative integer.
pub proof fn lemma_unsigned_parse_is_nonnegative(s: Seq<char>)
    requires
        !has_sign(s),
    ensures
        parses_as_i64(s) matches Some(n) ==> n >= 0,
{
    if all_digits(s) {
        lemma_decimal_value_nonnegative(s);
    }
}

/// The digits among the first `k` characters of a text: those after its sign.
pub open spec fn digits_read(s: Seq<char>, k: int) -> Seq<char> {
    unsigned_part(s).take(
        k - if has_sign(s) {
            1int
        } else {
            0int
        },
    )
}

/// Reads a token as a signed 64-bit decimal integer.
pub fn parse_i64(text: &str) -> (r: Option<i64>)
    ensures
        r == parses_as_i64(text@),
{
    let mut first = true;
    let mut negative = false;
    let mut any_digit = false;
    let mut overflow = false;
    let mut magnitude: u64 = 0;
    for c in it: text.chars()
        invariant
            it.seq() == text@,
            first == (it.index() == 0),
            negative == (it.index() > 0 && text@[0] == '-'),
            any_digit == (it.index() > 0 && digits_read(text@, it.index() as int).len() > 0),
            it.index() > 0 ==> all_digits(digits_read(text@, it.index() as int)),
            it.index() > 0 && !overflow ==> magnitude == decimal_value(
                digits_read(text@, it.index() as int),
            ),
            it.index() == 0 ==> magnitude == 0 && !overflow,
            magnitude <= MAGNITUDE_LIMIT,
            overflow ==> it.index() > 0 && decimal_value(digits_read(text@, it.index() as int))
                > MAGNITUDE_LIMIT,
    {
        let ghost k = it.index() as int;
        if first && (c == '-' || c == '+') {
            negative = c == '-';
            assert(digits_read(text@, 1) =~= Seq::<char>::empty());
        } else {
            if !('0' <= c && c <= '9') {
                assert(!is_ascii_digit(unsigned_part(text@)[digits_read(text@, k).len() as int]));
                return None;
            }
            any_digit = true;
            proof {
                assert(digits_read(text@, k + 1).drop_last() =~= digits_read(text@, k));
                assert(digits_read(text@, k + 1).last() == c);
                assert(!overflow ==> magnitude == decimal_value(digits_read(text@, k)));
            }
            if !overflow {
                let digit: u128 = (c as u32 - '0' as u32) as u128;
                let next: u128 = (magnitude as u128) * 10 + digit;
                if next > MAGNITUDE_LIMIT as u128 {
                    overflow = true;
                } else {
                    magnitude = next as u64;
                }
            }
        }
        first = false;
    }
    proof {
        if text@.len() > 0 {
            assert(digits_read(text@, text@.len() as int) =~= unsigned_part(text@));
        }
    }
    if !any_digit || overflow {
        None
    } else if negative {
        if magnitude == MAGNITUDE_LIMIT {
            Some(i64::MIN)
        } else {
            Some(-(magnitude as i64))
        }
    } else if magnitude == MAGNITUDE_LIMIT {
        None
    } else {
        Some(magnitude as i64)
    }
}

/// Calls `rust_numerals::number_to_cardinal`, whose result is a function of
/// the number alone. The most negative integer is left out: the outside
/// function negates its argument, which overflows there.
#[verifier::external_body]
fn number_to_cardinal(n: i64) -> (spelling: String)
    requires
        n != i64::MIN,
    ensures
        spelling@ == cardinal_of(n),
{
    rust_numerals::number_to_cardinal(n)
}

/// Replaces a token that denotes an integer by its English cardinal spelling
/// and returns any other token unchanged. The spelling is one token, spaces
/// and hyphens included.
pub fn convert_numbers_to_words(text: &str) -> (out: String)
    requires
        parses_as_i64(text@) != Some(i64::MIN),
    ensures
        out@ == expanded(text@),
{
    match parse_i64(text) {
        Some(n) => number_to_cardinal(n),
        None => text.to_owned(),
    }
}

} // verus!
