//! Parsing of single tokens from byte strings.

use crate::pos::files::from_utf8;
use crate::text::{decimal_spec, digit_char, lemma_decimal_value};
use vstd::pervasive::unreached;
use vstd::prelude::*;
use vstd::utf8::{decode_utf8, valid_utf8};

verus! {

/// `std::num::ParseIntError`.
#[verifier::external_type_specification]
#[verifier::external_body]
pub struct ExParseIntError(std::num::ParseIntError);

/// The value of a character as a digit, if it is one in some radix up to 36.
pub open spec fn digit_value(c: char) -> Option<int> {
    if '0' <= c <= '9' {
        Some(c as int - '0' as int)
    } else if 'a' <= c <= 'z' {
        Some(c as int - 'a' as int + 10)
    } else if 'A' <= c <= 'Z' {
        Some(c as int - 'A' as int + 10)
    } else {
        None
    }
}

/// The number that some digits stand for.  There has to be one, and all have to be below the radix.
pub open spec fn digits_value(text: Seq<char>, radix: int) -> Option<int>
    decreases text.len(),
{
    if text.len() == 0 {
        None
    } else {
        match digit_value(text.last()) {
            Some(d) => if d >= radix {
                None
            } else if text.len() == 1 {
                Some(d)
            } else {
                match digits_value(text.drop_last(), radix) {
                    Some(n) => Some(n * radix + d),
                    None => None,
                }
            },
            None => None,
        }
    }
}

/// The number that text stands for: digits, with a sign before them or not.
pub open spec fn int_value(text: Seq<char>, radix: int) -> Option<int> {
    if text.len() > 0 && text[0] == '-' {
        match digits_value(text.drop_first(), radix) {
            Some(n) => Some(-n),
            None => None,
        }
    } else if text.len() > 0 && text[0] == '+' {
        digits_value(text.drop_first(), radix)
    } else {
        digits_value(text, radix)
    }
}

/// The signed number that text stands for, if it has 32 bits.
pub open spec fn i32_value(text: Seq<char>, radix: int) -> Option<i32> {
    match int_value(text, radix) {
        Some(n) => if i32::MIN <= n <= i32::MAX {
            Some(n as i32)
        } else {
            None
        },
        None => None,
    }
}

/// The unsigned number that text stands for, if it has 32 bits.  There must be no minus sign.
pub open spec fn u32_value(text: Seq<char>, radix: int) -> Option<u32> {
    if text.len() > 0 && text[0] == '-' {
        None
    } else {
        match int_value(text, radix) {
            Some(n) => if 0 <= n <= u32::MAX {
                Some(n as u32)
            } else {
                None
            },
            None => None,
        }
    }
}

/// `i32::from_str_radix`: the number, if the text is one and it fits.
#[verifier::external_body]
fn i32_from_str_radix(text: &str, radix: u32) -> (r: Result<i32, std::num::ParseIntError>)
    requires
        2 <= radix <= 36,
    ensures
        match r {
            Ok(n) => i32_value(text@, radix as int) == Some(n),
            Err(_) => i32_value(text@, radix as int) is None,
        },
{
    i32::from_str_radix(text, radix)
}

/// `u32::from_str_radix`: the number, if the text is one and it fits.
#[verifier::external_body]
fn u32_from_str_radix(text: &str, radix: u32) -> (r: Result<u32, std::num::ParseIntError>)
    requires
        2 <= radix <= 36,
    ensures
        match r {
            Ok(n) => u32_value(text@, radix as int) == Some(n),
            Err(_) => u32_value(text@, radix as int) is None,
        },
{
    u32::from_str_radix(text, radix)
}

/// Things that can be parsed from text.
pub trait FromText: Sized {
    type Err;

    spec fn text_value(text: Seq<char>) -> Option<Self>;

    fn from_text(text: &str) -> (r: Result<Self, Self::Err>)
        ensures
            match r {
                Ok(v) => Self::text_value(text@) == Some(v),
                Err(_) => Self::text_value(text@) is None,
            },
    ;
}

impl FromText for i32 {
    type Err = std::num::ParseIntError;

    open spec fn text_value(text: Seq<char>) -> Option<i32> {
        i32_value(text, 10)
    }

    fn from_text(text: &str) -> (r: Result<i32, std::num::ParseIntError>) {
        i32_from_str_radix(text, 10)
    }
}

impl FromText for u32 {
    type Err = std::num::ParseIntError;

    open spec fn text_value(text: Seq<char>) -> Option<u32> {
        u32_value(text, 10)
    }

    fn from_text(text: &str) -> (r: Result<u32, std::num::ParseIntError>) {
        u32_from_str_radix(text, 10)
    }
}

/// Parse something from a byte string.
///
/// This is only intended for use where the input is known in advance
/// to only contain ASCII.
pub fn parse_ascii<T: FromText>(b: &[u8]) -> (r: Result<T, T::Err>)
    requires
        valid_utf8(b@),
    ensures
        match r {
            Ok(v) => T::text_value(decode_utf8(b@)) == Some(v),
            Err(_) => T::text_value(decode_utf8(b@)) is None,
        },
        exists|text: &str|
            text@ == decode_utf8(b@) && #[trigger] call_ensures(T::from_text, (text,), r),
{
    parse_utf8(b)
}

/// Parse something from a byte string.
///
/// This is only intended for use where the input is known in advance
/// to contain valid UTF-8.
pub fn parse_utf8<T: FromText>(b: &[u8]) -> (r: Result<T, T::Err>)
    requires
        valid_utf8(b@),
    ensures
        match r {
            Ok(v) => T::text_value(decode_utf8(b@)) == Some(v),
            Err(_) => T::text_value(decode_utf8(b@)) is None,
        },
        exists|text: &str|
            text@ == decode_utf8(b@) && #[trigger] call_ensures(T::from_text, (text,), r),
{
    match from_utf8(b) {
        Ok(text) => T::from_text(text),
        Err(_) => unreached(),
    }
}

/// Parse an `i32` from a byte string.
pub fn i32_from_ascii_radix(b: &[u8], radix: u32) -> (r: Result<i32, std::num::ParseIntError>)
    requires
        valid_utf8(b@),
        2 <= radix <= 36,
    ensures
        match r {
            Ok(n) => i32_value(decode_utf8(b@), radix as int) == Some(n),
            Err(_) => i32_value(decode_utf8(b@), radix as int) is None,
        },
{
    match from_utf8(b) {
        Ok(text) => i32_from_str_radix(text, radix),
        Err(_) => unreached(),
    }
}

proof fn lemma_decimal_digits(n: nat)
    ensures
        digits_value(decimal_spec(n), 10) == Some(n as int),
    decreases n,
{
    lemma_decimal_value(n);
    if n >= 10 {
        lemma_decimal_digits(n / 10);
        lemma_decimal_value(n / 10);
        assert(decimal_spec(n).drop_last() =~= decimal_spec(n / 10));
        assert(decimal_spec(n).last() == digit_char((n % 10) as int));
    } else {
        assert(decimal_spec(n).last() == digit_char(n as int));
    }
}

/// The numeral of a number is parsed to that number.
pub proof fn law_numerals_parse(n: nat)
    ensures
        int_value(decimal_spec(n), 10) == Some(n as int),
        n <= i32::MAX ==> i32_value(decimal_spec(n), 10) == Some(n as i32),
        n <= u32::MAX ==> u32_value(decimal_spec(n), 10) == Some(n as u32),
{
    lemma_decimal_digits(n);
    lemma_decimal_value(n);
    assert('0' <= decimal_spec(n)[0] <= '9');
}

/// A minus sign before a numeral negates the number.
pub proof fn law_minus_negates(n: nat)
    ensures
        int_value(seq!['-'] + decimal_spec(n), 10) == Some(-(n as int)),
{
    lemma_decimal_digits(n);
    assert((seq!['-'] + decimal_spec(n)).drop_first() =~= decimal_spec(n));
}

} // verus!
