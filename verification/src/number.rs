//! Reading a 16-bit USB identifier, in decimal or, after `0x`, in hexadecimal.

use vstd::prelude::*;
use vstd::slice::slice_subrange;
use vstd::string::StringSliceAdditionalSpecFns;

verus! {

/// Why a text is not a 16-bit number.
#[derive(Clone, Copy, Debug, PartialEq, Eq, Structural)]
pub enum ParseError {
    /// There is nothing to read.
    Empty,
    /// A byte is not a digit of the radix, or a sign stands alone.
    InvalidDigit,
    /// The number is larger than 65535.
    PosOverflow,
}

/// The value of the ASCII digit `b` in `radix`: `0`-`9`, then letters of
/// either case from ten upwards.
pub open spec fn digit_value(b: u8, radix: int) -> Option<int> {
    let v: int = if 0x30 <= b <= 0x39 {
        b - 0x30
    } else if 0x61 <= b <= 0x7a {
        b - 0x61 + 10
    } else if 0x41 <= b <= 0x5a {
        b - 0x41 + 10
    } else {
        radix
    };
    if v < radix {
        Some(v)
    } else {
        None
    }
}

/// The number that `digits` spell in `radix`, most significant digit first.
/// The first byte that is no digit, or that takes the number past 65535,
/// decides the error.
pub open spec fn digits_value(digits: Seq<u8>, radix: int) -> Result<int, ParseError>
    decreases digits.len(),
{
    if digits.len() == 0 {
        Ok(0)
    } else {
        match digits_value(digits.drop_last(), radix) {
            Err(e) => Err(e),
            Ok(high) => match digit_value(digits.last(), radix) {
                None => Err(ParseError::InvalidDigit),
                Some(d) => if high * radix + d > u16::MAX {
                    Err(ParseError::PosOverflow)
                } else {
                    Ok(high * radix + d)
                },
            },
        }
    }
}

/// What `text` means as an unsigned 16-bit number in `radix`: digits only,
/// with one `+` allowed in front of them.
pub open spec fn number_value(text: Seq<u8>, radix: int) -> Result<int, ParseError> {
    if text.len() == 0 {
        Err(ParseError::Empty)
    } else if text.len() == 1 && (text[0] == 0x2b || text[0] == 0x2d) {
        Err(ParseError::InvalidDigit)
    } else if text[0] == 0x2b {
        digits_value(text.skip(1), radix)
    } else {
        digits_value(text, radix)
    }
}

/// `text` starts with `0x`.
pub open spec fn has_hex_prefix(text: Seq<u8>) -> bool {
    text.len() >= 2 && text[0] == 0x30 && text[1] == 0x78
}

/// What `text` means as a USB identifier: hexadecimal after `0x`, decimal
/// otherwise.
pub open spec fn hex_16_value(text: Seq<u8>) -> Result<int, ParseError> {
    if has_hex_prefix(text) {
        number_value(text.skip(2), 16)
    } else {
        number_value(text, 10)
    }
}

/// A parsed number and the value it stands for.
pub open spec fn same_outcome(r: Result<u16, ParseError>, value: Result<int, ParseError>) -> bool {
    match r {
        Ok(n) => value == Ok::<int, ParseError>(n as int),
        Err(e) => value == Err::<int, ParseError>(e),
    }
}

fn digit_of(b: u8, radix: u32) -> (r: Option<u32>)
    requires
        2 <= radix <= 36,
    ensures
        match r {
            Some(d) => digit_value(b, radix as int) == Some(d as int) && d < radix,
            None => digit_value(b, radix as int) is None,
        },
{
    let v: u32 = if 0x30 <= b && b <= 0x39 {
        (b - 0x30) as u32
    } else if 0x61 <= b && b <= 0x7a {
        (b - 0x61) as u32 + 10
    } else if 0x41 <= b && b <= 0x5a {
        (b - 0x41) as u32 + 10
    } else {
        radix
    };
    if v < radix {
        Some(v)
    } else {
        None
    }
}

fn parse_digits(digits: &[u8], radix: u32) -> (r: Result<u16, ParseError>)
    requires
        2 <= radix <= 36,
    ensures
        same_outcome(r, digits_value(digits@, radix as int)),
{
    let mut value: u32 = 0;
    let mut i: usize = 0;
    proof {
        assert(digits@.take(0) =~= Seq::<u8>::empty());
    }
    while i < digits.len()
        invariant
            2 <= radix <= 36,
            i <= digits.len(),
            value <= u16::MAX,
            digits_value(digits@.take(i as int), radix as int) == Ok::<int, ParseError>(
                value as int,
            ),
        decreases digits.len() - i,
    {
        let ghost read = digits@.take(i + 1);
        proof {
            assert(read.drop_last() =~= digits@.take(i as int));
            assert(read.last() == digits@[i as int]);
        }
        match digit_of(digits[i], radix) {
            None => {
                proof {
                    lemma_error_persists(digits@, i + 1, radix as int);
                }
                return Err(ParseError::InvalidDigit);
            },
            Some(d) => {
                assert(value * radix + d <= 65535 * 36 + 36) by (nonlinear_arith)
                    requires
                        value <= 65535,
                        radix <= 36,
                        d < 36,
                ;
                let next: u32 = value * radix + d;
                if next > u16::MAX as u32 {
                    proof {
                        lemma_error_persists(digits@, i + 1, radix as int);
                    }
                    return Err(ParseError::PosOverflow);
                }
                value = next;
            },
        }
        i += 1;
    }
    proof {
        assert(digits@.take(i as int) =~= digits@);
    }
    Ok(value as u16)
}

/// An error among the first `n` digits is the error of the whole.
pub proof fn lemma_error_persists(digits: Seq<u8>, n: int, radix: int)
    requires
        0 <= n <= digits.len(),
        digits_value(digits.take(n), radix) is Err,
    ensures
        digits_value(digits, radix) == digits_value(digits.take(n), radix),
    decreases digits.len() - n,
{
    if n < digits.len() {
        assert(digits.take(n + 1).drop_last() =~= digits.take(n));
        lemma_error_persists(digits, n + 1, radix);
    } else {
        assert(digits.take(n) =~= digits);
    }
}

/// Reads an unsigned 16-bit number written in `radix`, as
/// `u16::from_str_radix` does: digits only, with one `+` allowed in front.
pub fn parse_u16(text: &[u8], radix: u32) -> (r: Result<u16, ParseError>)
    requires
        2 <= radix <= 36,
    ensures
        same_outcome(r, number_value(text@, radix as int)),
{
    let len = text.len();
    if len == 0 {
        return Err(ParseError::Empty);
    }
    let first = text[0];
    if len == 1 && (first == 0x2b || first == 0x2d) {
        return Err(ParseError::InvalidDigit);
    }
    if first == 0x2b {
        parse_digits(slice_subrange(text, 1, len), radix)
    } else {
        parse_digits(text, radix)
    }
}

/// Reads a USB vendor or product identifier: hexadecimal where the text
/// starts with `0x`, decimal where it does not.
pub fn parse_hex_16(input: &str) -> (r: Result<u16, ParseError>)
    ensures
        same_outcome(r, hex_16_value(input.spec_bytes())),
{
    let text = input.as_bytes();
    let len = text.len();
    if len >= 2 && text[0] == 0x30 && text[1] == 0x78 {
        parse_u16(slice_subrange(text, 2, len), 16)
    } else {
        parse_u16(text, 10)
    }
}

} // verus!
