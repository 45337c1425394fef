//! Buffer sizes given as text, such as `4KiB` or `1 MB`.
use vstd::prelude::*;
use std::str::FromStr;
use vstd::string::StringSliceAdditionalSpecFns;

verus! {

#[verifier::external_type_specification]
#[verifier::external_body]
pub struct ExByteParseError(byte_unit::ParseError);

/// Why a buffer size was refused.
#[derive(PartialEq, Eq, Structural, Clone, Copy, Debug)]
pub enum SizeError {
    /// The text names a unit of bits.
    BitUnit,
    /// The text is not a size.
    Unparsable,
    /// The size is zero.
    Zero,
}

/// The number of bytes that byte-unit reads in a size text, if it reads one.
pub uninterp spec fn byte_size_of(s: Seq<char>) -> Option<u128>;

/// Relies on byte-unit's `Byte::from_str`: a number with an optional
/// decimal or binary unit, read as a count of bytes.
#[verifier::external_body]
fn parse_byte_size(s: &str) -> (r: Result<u128, byte_unit::ParseError>)
    ensures
        r is Ok <==> byte_size_of(s@) is Some,
        r is Ok ==> r->Ok_0 == byte_size_of(s@)->Some_0,
{
    byte_unit::Byte::from_str(s).map(|b| b.as_u128())
}

pub open spec fn ascii_lower(c: u8) -> u8 {
    if 0x41 <= c <= 0x5A {
        (c + 0x20) as u8
    } else {
        c
    }
}

/// Whether the text ends in a unit of bits: a lower-case `b`, or `bit` in
/// any case after at least one other byte.
pub open spec fn names_bit_unit(b: Seq<u8>) -> bool {
    ||| b.len() > 0 && b.last() == 0x62
    ||| b.len() > 3 && ascii_lower(b[b.len() - 3]) == 0x62 && ascii_lower(b[b.len() - 2]) == 0x69
        && ascii_lower(b[b.len() - 1]) == 0x74
}

fn lower(c: u8) -> (r: u8)
    ensures
        r == ascii_lower(c),
{
    if 0x41 <= c && c <= 0x5A {
        c + 0x20
    } else {
        c
    }
}

/// A size that byte-unit read, or `None` where it read none, taken as a
/// buffer size: only a positive size is one.
pub open spec fn accepted_size(parsed: Option<u128>) -> Result<u128, SizeError> {
    match parsed {
        None => Err(SizeError::Unparsable),
        Some(size) => if size == 0 {
            Err(SizeError::Zero)
        } else {
            Ok(size)
        },
    }
}

/// Accepts a size that byte-unit read, or `None` where it read none: only
/// a positive size is a buffer size.
pub fn accept_buffer_size(parsed: Option<u128>) -> (r: Result<u128, SizeError>)
    ensures
        r == accepted_size(parsed),
{
    match parsed {
        None => Err(SizeError::Unparsable),
        Some(size) => if size == 0 {
            Err(SizeError::Zero)
        } else {
            Ok(size)
        },
    }
}

/// Reads a buffer size in bytes. Units of bits are refused, as are texts
/// that are no size and a size of zero.
pub fn parse_buffer_size_var(s: &str) -> (r: Result<u128, SizeError>)
    ensures
        names_bit_unit(s.spec_bytes()) ==> r == Err::<u128, SizeError>(SizeError::BitUnit),
        !names_bit_unit(s.spec_bytes()) ==> r == accepted_size(byte_size_of(s@)),
{
    let b = s.as_bytes();
    let len = b.len();
    if len > 0 && b[len - 1] == 0x62 {
        return Err(SizeError::BitUnit);
    }
    if len > 3 && lower(b[len - 3]) == 0x62 && lower(b[len - 2]) == 0x69 && lower(b[len - 1]) == 0x74 {
        return Err(SizeError::BitUnit);
    }
    let parsed = match parse_byte_size(s) {
        Ok(size) => Some(size),
        Err(_) => None,
    };
    accept_buffer_size(parsed)
}

} // verus!
