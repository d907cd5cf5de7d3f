//! Decoding of the flag byte that a sender puts before its identifier.

use vstd::prelude::*;
use crate::aircraft::AircraftType;
use crate::text::{chars_of, digit_value, is_digit, text_view};

verus! {

/// Whether `c` is a hexadecimal digit, in either case.
pub open spec fn is_hex_digit(c: char) -> bool {
    is_digit(c) || 'a' <= c <= 'f' || 'A' <= c <= 'F'
}

/// The number that the hexadecimal digit `c` stands for.
pub open spec fn hex_digit_value(c: char) -> nat {
    if is_digit(c) {
        digit_value(c)
    } else if 'a' <= c <= 'f' {
        (c as nat - 'a' as nat + 10) as nat
    } else {
        (c as nat - 'A' as nat + 10) as nat
    }
}

/// Whether every character of `text` is a hexadecimal digit.
pub open spec fn all_hex_digits(text: Seq<char>) -> bool {
    forall|i: int| 0 <= i < text.len() ==> is_hex_digit(#[trigger] text[i])
}

/// The number that the hexadecimal digits `digits` write; 0 for no digits.
pub open spec fn hex_value(digits: Seq<char>) -> nat
    decreases digits.len(),
{
    if digits.len() == 0 {
        0
    } else {
        hex_value(digits.drop_last()) * 16 + hex_digit_value(digits.last())
    }
}

/// The byte that `text` writes in hexadecimal: an optional `+`, then one or
/// more hexadecimal digits of a number up to 255.
pub open spec fn hex_byte(text: Seq<char>) -> Option<u8> {
    let from: int = if text.len() > 0 && text[0] == '+' {
        1
    } else {
        0
    };
    let digits = text.subrange(from, text.len() as int);
    if digits.len() > 0 && all_hex_digits(digits) && hex_value(digits) <= 255 {
        Some(hex_value(digits) as u8)
    } else {
        None
    }
}

/// A line that the feed promises never to send.
#[derive(Clone, Copy, Debug, PartialEq, Eq, Structural)]
pub enum ProtocolViolation {
    /// The sender asked not to be shown: the stealth bit is set.
    StealthMode,
    /// The sender asked not to be tracked: the no-tracking bit is set.
    NoTracking,
}

/// What the flag byte of a sender tells of it. The byte reads, from the
/// highest bit down: stealth, no tracking, four bits of aircraft type, two
/// bits of address type.
pub open spec fn flags_meaning(flags: u8) -> Result<Option<AircraftType>, ProtocolViolation> {
    if flags & 0b1000_0000 != 0 {
        Err(ProtocolViolation::StealthMode)
    } else if flags & 0b0100_0000 != 0 {
        Err(ProtocolViolation::NoTracking)
    } else {
        Ok(AircraftType::of_code((flags >> 2) & 0b1111))
    }
}

/// A flag byte is a violation exactly where it is 0x40 or above: the
/// stealth bit makes it 0x80 or above, the no-tracking bit alone puts it
/// between 0x40 and 0x7F. Below 0x40 the type code is the byte divided by
/// four.
pub proof fn lemma_flags_meaning(flags: u8)
    ensures
        flags >= 0x80 ==> flags_meaning(flags) == Err::<Option<AircraftType>, ProtocolViolation>(
            ProtocolViolation::StealthMode,
        ),
        0x40 <= flags < 0x80 ==> flags_meaning(flags) == Err::<
            Option<AircraftType>,
            ProtocolViolation,
        >(ProtocolViolation::NoTracking),
        flags < 0x40 ==> flags_meaning(flags) == Ok::<Option<AircraftType>, ProtocolViolation>(
            AircraftType::of_code(flags / 4),
        ),
{
    assert(flags >= 0x80 <==> flags & 0b1000_0000 != 0) by (bit_vector);
    assert(flags < 0x80 ==> (flags >= 0x40 <==> flags & 0b0100_0000 != 0)) by (bit_vector);
    assert(flags < 0x40 ==> (flags >> 2) & 0b1111 == flags / 4) by (bit_vector);
}

/// The kind of aircraft that the captured flags name: none where the capture
/// is absent or writes no byte in hexadecimal, a violation where the byte has
/// the stealth or the no-tracking bit set.
pub open spec fn aircraft_type_field(capture: Option<Seq<char>>) -> Result<
    Option<AircraftType>,
    ProtocolViolation,
> {
    match capture {
        None => Ok(None),
        Some(text) => match hex_byte(text) {
            None => Ok(None),
            Some(flags) => flags_meaning(flags),
        },
    }
}

/// The number that `c` stands for as a hexadecimal digit, if it is one.
fn hex_digit_of(c: char) -> (value: Option<u8>)
    ensures
        value == if is_hex_digit(c) {
            Some(hex_digit_value(c) as u8)
        } else {
            None
        },
        value matches Some(v) ==> v <= 15,
{
    if '0' <= c && c <= '9' {
        Some((c as u32 - '0' as u32) as u8)
    } else if 'a' <= c && c <= 'f' {
        Some((c as u32 - 'a' as u32 + 10) as u8)
    } else if 'A' <= c && c <= 'F' {
        Some((c as u32 - 'A' as u32 + 10) as u8)
    } else {
        None
    }
}

/// Reads a byte written in hexadecimal.
pub fn parse_hex_byte(chars: &Vec<char>) -> (byte: Option<u8>)
    ensures
        byte == hex_byte(chars@),
{
    let n = chars.len();
    let from: usize = if n > 0 && chars[0] == '+' {
        1
    } else {
        0
    };
    if n == from {
        return None;
    }
    let ghost digits = chars@.subrange(from as int, n as int);
    let mut total: u32 = 0;
    let mut exceeded = false;
    let mut i: usize = from;
    while i < n
        invariant
            from <= i <= n == chars.len(),
            from == (if chars@.len() > 0 && chars@[0] == '+' {
                1int
            } else {
                0int
            }),
            digits == chars@.subrange(from as int, n as int),
            all_hex_digits(chars@.subrange(from as int, i as int)),
            !exceeded ==> total == hex_value(chars@.subrange(from as int, i as int)),
            !exceeded ==> total <= 255,
            exceeded ==> hex_value(chars@.subrange(from as int, i as int)) > 255,
        decreases n - i,
    {
        let c = chars[i];
        proof {
            let before = chars@.subrange(from as int, i as int);
            let after = chars@.subrange(from as int, i + 1);
            assert(after.drop_last() == before);
            assert(digits[i - from] == c);
        }
        match hex_digit_of(c) {
            None => {
                return None;
            },
            Some(digit) => {
                if !exceeded {
                    total = total * 16 + digit as u32;
                    if total > 255 {
                        exceeded = true;
                    }
                }
            },
        }
        i += 1;
    }
    if exceeded {
        None
    } else {
        Some(total as u8)
    }
}

/// What the flag byte of a sender tells of it: its kind, if the type code
/// names one, or the violation that the byte shows.
pub fn decode_flags(flags: u8) -> (meaning: Result<Option<AircraftType>, ProtocolViolation>)
    ensures
        meaning == flags_meaning(flags),
{
    if flags & 0b1000_0000 != 0 {
        Err(ProtocolViolation::StealthMode)
    } else if flags & 0b0100_0000 != 0 {
        Err(ProtocolViolation::NoTracking)
    } else {
        Ok(AircraftType::from_aprs_u8((flags >> 2) & 0b1111))
    }
}

/// The kind of aircraft that the captured flags name, such as "2D" for a
/// balloon. A byte with the stealth or the no-tracking bit set is a violation
/// of the feed's promise and comes back as an error.
pub fn get_aircraft_type_by_capture(capture: &Option<String>) -> (kind: Result<
    Option<AircraftType>,
    ProtocolViolation,
>)
    ensures
        kind == aircraft_type_field(text_view(*capture)),
{
    match capture {
        None => Ok(None),
        Some(text) => {
            let chars = chars_of(text.as_str());
            match parse_hex_byte(&chars) {
                None => Ok(None),
                Some(flags) => decode_flags(flags),
            }
        },
    }
}

} // verus!
