//! Decoding of the numbers that a telemetry line carries: coordinates, and
//! quantities that are converted into metric units.

use vstd::prelude::*;
use crate::text::{
    all_digits, chars_of, decimal_value, digit_of, digit_value, find_char, index_of,
    is_ascii_digit, is_digit, is_digit_run, read_digits, text_view,
};

verus! {

/// Conversion factors and fixed-point values count hundred-thousandths.
pub const SCALE: i64 = 100_000;

/// Knots to km/h: 1.852.
pub const FACTOR_KNOTS_TO_KM_H: i64 = 185_200;

/// Feet to metres: 0.3048.
pub const FACTOR_FT_TO_M: i64 = 30_480;

/// Feet per minute to metres per second: 0.00508.
pub const FACTOR_FT_MIN_TO_M_SEC: i64 = 508;

/// Half turns per minute to turns per minute: 0.5.
pub const FACTOR_TURNS_TWO_MIN_TO_TURNS_MIN: i64 = 50_000;

/// No conversion: 1.0.
pub const FACTOR_NONE: i64 = 100_000;

/// The quotient of `a` by the positive `b`, rounded towards zero.
pub open spec fn truncated_quotient(a: int, b: int) -> int {
    if a >= 0 {
        a / b
    } else {
        -((-a) / b)
    }
}

/// The number that `text` writes as an unsigned integer: an optional `+`, then
/// one or more digits. Absent where `text` is not of that form.
pub open spec fn unsigned_number(text: Seq<char>) -> Option<nat> {
    let from: int = if text.len() > 0 && text[0] == '+' {
        1
    } else {
        0
    };
    let digits = text.subrange(from, text.len() as int);
    if digits.len() > 0 && all_digits(digits) {
        Some(decimal_value(digits))
    } else {
        None
    }
}

/// `value` times the conversion factor `factor`, given in hundred-thousandths
/// and rounded down: absent where the product is negative or above 65535.
pub open spec fn scaled_u16(value: int, factor: int) -> Option<u16> {
    let product = value * factor;
    if 0 <= product <= 65535 * SCALE {
        Some((product / SCALE as int) as u16)
    } else {
        None
    }
}

/// What an unsigned field of a line holds after conversion: absent where the
/// capture is absent or is no unsigned integer, or where the converted value
/// leaves the range of `u16`. The number in the capture itself may be of any
/// size.
pub open spec fn u16_field(capture: Option<Seq<char>>, factor: int) -> Option<u16> {
    match capture {
        None => None,
        Some(text) => match unsigned_number(text) {
            None => None,
            Some(value) => scaled_u16(value as int, factor),
        },
    }
}

/// Multiplies `value` by `conversion_factor` hundred-thousandths and rounds
/// down; absent where the product leaves the range of `u16`.
pub fn scale_to_u16(value: u64, conversion_factor: i64) -> (scaled: Option<u16>)
    ensures
        scaled == scaled_u16(value as int, conversion_factor as int),
{
    proof {
        assert(-0xffff_ffff_ffff_ffff * 0x8000_0000_0000_0000 <= (value as int) * (
        conversion_factor as int) <= 0xffff_ffff_ffff_ffff * 0x8000_0000_0000_0000)
            by (nonlinear_arith)
            requires
                0 <= value <= 0xffff_ffff_ffff_ffff,
                -0x8000_0000_0000_0000 <= conversion_factor <= 0x7fff_ffff_ffff_ffff,
        ;
    }
    let product: i128 = (value as i128) * (conversion_factor as i128);
    if product < 0 || product > 65535 * (SCALE as i128) {
        None
    } else {
        let quotient: u128 = (product as u128) / (SCALE as u128);
        Some(quotient as u16)
    }
}

/// A number above 64 bits leaves the range of `u16` with every conversion
/// factor but 0, which makes it 0.
proof fn lemma_scaled_large(value: int, factor: int)
    requires
        value > u64::MAX,
    ensures
        scaled_u16(value, factor) == if factor == 0 {
            Some(0u16)
        } else {
            None
        },
{
    if factor > 0 {
        assert(value * factor >= value) by (nonlinear_arith)
            requires
                value > 0,
                factor >= 1,
        ;
    } else if factor < 0 {
        assert(value * factor < 0) by (nonlinear_arith)
            requires
                value > 0,
                factor <= -1,
        ;
    } else {
        assert(value * factor == 0) by (nonlinear_arith)
            requires
                factor == 0,
        ;
    }
}

/// Reads the captured text as an unsigned integer and converts it by
/// `conversion_factor`, given in hundred-thousandths: a speed capture "007"
/// with factor 185200 gives 12, and an altitude capture "100000" with factor
/// 30480 gives 30480.
pub fn capture_as_u16(capture: &Option<String>, conversion_factor: i64) -> (field: Option<u16>)
    ensures
        field == u16_field(text_view(*capture), conversion_factor as int),
{
    match capture {
        None => None,
        Some(text) => {
            let chars = chars_of(text.as_str());
            let from: usize = if chars.len() > 0 && chars[0] == '+' {
                1
            } else {
                0
            };
            if chars.len() == from || !is_digit_run(&chars, from, chars.len()) {
                return None;
            }
            match read_digits(&chars, from, chars.len(), u64::MAX) {
                Some(value) => scale_to_u16(value, conversion_factor),
                None => {
                    proof {
                        lemma_scaled_large(
                            decimal_value(chars@.subrange(from as int, chars.len() as int)) as int,
                            conversion_factor as int,
                        );
                    }
                    if conversion_factor == 0 {
                        Some(0)
                    } else {
                        None
                    }
                },
            }
        },
    }
}

/// The digits of `text`, in order, without its other characters.
pub open spec fn digits_in(text: Seq<char>) -> Seq<char> {
    text.filter(|c: char| is_digit(c))
}

/// Hundredths of a minute of arc in a packed coordinate: `packed` reads as
/// degrees, two digits of minutes and two of hundredths of a minute (`ddmmhh`
/// or `dddmmhh`).
pub open spec fn coordinate_units(packed: nat) -> nat {
    (packed / 10000) * 6000 + packed % 10000
}

/// The coordinate that `text` holds: its digits are read as one packed
/// number, and a last character `S` or `W` makes the value negative. Absent
/// where `text` holds no digit or the value leaves the range of `i32`.
pub open spec fn coordinate_value(text: Seq<char>) -> Option<i32> {
    let digits = digits_in(text);
    if digits.len() == 0 {
        None
    } else {
        let units = coordinate_units(decimal_value(digits));
        if units > i32::MAX {
            None
        } else if text.last() == 'S' || text.last() == 'W' {
            Some((-units) as i32)
        } else {
            Some(units as i32)
        }
    }
}

/// What a coordinate field of a line holds.
pub open spec fn coordinate_field(capture: Option<Seq<char>>) -> Option<i32> {
    match capture {
        None => None,
        Some(text) => coordinate_value(text),
    }
}

/// Taking one more character of a text adds it to the digits taken so far
/// where it is a digit, and leaves them as they are where it is not.
proof fn lemma_digits_in_step(text: Seq<char>, i: int)
    requires
        0 <= i < text.len(),
    ensures
        digits_in(text.take(i + 1)) == if is_digit(text[i]) {
            digits_in(text.take(i)).push(text[i])
        } else {
            digits_in(text.take(i))
        },
{
    reveal(Seq::filter);
    assert(text.take(i + 1).drop_last() == text.take(i));
}

/// Reads the digits among `chars` as one number of at most 32 bits; absent
/// where there is no digit or the number is larger.
fn read_packed(chars: &Vec<char>) -> (packed: Option<u32>)
    ensures
        packed == if digits_in(chars@).len() == 0 || decimal_value(digits_in(chars@)) > u32::MAX {
            None
        } else {
            Some(decimal_value(digits_in(chars@)) as u32)
        },
{
    let mut total: u64 = 0;
    let mut exceeded = false;
    let mut any = false;
    let mut i: usize = 0;
    proof {
        reveal(Seq::filter);
    }
    while i < chars.len()
        invariant
            i <= chars.len(),
            any == (digits_in(chars@.take(i as int)).len() > 0),
            !exceeded ==> total == decimal_value(digits_in(chars@.take(i as int))),
            !exceeded ==> total <= u32::MAX,
            exceeded ==> decimal_value(digits_in(chars@.take(i as int))) > u32::MAX,
        decreases chars.len() - i,
    {
        let c = chars[i];
        proof {
            lemma_digits_in_step(chars@, i as int);
            if is_digit(c) {
                let before = digits_in(chars@.take(i as int));
                assert(before.push(c).drop_last() == before);
            }
        }
        if is_ascii_digit(c) {
            let digit = digit_of(c) as u64;
            any = true;
            if !exceeded {
                total = total * 10 + digit;
                if total > u32::MAX as u64 {
                    exceeded = true;
                }
            }
        }
        i += 1;
    }
    proof {
        assert(chars@.take(i as int) == chars@);
    }
    if !any || exceeded {
        None
    } else {
        Some(total as u32)
    }
}

/// Decodes a captured coordinate, such as "5111.32N", into hundredths of a
/// minute of arc: 51 degrees and 11.32 minutes north are 307132, and
/// "1029.35S" gives -62935.
pub fn capture_as_coordinate_value(capture: &Option<String>) -> (value: Option<i32>)
    ensures
        value == coordinate_field(text_view(*capture)),
{
    match capture {
        None => None,
        Some(text) => {
            let chars = chars_of(text.as_str());
            match read_packed(&chars) {
                None => None,
                Some(packed) => {
                    let units: u64 = (packed as u64 / 10000) * 6000 + (packed as u64 % 10000);
                    if units > i32::MAX as u64 {
                        None
                    } else {
                        proof {
                            reveal(Seq::filter);
                        }
                        let orientation = chars[chars.len() - 1];
                        if orientation == 'S' || orientation == 'W' {
                            Some(-(units as i32))
                        } else {
                            Some(units as i32)
                        }
                    }
                },
            }
        },
    }
}

/// How many characters the sign at the start of `text` takes: 1 or 0.
pub open spec fn sign_length(text: Seq<char>) -> int {
    if text.len() > 0 && (text[0] == '+' || text[0] == '-') {
        1
    } else {
        0
    }
}

/// The digit at place `k` behind the decimal point, 0 where `fraction` ends
/// before it.
pub open spec fn place(fraction: Seq<char>, k: int) -> nat {
    if k < fraction.len() {
        digit_value(fraction[k])
    } else {
        0
    }
}

/// The first five decimal places of `fraction`, in hundred-thousandths; what
/// follows them is dropped.
pub open spec fn fraction_value(fraction: Seq<char>) -> nat {
    place(fraction, 0) * 10000 + place(fraction, 1) * 1000 + place(fraction, 2) * 100 + place(
        fraction,
        3,
    ) * 10 + place(fraction, 4)
}

/// The number that `text` writes in decimal notation, in hundred-thousandths:
/// an optional sign, digits, and optionally a point and more digits, with a
/// digit on at least one side of the point. Absent where `text` is not of that
/// form or the value leaves the range of `i64`.
pub open spec fn fixed_value(text: Seq<char>) -> Option<i64> {
    let from = sign_length(text);
    let point = index_of(text, '.', from);
    let whole = text.subrange(from, point);
    let fraction = if point < text.len() {
        text.subrange(point + 1, text.len() as int)
    } else {
        Seq::empty()
    };
    if all_digits(whole) && all_digits(fraction) && whole.len() + fraction.len() > 0 {
        let magnitude = decimal_value(whole) * SCALE + fraction_value(fraction);
        if magnitude > i64::MAX {
            None
        } else if text[0] == '-' {
            Some((-magnitude) as i64)
        } else {
            Some(magnitude as i64)
        }
    } else {
        None
    }
}

/// `value` times the conversion factor `factor`, both in hundred-thousandths,
/// rounded towards zero: absent where the result leaves the range of `i64`.
pub open spec fn scaled_fixed(value: int, factor: int) -> Option<i64> {
    let quotient = truncated_quotient(value * factor, SCALE as int);
    if i64::MIN <= quotient <= i64::MAX {
        Some(quotient as i64)
    } else {
        None
    }
}

/// What a decimal field of a line holds after conversion, in
/// hundred-thousandths.
pub open spec fn fixed_field(capture: Option<Seq<char>>, factor: int) -> Option<i64> {
    match capture {
        None => None,
        Some(text) => match fixed_value(text) {
            None => None,
            Some(value) => scaled_fixed(value as int, factor),
        },
    }
}

/// The digit at place `k` behind the point, where the fraction starts at
/// `from`.
fn place_at(chars: &Vec<char>, from: usize, k: usize) -> (digit: u64)
    requires
        from <= chars.len(),
        k < 5,
        all_digits(chars@.subrange(from as int, chars.len() as int)),
    ensures
        digit == place(chars@.subrange(from as int, chars.len() as int), k as int),
        digit <= 9,
{
    if k < chars.len() - from {
        proof {
            assert(chars@.subrange(from as int, chars.len() as int)[k as int] == chars[from + k]);
        }
        digit_of(chars[from + k]) as u64
    } else {
        0
    }
}

/// Reads a number in decimal notation, in hundred-thousandths.
pub fn parse_fixed(chars: &Vec<char>) -> (value: Option<i64>)
    ensures
        value == fixed_value(chars@),
{
    let n = chars.len();
    let from: usize = if n > 0 && (chars[0] == '+' || chars[0] == '-') {
        1
    } else {
        0
    };
    let point = find_char(chars, '.', from);
    let after: usize = if point < n {
        point + 1
    } else {
        n
    };
    if !is_digit_run(chars, from, point) || !is_digit_run(chars, after, n) {
        return None;
    }
    if point - from + (n - after) == 0 {
        return None;
    }
    let fraction: u64 = place_at(chars, after, 0) * 10000 + place_at(chars, after, 1) * 1000
        + place_at(chars, after, 2) * 100 + place_at(chars, after, 3) * 10 + place_at(
        chars,
        after,
        4,
    );
    match read_digits(chars, from, point, 92_233_720_368_547) {
        None => None,
        Some(whole) => {
            let magnitude: u64 = whole * 100_000 + fraction;
            if magnitude > i64::MAX as u64 {
                None
            } else if chars[0] == '-' {
                Some(-(magnitude as i64))
            } else {
                Some(magnitude as i64)
            }
        },
    }
}

/// Multiplies the fixed-point `value` by `conversion_factor`
/// hundred-thousandths and rounds towards zero; absent where the result leaves
/// the range of `i64`.
pub fn scale_fixed(value: i64, conversion_factor: i64) -> (scaled: Option<i64>)
    ensures
        scaled == scaled_fixed(value as int, conversion_factor as int),
{
    proof {
        assert(-0x8000_0000_0000_0000 * 0x8000_0000_0000_0000 <= (value as int) * (
        conversion_factor as int) <= 0x8000_0000_0000_0000 * 0x8000_0000_0000_0000)
            by (nonlinear_arith)
            requires
                -0x8000_0000_0000_0000 <= value <= 0x7fff_ffff_ffff_ffff,
                -0x8000_0000_0000_0000 <= conversion_factor <= 0x7fff_ffff_ffff_ffff,
        ;
    }
    let product: i128 = (value as i128) * (conversion_factor as i128);
    if product >= 0 {
        let quotient: u128 = (product as u128) / 100_000;
        if quotient > i64::MAX as u128 {
            None
        } else {
            Some(quotient as i64)
        }
    } else {
        let quotient: u128 = ((-product) as u128) / 100_000;
        if quotient > 0x8000_0000_0000_0000 {
            None
        } else if quotient == 0x8000_0000_0000_0000 {
            Some(i64::MIN)
        } else {
            Some(-(quotient as i64))
        }
    }
}

/// Reads the captured text as a decimal number and converts it by
/// `conversion_factor`; number, factor and result are in hundred-thousandths.
/// A climb rate capture "-019" with factor 508 gives -9652.
pub fn capture_as_fixed(capture: &Option<String>, conversion_factor: i64) -> (field: Option<i64>)
    ensures
        field == fixed_field(text_view(*capture), conversion_factor as int),
{
    match capture {
        None => None,
        Some(text) => {
            let chars = chars_of(text.as_str());
            match parse_fixed(&chars) {
                None => None,
                Some(value) => scale_fixed(value, conversion_factor),
            }
        },
    }
}

} // verus!
