//! Character references: `&name;`, `&#10;` and `&#x0a;`.

use vstd::prelude::*;
use crate::ascii::{
    ByteClass, DIGIT_0, HASH, LOWER_A, LOWER_F, LOWER_X, SEMICOLON, UPPER_A, UPPER_X,
};
use crate::ascii::{spec_is_alpha, spec_is_digit, spec_run_end};
use crate::ascii::{is_alpha, is_digit, run_end};
use crate::token::ReferenceKind;

verus! {

/// The greatest code point.
pub const MAX_CODE_POINT: u32 = 0x10ffff;

/// The character reference that starts with the `&` at `pos`, with the
/// position after its `;`: `&` and a name of letters and digits that starts
/// with a letter, `&#` and decimal digits, or `&#x` and hexadecimal digits.
pub open spec fn spec_reference(buf: Seq<u8>, pos: int) -> Option<(ReferenceKind, int)> {
    let len = buf.len() as int;
    if pos + 1 < len && buf[pos + 1] == HASH {
        if pos + 2 < len && (buf[pos + 2] == LOWER_X || buf[pos + 2] == UPPER_X) {
            let d = spec_run_end(buf, pos + 3, len, ByteClass::HexDigit);
            if pos + 3 < d && d < len && buf[d] == SEMICOLON {
                Some((ReferenceKind::Hexadecimal, d + 1))
            } else {
                None
            }
        } else {
            let d = spec_run_end(buf, pos + 2, len, ByteClass::Digit);
            if pos + 2 < d && d < len && buf[d] == SEMICOLON {
                Some((ReferenceKind::Decimal, d + 1))
            } else {
                None
            }
        }
    } else {
        let d = spec_run_end(buf, pos + 1, len, ByteClass::AlphaNumeric);
        if pos + 1 < d && d < len && spec_is_alpha(buf[pos + 1]) && buf[d] == SEMICOLON {
            Some((ReferenceKind::Named, d + 1))
        } else {
            None
        }
    }
}

/// The value of a digit: of a decimal digit, and of the letters `a` to `f`
/// in either case.
pub open spec fn spec_digit_value(b: u8) -> int {
    if spec_is_digit(b) {
        b - DIGIT_0
    } else if LOWER_A <= b && b <= LOWER_F {
        b - LOWER_A + 10
    } else {
        b - UPPER_A + 10
    }
}

/// The number that the digits in `[from, to)` write in the given radix.
pub open spec fn spec_number(buf: Seq<u8>, from: int, to: int, radix: int) -> int
    decreases to - from,
{
    if from >= to {
        0
    } else {
        spec_number(buf, from, to - 1, radix) * radix + spec_digit_value(buf[to - 1])
    }
}

/// The code point that the numeric character reference at `pos` stands
/// for; `None` where no numeric reference starts there, and where the number
/// is greater than any code point.
pub open spec fn spec_code_point(buf: Seq<u8>, pos: int) -> Option<u32> {
    match spec_reference(buf, pos) {
        Some((ReferenceKind::Decimal, end)) => if spec_number(buf, pos + 2, end - 1, 10)
            <= MAX_CODE_POINT {
            Some(spec_number(buf, pos + 2, end - 1, 10) as u32)
        } else {
            None
        },
        Some((ReferenceKind::Hexadecimal, end)) => if spec_number(buf, pos + 3, end - 1, 16)
            <= MAX_CODE_POINT {
            Some(spec_number(buf, pos + 3, end - 1, 16) as u32)
        } else {
            None
        },
        _ => None,
    }
}

/// The character reference that starts with the `&` at `pos`, with the
/// position after its `;`.
pub fn reference(buf: &[u8], pos: usize) -> (r: Option<(ReferenceKind, usize)>)
    requires
        pos < buf@.len(),
    ensures
        match r {
            Some((kind, end)) => spec_reference(buf@, pos as int) == Some((kind, end as int))
                && pos < end <= buf@.len(),
            None => spec_reference(buf@, pos as int) is None,
        },
{
    let len = buf.len();
    if pos + 1 < len && buf[pos + 1] == HASH {
        if pos + 2 < len && (buf[pos + 2] == LOWER_X || buf[pos + 2] == UPPER_X) {
            if pos + 3 > len {
                return None;
            }
            let d = run_end(buf, pos + 3, len, ByteClass::HexDigit);
            if pos + 3 < d && d < len && buf[d] == SEMICOLON {
                Some((ReferenceKind::Hexadecimal, d + 1))
            } else {
                None
            }
        } else {
            let d = run_end(buf, pos + 2, len, ByteClass::Digit);
            if pos + 2 < d && d < len && buf[d] == SEMICOLON {
                Some((ReferenceKind::Decimal, d + 1))
            } else {
                None
            }
        }
    } else {
        let d = run_end(buf, pos + 1, len, ByteClass::AlphaNumeric);
        if pos + 1 < d && d < len && is_alpha(buf[pos + 1]) && buf[d] == SEMICOLON {
            Some((ReferenceKind::Named, d + 1))
        } else {
            None
        }
    }
}

fn digit_value(b: u8) -> (v: u32)
    requires
        crate::ascii::spec_is_hex_digit(b),
    ensures
        v == spec_digit_value(b),
        v < 16,
        spec_is_digit(b) ==> v < 10,
{
    if is_digit(b) {
        (b - DIGIT_0) as u32
    } else if LOWER_A <= b && b <= LOWER_F {
        (b - LOWER_A + 10) as u32
    } else {
        (b - UPPER_A + 10) as u32
    }
}

/// The number that the digits in `[from, to)` write, where it is no greater
/// than the greatest code point.
fn number(buf: &[u8], from: usize, to: usize, hex: bool) -> (n: Option<u32>)
    requires
        from <= to <= buf@.len(),
        forall|j: int|
            from <= j < to ==> if hex {
                crate::ascii::spec_is_hex_digit(#[trigger] buf@[j])
            } else {
                spec_is_digit(buf@[j])
            },
    ensures
        n == if spec_number(
            buf@,
            from as int,
            to as int,
            if hex {
                16
            } else {
                10
            },
        ) <= MAX_CODE_POINT {
            Some(
                spec_number(
                    buf@,
                    from as int,
                    to as int,
                    if hex {
                        16
                    } else {
                        10
                    },
                ) as u32,
            )
        } else {
            None
        },
{
    let ghost radix: int = if hex {
        16
    } else {
        10
    };
    let mut value: u32 = 0;
    let mut fits: bool = true;
    let mut i: usize = from;
    while i < to
        invariant
            from <= i <= to <= buf@.len(),
            radix == if hex {
                16int
            } else {
                10int
            },
            forall|j: int|
                from <= j < to ==> if hex {
                    crate::ascii::spec_is_hex_digit(#[trigger] buf@[j])
                } else {
                    spec_is_digit(buf@[j])
                },
            fits ==> value == spec_number(buf@, from as int, i as int, radix) && value
                <= MAX_CODE_POINT,
            !fits ==> spec_number(buf@, from as int, i as int, radix) > MAX_CODE_POINT,
        decreases to - i,
    {
        let digit = digit_value(buf[i]);
        let ghost before = spec_number(buf@, from as int, i as int, radix);
        assert(spec_number(buf@, from as int, i + 1, radix) == before * radix + digit);
        if fits {
            let next: u32 = if hex {
                value * 16 + digit
            } else {
                value * 10 + digit
            };
            if next > MAX_CODE_POINT {
                fits = false;
            } else {
                value = next;
            }
        } else {
            assert(before * radix + digit > MAX_CODE_POINT) by {
                if hex {
                    assert(before * 16 >= before);
                } else {
                    assert(before * 10 >= before);
                }
            }
        }
        i += 1;
    }
    if fits {
        Some(value)
    } else {
        None
    }
}

/// The code point that the numeric character reference at `pos` stands
/// for; `None` where no numeric reference starts there, and where the number
/// is greater than any code point.
pub fn code_point(buf: &[u8], pos: usize) -> (r: Option<u32>)
    requires
        pos < buf@.len(),
    ensures
        r == spec_code_point(buf@, pos as int),
{
    match reference(buf, pos) {
        Some((ReferenceKind::Decimal, end)) => {
            proof {
                crate::ascii::lemma_run_end(
                    buf@,
                    pos + 2,
                    buf@.len() as int,
                    ByteClass::Digit,
                );
            }
            number(buf, pos + 2, end - 1, false)
        },
        Some((ReferenceKind::Hexadecimal, end)) => {
            proof {
                crate::ascii::lemma_run_end(
                    buf@,
                    pos + 3,
                    buf@.len() as int,
                    ByteClass::HexDigit,
                );
            }
            number(buf, pos + 3, end - 1, true)
        },
        _ => None,
    }
}

} // verus!
