//! Reading the arguments that stand for numbers: line ranges and file modes.

use vstd::prelude::*;
use vstd::utf8::encode_utf8;
use crate::error::Error;
use crate::model::{LineRange, PermissionsMode};

verus! {

/// The byte `+`.
pub const PLUS: u8 = 43;

/// The byte `:`.
pub const COLON: u8 = 58;

/// The byte `0`.
pub const ZERO: u8 = 48;

/// Every byte is a digit of the given radix.
pub open spec fn digits_of(digits: Seq<u8>, radix: nat) -> bool {
    forall|i: int| 0 <= i < digits.len() ==> ZERO <= #[trigger] digits[i] < ZERO + radix
}

/// The number that the digits spell in the given radix.
pub open spec fn digits_value(digits: Seq<u8>, radix: nat) -> nat
    decreases digits.len(),
{
    if digits.len() == 0 {
        0
    } else {
        digits_value(digits.drop_last(), radix) * radix + (digits.last() - ZERO) as nat
    }
}

/// The number that `text` spells in the given radix, if it spells one that
/// is at most `max`: digits, at least one, with or without a plus sign
/// before them.
pub open spec fn number_in(text: Seq<u8>, radix: nat, max: nat) -> Option<nat> {
    let digits = if text.len() > 0 && text[0] == PLUS {
        text.skip(1)
    } else {
        text
    };
    if digits.len() > 0 && digits_of(digits, radix) && digits_value(digits, radix) <= max {
        Some(digits_value(digits, radix))
    } else {
        None
    }
}

/// The digits spell no smaller number than any of their heads.
pub proof fn lemma_digits_value_grows(digits: Seq<u8>, radix: nat, n: int)
    requires
        0 <= n <= digits.len(),
        digits_of(digits, radix),
        radix >= 1,
    ensures
        digits_value(digits.take(n), radix) <= digits_value(digits, radix),
    decreases digits.len() - n,
{
    if n < digits.len() {
        lemma_digits_value_grows(digits, radix, n + 1);
        let next = digits.take(n + 1);
        assert(next.drop_last() == digits.take(n));
        let head = digits_value(digits.take(n), radix);
        assert(head <= head * radix) by (nonlinear_arith)
            requires
                radix >= 1,
        ;
    } else {
        assert(digits.take(n) == digits);
    }
}

/// The number that `text` spells in radix 8 or 10, if it is at most `max`.
pub fn parse_number(text: &[u8], radix: u8, max: u64) -> (r: Option<u64>)
    requires
        radix == 8 || radix == 10,
    ensures
        match number_in(text@, radix as nat, max as nat) {
            Some(n) => r == Some(n as u64),
            None => r is None,
        },
{
    let start: usize = if text.len() > 0 && text[0] == PLUS {
        1
    } else {
        0
    };
    let ghost digits = if start == 1 {
        text@.skip(1)
    } else {
        text@
    };
    if start >= text.len() {
        return None;
    }
    let mut value: u128 = 0;
    let mut i: usize = start;
    while i < text.len()
        invariant
            start <= i <= text@.len(),
            radix == 8 || radix == 10,
            start == if text@.len() > 0 && text@[0] == PLUS {
                1int
            } else {
                0int
            },
            digits == if text@.len() > 0 && text@[0] == PLUS {
                text@.skip(1)
            } else {
                text@
            },
            digits.len() == text@.len() - start,
            forall|k: int| 0 <= k < digits.len() ==> digits[k] == text@[k + start],
            digits_of(digits.take(i - start), radix as nat),
            value == digits_value(digits.take(i - start), radix as nat),
            value <= max,
        decreases text.len() - i,
    {
        let b = text[i];
        proof {
            assert(digits[i - start] == b);
            assert(digits.take(i - start + 1).drop_last() == digits.take(i - start));
            assert(digits.take(i - start + 1).last() == b);
        }
        if b < ZERO || b >= ZERO + radix {
            assert(!digits_of(digits, radix as nat));
            return None;
        }
        assert(value * (radix as u128) <= 0xffff_ffff_ffff_ffff * 10) by (nonlinear_arith)
            requires
                value <= 0xffff_ffff_ffff_ffff,
                radix <= 10,
        ;
        let next: u128 = value * (radix as u128) + (b - ZERO) as u128;
        if next > max as u128 {
            proof {
                if digits_of(digits, radix as nat) {
                    lemma_digits_value_grows(digits, radix as nat, i - start + 1);
                }
            }
            return None;
        }
        value = next;
        i = i + 1;
    }
    proof {
        assert(digits.take(digits.len() as int) == digits);
    }
    Some(value as u64)
}

/// The offset of the first byte `b` in `text` from `from` on, or the length
/// of `text` where there is none.
pub open spec fn first_of(text: Seq<u8>, b: u8, from: int) -> int
    decreases text.len() - from,
{
    if from >= text.len() {
        text.len() as int
    } else if text[from] == b {
        from
    } else {
        first_of(text, b, from + 1)
    }
}

/// The line range that `text` spells: `START`, for that one line,
/// `START:END`, or `START:` for all lines from `START` on. What follows a
/// second colon is not read.
pub open spec fn range_in(text: Seq<u8>) -> Option<LineRange> {
    let colon = first_of(text, COLON, 0);
    match number_in(text.take(colon), 10, usize::MAX as nat) {
        None => None,
        Some(start) => if colon >= text.len() {
            Some(LineRange { start: start as usize, end: Some(start as usize) })
        } else {
            let second = first_of(text, COLON, colon + 1);
            let last = text.subrange(colon + 1, second);
            if last.len() == 0 {
                Some(LineRange { start: start as usize, end: None })
            } else {
                match number_in(last, 10, usize::MAX as nat) {
                    Some(end) => Some(LineRange { start: start as usize, end: Some(end as usize) }),
                    None => None,
                }
            }
        },
    }
}

/// The offset of the first byte `b` in `text` from `from` on.
pub fn find_byte(text: &[u8], b: u8, from: usize) -> (at: usize)
    requires
        from <= text@.len(),
    ensures
        at == first_of(text@, b, from as int),
        from <= at <= text@.len(),
{
    let mut at: usize = from;
    while at < text.len() && text[at] != b
        invariant
            from <= at <= text@.len(),
            first_of(text@, b, from as int) == first_of(text@, b, at as int),
        decreases text.len() - at,
    {
        at = at + 1;
    }
    at
}

/// The line range that `s` spells, if it spells one.
pub fn parse_range(s: &str) -> (r: Option<LineRange>)
    ensures
        r == range_in(encode_utf8(s@)),
{
    let text = s.as_bytes();
    let colon = find_byte(text, COLON, 0);
    let limit: u64 = usize::MAX as u64;
    let start = match parse_number(&text[0..colon], 10, limit) {
        Some(n) => n as usize,
        None => {
            return None;
        },
    };
    if colon >= text.len() {
        return Some(LineRange { start, end: Some(start) });
    }
    let second = find_byte(text, COLON, colon + 1);
    if second == colon + 1 {
        return Some(LineRange { start, end: None });
    }
    match parse_number(&text[colon + 1..second], 10, limit) {
        Some(n) => Some(LineRange { start, end: Some(n as usize) }),
        None => None,
    }
}

/// Which permissions the arguments ask for.
#[derive(Debug, Clone, Copy, PartialEq, Eq, Structural)]
pub enum PermissionsChoice {
    Preserve,
    Fixed,
}

/// The permissions mode that the arguments set, if they set one: the fixed
/// mode where an octal mode is given. A mode that is no octal number is an
/// error, and so is the choice of fixed permissions without a mode.
pub open spec fn permissions_in(mode: Option<Seq<u8>>, choice: Option<PermissionsChoice>) -> Result<
    Option<PermissionsMode>,
    Seq<char>,
> {
    match mode {
        Some(text) => match number_in(text, 8, u32::MAX as nat) {
            Some(bits) => Ok(Some(PermissionsMode::Fixed(bits as u32))),
            None => Err("Invalid octal mode"@),
        },
        None => if choice == Some(PermissionsChoice::Fixed) {
            Err("--mode <OCTAL> is required when --permissions fixed is used"@)
        } else {
            Ok(None)
        },
    }
}

/// The permissions mode that the arguments set, if they set one.
pub fn resolve_permissions(mode: Option<&str>, choice: Option<PermissionsChoice>) -> (r: Result<
    Option<PermissionsMode>,
    Error,
>)
    ensures
        match permissions_in(
            match mode {
                Some(m) => Some(encode_utf8(m@)),
                None => None,
            },
            choice,
        ) {
            Ok(permissions) => r == Ok::<Option<PermissionsMode>, Error>(permissions),
            Err(message) => r matches Err(Error::Validation(m)) && m@ == message,
        },
{
    match mode {
        Some(text) => match parse_number(text.as_bytes(), 8, u32::MAX as u64) {
            Some(bits) => Ok(Some(PermissionsMode::Fixed(bits as u32))),
            None => Err(Error::Validation(String::from_str("Invalid octal mode"))),
        },
        None => match choice {
            Some(PermissionsChoice::Fixed) => Err(
                Error::Validation(
                    String::from_str("--mode <OCTAL> is required when --permissions fixed is used"),
                ),
            ),
            _ => Ok(None),
        },
    }
}

} // verus!
