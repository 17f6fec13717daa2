//! Reading an instant-data mask given on the command line.
//!
//! The text is trimmed of white space; `0x` or `0X` in front selects
//! hexadecimal, otherwise it is decimal. The number is read as `u16`'s
//! `from_str_radix` reads it: an optional `+`, then at least one digit.
use vstd::prelude::*;

use crate::c14::INSTANT_MASK_DEFAULT;
use crate::text::{decimal, decimal_digit, is_whitespace, skip_ws_backward, skip_ws_forward, trim, trimmed_chars};

verus! {

/// Why a mask was refused.
#[derive(Debug, Clone, Copy, PartialEq, Eq, Structural)]
pub enum MaskError {
    /// There is no digit to read.
    Empty,
    /// A character is not a digit of the base (or a sign stands alone).
    InvalidDigit,
    /// The value does not fit in 16 bits.
    PosOverflow,
}

/// The value of `c` as a digit in base `radix` (10 or 16).
pub open spec fn digit_value(c: char, radix: nat) -> Option<nat> {
    let u = c as u32;
    if 48 <= u <= 57 && u - 48 < radix {
        Some((u - 48) as nat)
    } else if radix == 16 && 97 <= u <= 102 {
        Some((u - 87) as nat)
    } else if radix == 16 && 65 <= u <= 70 {
        Some((u - 55) as nat)
    } else {
        None
    }
}

/// Reads the digits `s[i..]` in base `radix` onto `acc`, left to right: the first
/// character that is not a digit gives `InvalidDigit`, and the first digit that
/// takes the value beyond `u16::MAX` gives `PosOverflow`.
pub open spec fn digits_value(s: Seq<char>, i: int, radix: nat, acc: nat) -> Result<u16, MaskError>
    decreases s.len() - i,
{
    if i >= s.len() || i < 0 {
        Ok(acc as u16)
    } else {
        match digit_value(s[i], radix) {
            None => Err(MaskError::InvalidDigit),
            Some(x) => if acc * radix + x > 0xFFFF {
                Err(MaskError::PosOverflow)
            } else {
                digits_value(s, i + 1, radix, acc * radix + x)
            },
        }
    }
}

/// The 16-bit value that `src` writes in base `radix`: empty text gives `Empty`;
/// a lone sign gives `InvalidDigit`; a leading `+` is skipped.
pub open spec fn spec_from_str_radix(src: Seq<char>, radix: nat) -> Result<u16, MaskError> {
    if src.len() == 0 {
        Err(MaskError::Empty)
    } else if src.len() == 1 && (src[0] == '+' || src[0] == '-') {
        Err(MaskError::InvalidDigit)
    } else if src[0] == '+' {
        digits_value(src, 1, radix, 0)
    } else {
        digits_value(src, 0, radix, 0)
    }
}

/// The mask that a command-line value gives: the default mask when none is
/// given; otherwise the trimmed text, in hexadecimal after `0x` or `0X`, else
/// in decimal.
pub open spec fn spec_parse_mask(mask: Option<Seq<char>>) -> Result<u16, MaskError> {
    match mask {
        None => Ok(INSTANT_MASK_DEFAULT),
        Some(raw) => {
            let t = trim(raw);
            if t.len() >= 2 && t[0] == '0' && (t[1] == 'x' || t[1] == 'X') {
                spec_from_str_radix(t.subrange(2, t.len() as int), 16)
            } else {
                spec_from_str_radix(t, 10)
            }
        },
    }
}

/// The value of `c` as a digit in base `radix`.
fn char_digit_value(c: char, radix: u32) -> (v: Option<u32>)
    requires
        radix == 10 || radix == 16,
    ensures
        match digit_value(c, radix as nat) {
            None => v is None,
            Some(x) => v == Some(x as u32),
        },
{
    let u = c as u32;
    if 48 <= u && u <= 57 && u - 48 < radix {
        Some(u - 48)
    } else if radix == 16 && 97 <= u && u <= 102 {
        Some(u - 87)
    } else if radix == 16 && 65 <= u && u <= 70 {
        Some(u - 55)
    } else {
        None
    }
}

/// The 16-bit value that `src` writes in base `radix` (as `u16::from_str_radix`).
fn from_str_radix(src: &[char], radix: u32) -> (res: Result<u16, MaskError>)
    requires
        radix == 10 || radix == 16,
    ensures
        res == spec_from_str_radix(src@, radix as nat),
{
    if src.len() == 0 {
        return Err(MaskError::Empty);
    }
    if src.len() == 1 && (src[0] == '+' || src[0] == '-') {
        return Err(MaskError::InvalidDigit);
    }
    let start: usize = if src[0] == '+' {
        1
    } else {
        0
    };
    let mut acc: u32 = 0;
    let mut i: usize = start;
    while i < src.len()
        invariant
            radix == 10 || radix == 16,
            start <= i <= src.len(),
            acc <= 0xFFFF,
            spec_from_str_radix(src@, radix as nat) == digits_value(
                src@,
                i as int,
                radix as nat,
                acc as nat,
            ),
        decreases src.len() - i,
    {
        let x = match char_digit_value(src[i], radix) {
            Some(x) => x,
            None => return Err(MaskError::InvalidDigit),
        };
        assert(acc * radix <= 0xFFFF * 16) by (nonlinear_arith)
            requires
                acc <= 0xFFFF,
                radix <= 16,
        ;
        let next = acc * radix + x;
        if next > 0xFFFF {
            return Err(MaskError::PosOverflow);
        }
        acc = next;
        i += 1;
    }
    Ok(acc as u16)
}

/// The instant-data mask that a command-line value gives (see `spec_parse_mask`).
pub fn parse_mask(mask: Option<String>) -> (res: Result<u16, MaskError>)
    ensures
        res == spec_parse_mask(
            match mask {
                None => None,
                Some(raw) => Some(raw@),
            },
        ),
{
    let raw = match mask {
        None => return Ok(INSTANT_MASK_DEFAULT),
        Some(raw) => raw,
    };
    let t = trimmed_chars(raw.as_str());
    if t.len() >= 2 && t[0] == '0' && (t[1] == 'x' || t[1] == 'X') {
        let hex = vstd::slice::slice_subrange(t.as_slice(), 2, t.len());
        return from_str_radix(hex, 16);
    }
    from_str_radix(t.as_slice(), 10)
}

proof fn lemma_digit_char(k: nat)
    requires
        k < 10,
    ensures
        digit_value(decimal_digit(k), 10) == Some(k),
        !is_whitespace(decimal_digit(k)),
        decimal_digit(k) != '+' && decimal_digit(k) != '-',
        k > 0 ==> decimal_digit(k) != '0',
{
}

/// Every character of a decimal notation is a digit, and the first is `0` only
/// for the value 0.
proof fn lemma_decimal_chars(n: nat)
    ensures
        decimal(n).len() >= 1,
        forall|i: int| 0 <= i < decimal(n).len() ==> #[trigger] digit_value(decimal(n)[i], 10) is Some,
        forall|i: int| 0 <= i < decimal(n).len() ==> !is_whitespace(#[trigger] decimal(n)[i]),
        decimal(n)[0] != '+' && decimal(n)[0] != '-',
        decimal(n).len() >= 2 ==> decimal(n)[0] != '0',
    decreases n,
{
    if n < 10 {
        lemma_digit_char(n);
    } else {
        lemma_decimal_chars(n / 10);
        lemma_digit_char(n % 10);
        assert(decimal(n) == decimal(n / 10).push(decimal_digit(n % 10)));
        assert(decimal(n)[0] == decimal(n / 10)[0]);
        if n / 10 < 10 {
            lemma_digit_char(n / 10);
        } else {
            assert(decimal(n / 10) == decimal(n / 10 / 10).push(decimal_digit(n / 10 % 10)));
            lemma_decimal_chars(n / 10 / 10);
        }
    }
}

/// Reading one more digit after digits that read without fault to `v`
/// multiplies `v` by the base and adds the digit, when that fits in 16 bits.
pub proof fn lemma_digits_push(s: Seq<char>, c: char, i: int, radix: nat, acc: nat, v: u16, x: nat)
    requires
        0 <= i <= s.len(),
        digits_value(s, i, radix, acc) == Ok::<u16, MaskError>(v),
        digit_value(c, radix) == Some(x),
        v * radix + x <= 0xFFFF,
        acc <= 0xFFFF,
    ensures
        digits_value(s.push(c), i, radix, acc) == Ok::<u16, MaskError>((v * radix + x) as u16),
    decreases s.len() - i,
{
    let t = s.push(c);
    if i == s.len() {
        assert(t[i] == c);
        assert(v == acc as u16);
        assert(v == acc);
        assert(acc * radix + x <= 0xFFFF);
        assert(digits_value(t, i + 1, radix, acc * radix + x) == Ok::<u16, MaskError>(
            (acc * radix + x) as u16,
        ));
    } else {
        assert(t[i] == s[i]);
        let y = digit_value(s[i], radix)->Some_0;
        assert(acc * radix + y <= 0xFFFF);
        assert(digits_value(s, i + 1, radix, acc * radix + y) == Ok::<u16, MaskError>(v));
        lemma_digits_push(s, c, i + 1, radix, acc * radix + y, v, x);
    }
}

proof fn lemma_digits_of_decimal(n: nat)
    requires
        n <= 0xFFFF,
    ensures
        digits_value(decimal(n), 0, 10, 0) == Ok::<u16, MaskError>(n as u16),
    decreases n,
{
    if n < 10 {
        lemma_digit_char(n);
        let s = decimal(n);
        assert(s == seq![decimal_digit(n)]);
        assert(digits_value(s, 1, 10, n) == Ok::<u16, MaskError>(n as u16));
        assert(digits_value(s, 0, 10, 0) == digits_value(s, 1, 10, 0 * 10 + n));
    } else {
        lemma_digits_of_decimal(n / 10);
        lemma_digit_char(n % 10);
        assert(decimal(n) == decimal(n / 10).push(decimal_digit(n % 10)));
        lemma_decimal_chars(n / 10);
        lemma_digits_push(decimal(n / 10), decimal_digit(n % 10), 0, 10, 0, (n / 10) as u16, n % 10);
    }
}

/// The digits: in base 10 exactly `0`-`9`; in base 16 also `a`-`f` and `A`-`F`,
/// lower and upper case with the same values 10 to 15.
pub proof fn lemma_digit_values(c: char)
    ensures
        ('0' <= c <= '9') ==> digit_value(c, 10) == Some((c as u32 - 48) as nat) && digit_value(
            c,
            16,
        ) == Some((c as u32 - 48) as nat),
        ('a' <= c <= 'f') ==> digit_value(c, 16) == Some((c as u32 - 97 + 10) as nat),
        ('A' <= c <= 'F') ==> digit_value(c, 16) == Some((c as u32 - 65 + 10) as nat),
        ('a' <= c <= 'f') ==> digit_value(c, 16) == digit_value(((c as u32) - 32) as char, 16),
        !('0' <= c <= '9') ==> digit_value(c, 10) is None,
        !('0' <= c <= '9' || 'a' <= c <= 'f' || 'A' <= c <= 'F') ==> digit_value(c, 16) is None,
{
}

/// A mask written in decimal is read back as itself.
pub proof fn lemma_parse_mask_decimal(mask: u16)
    ensures
        spec_parse_mask(Some(decimal(mask as nat))) == Ok::<u16, MaskError>(mask),
{
    let s = decimal(mask as nat);
    lemma_decimal_chars(mask as nat);
    assert(skip_ws_forward(s, 0) == 0);
    assert(skip_ws_backward(s, 0, s.len() as int) == s.len());
    assert(trim(s) =~= s);
    lemma_digits_of_decimal(mask as nat);
}

/// One step of reading digits: past the end the value read so far is the
/// result; a character that is not a digit gives `InvalidDigit`; a digit that
/// takes the value past `u16::MAX` gives `PosOverflow`; otherwise reading goes on
/// with the value times the base plus the digit. A leading `+` is skipped, and
/// empty text gives `Empty`.
pub proof fn lemma_digits_step(s: Seq<char>, i: int, radix: nat, acc: nat)
    requires
        0 <= i,
    ensures
        i >= s.len() ==> digits_value(s, i, radix, acc) == Ok::<u16, MaskError>(acc as u16),
        i < s.len() && digit_value(s[i], radix) is None ==> digits_value(s, i, radix, acc) == Err::<
            u16,
            MaskError,
        >(MaskError::InvalidDigit),
        (i < s.len() && digit_value(s[i], radix) is Some && acc * radix + digit_value(
            s[i],
            radix,
        )->Some_0 > 0xFFFF) ==> digits_value(s, i, radix, acc) == Err::<u16, MaskError>(
            MaskError::PosOverflow,
        ),
        (i < s.len() && digit_value(s[i], radix) is Some && acc * radix + digit_value(
            s[i],
            radix,
        )->Some_0 <= 0xFFFF) ==> digits_value(s, i, radix, acc) == digits_value(
            s,
            i + 1,
            radix,
            acc * radix + digit_value(s[i], radix)->Some_0,
        ),
        spec_from_str_radix(Seq::<char>::empty(), radix) == Err::<u16, MaskError>(MaskError::Empty),
        s.len() >= 2 && s[0] == '+' ==> spec_from_str_radix(s, radix) == digits_value(
            s,
            1,
            radix,
            0,
        ),
        s.len() >= 1 && s[0] != '+' && s[0] != '-' ==> spec_from_str_radix(s, radix)
            == digits_value(s, 0, radix, 0),
{
}

/// A mask given in hexadecimal after `0x` or `0X` (around white space) is read
/// in base 16; any other text is read in base 10; no mask gives the default.
pub proof fn lemma_mask_base(raw: Seq<char>)
    ensures
        spec_parse_mask(None) == Ok::<u16, MaskError>(0x03EA),
        ({
            let t = trim(raw);
            &&& (t.len() >= 2 && t[0] == '0' && (t[1] == 'x' || t[1] == 'X')) ==> spec_parse_mask(
                Some(raw),
            ) == spec_from_str_radix(t.skip(2), 16)
            &&& !(t.len() >= 2 && t[0] == '0' && (t[1] == 'x' || t[1] == 'X')) ==> spec_parse_mask(
                Some(raw),
            ) == spec_from_str_radix(t, 10)
        }),
{
    let t = trim(raw);
    assert(t.subrange(2, t.len() as int) =~= t.skip(2));
}

} // verus!
