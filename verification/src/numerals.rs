//! Numerals spell their numbers.

use vstd::prelude::*;
use vstd::utf8::is_ascii_chars;

use crate::scan::{digit_value, digits_value, number_in};
use crate::text::{decimal, decimal_digit, hex_digit, hex_digits};

verus! {

/// Digits of a base of at most sixteen.
pub open spec fn all_digits(text: Seq<char>, base: nat) -> bool {
    forall|i: int| 0 <= i < text.len() ==> digit_value(#[trigger] text[i], base) is Some
}

/// Digits are ASCII, and none of them is a separator.
pub proof fn digits_are_plain(text: Seq<char>, base: nat)
    requires
        all_digits(text, base),
        base <= 16,
    ensures
        is_ascii_chars(text),
        forall|i: int|
            0 <= i < text.len() ==> #[trigger] text[i] != '|' && text[i] != '\n' && text[i] != '\r'
                && text[i] != '+',
{
    assert forall|i: int| 0 <= i < text.len() implies '\0' <= #[trigger] text[i] <= '\u{7f}'
        && text[i] != '|' && text[i] != '\n' && text[i] != '\r' && text[i] != '+' by {
        assert(digit_value(text[i], base) is Some);
    }
}

/// A hexadecimal digit is read back.
pub proof fn hex_digit_reads_back(value: nat)
    requires
        value < 16,
    ensures
        digit_value(hex_digit(value), 16) == Some(value),
{
    if value < 10 {
        assert((48 + value) as u8 as char as u32 == 48 + value);
    } else {
        assert((87 + value) as u8 as char as u32 == 87 + value);
    }
}

/// Powers of sixteen.
pub open spec fn sixteen_to(width: nat) -> nat
    decreases width,
{
    if width == 0 {
        1
    } else {
        16 * sixteen_to((width - 1) as nat)
    }
}

/// Hexadecimal digits spell the number they were made from, where it fits.
pub proof fn hex_digits_read_back(value: nat, width: nat)
    ensures
        hex_digits(value, width).len() == width,
        all_digits(hex_digits(value, width), 16),
        value < sixteen_to(width) ==> digits_value(hex_digits(value, width), 16) == Some(value),
    decreases width,
{
    if width > 0 {
        let shorter = hex_digits(value / 16, (width - 1) as nat);
        let text = hex_digits(value, width);
        hex_digits_read_back(value / 16, (width - 1) as nat);
        hex_digit_reads_back(value % 16);
        assert(text.drop_last() =~= shorter);
        assert forall|i: int| 0 <= i < text.len() implies digit_value(
            #[trigger] text[i],
            16,
        ) is Some by {
            if i < shorter.len() {
                assert(text[i] == shorter[i]);
            }
        }
        if value < sixteen_to(width) {
            assert(value / 16 < sixteen_to((width - 1) as nat));
            assert((value / 16) * 16 + value % 16 == value);
        }
    }
}

/// A decimal digit is read back.
pub proof fn decimal_digit_reads_back(value: nat)
    requires
        value < 10,
    ensures
        digit_value(decimal_digit(value), 10) == Some(value),
{
    assert((48 + value) as u8 as char as u32 == 48 + value);
}

/// Decimal digits spell the number they were made from.
pub proof fn decimal_reads_back(value: nat)
    ensures
        decimal(value).len() > 0,
        all_digits(decimal(value), 10),
        digits_value(decimal(value), 10) == Some(value),
    decreases value,
{
    let text = decimal(value);
    if value < 10 {
        decimal_digit_reads_back(value);
        assert(text.drop_last() =~= Seq::<char>::empty());
        assert(digits_value(Seq::<char>::empty(), 10) == Some(0nat));
    } else {
        let shorter = decimal(value / 10);
        decimal_reads_back(value / 10);
        decimal_digit_reads_back(value % 10);
        assert(text.drop_last() =~= shorter);
        assert forall|i: int| 0 <= i < text.len() implies digit_value(
            #[trigger] text[i],
            10,
        ) is Some by {
            if i < shorter.len() {
                assert(text[i] == shorter[i]);
            }
        }
        assert((value / 10) * 10 + value % 10 == value);
    }
}

/// A number below a power of ten has at most that many digits.
pub proof fn decimal_is_short(value: nat, width: nat, bound: nat)
    requires
        value < bound,
        bound == ten_to(width),
        width > 0,
    ensures
        decimal(value).len() <= width,
    decreases width,
{
    if value >= 10 {
        assert(width > 1) by {
            if width == 1 {
                reveal_with_fuel(ten_to, 2);
            }
        }
        assert(value / 10 < ten_to((width - 1) as nat));
        decimal_is_short(value / 10, (width - 1) as nat, ten_to((width - 1) as nat));
    }
}

/// Powers of ten.
pub open spec fn ten_to(width: nat) -> nat
    decreases width,
{
    if width == 0 {
        1
    } else {
        10 * ten_to((width - 1) as nat)
    }
}

/// Digits are read as the number that they spell.
pub proof fn number_reads_back(text: Seq<char>, base: nat, value: nat, largest: nat)
    requires
        text.len() > 0,
        base <= 16,
        all_digits(text, base),
        digits_value(text, base) == Some(value),
        value <= largest,
    ensures
        number_in(text, base, largest) == Some(value),
{
    digits_are_plain(text, base);
    assert(text[0] != '+');
}

/// Sixteen hexadecimal digits hold any `u64`.
pub proof fn sixteen_digits_hold_a_word()
    ensures
        sixteen_to(16) == u64::MAX + 1,
{
    reveal_with_fuel(sixteen_to, 17);
}

/// Twenty decimal digits hold any `u64`.
pub proof fn twenty_digits_hold_a_word()
    ensures
        ten_to(20) > u64::MAX,
{
    reveal_with_fuel(ten_to, 21);
}

} // verus!
