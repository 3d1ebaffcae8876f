//! Numbers as text for the firmware's console, in UTF-16 code units.

use vstd::prelude::*;

verus! {

/// The code unit of the decimal digit `digit`.
pub open spec fn decimal_digit(digit: nat) -> u16 {
    (0x30 + digit) as u16
}

/// The code unit of the hexadecimal digit `digit`, in lower case.
pub open spec fn hex_digit(digit: nat) -> u16 {
    if digit < 10 {
        (0x30 + digit) as u16
    } else {
        (0x61 + digit - 10) as u16
    }
}

/// The digits of `number` to the base ten, the highest first, with no
/// leading zero; zero is one digit.
pub open spec fn decimal(number: nat) -> Seq<u16>
    decreases number,
{
    if number < 10 {
        seq![decimal_digit(number)]
    } else {
        decimal(number / 10).push(decimal_digit(number % 10))
    }
}

/// The digits of `number` to the base sixteen, the highest first, with no
/// leading zero; zero is one digit.
pub open spec fn hex(number: nat) -> Seq<u16>
    decreases number,
{
    if number < 16 {
        seq![hex_digit(number)]
    } else {
        hex(number / 16).push(hex_digit(number % 16))
    }
}

/// The number that a code unit stands for as a digit: a decimal digit, or
/// a letter from `a` on for ten and more.
pub open spec fn digit_value(unit: u16) -> nat {
    if unit < 0x61 {
        (unit - 0x30) as nat
    } else {
        (unit - 0x61 + 10) as nat
    }
}

/// The number that `digits` reads as to the base `base`.
pub open spec fn number_of(digits: Seq<u16>, base: nat) -> nat
    decreases digits.len(),
{
    if digits.len() == 0 {
        0
    } else {
        number_of(digits.drop_last(), base) * base + digit_value(digits.last())
    }
}

/// The text that `print_hex` writes: `0x`, the digits, and a line feed.
pub open spec fn hex_line(number: nat) -> Seq<u16> {
    seq![0x30u16, 0x78u16] + hex(number) + seq![0xau16]
}

/// The decimal digits read back as the number, there are twenty at most,
/// and the first is no zero but for zero itself.
pub proof fn lemma_decimal_reads_back(number: nat)
    ensures
        number_of(decimal(number), 10) == number,
        decimal(number).len() >= 1,
        number <= u64::MAX ==> decimal(number).len() <= 20,
        number > 0 ==> decimal(number)[0] != 0x30,
        forall|i: int|
            0 <= i < decimal(number).len() ==> 0x30 <= #[trigger] decimal(number)[i] <= 0x39,
{
    assert(power(10, 20) > u64::MAX) by {
        reveal_with_fuel(power, 21);
    }
    lemma_decimal_length(number, 20);
    lemma_decimal_value(number);
}

/// The hexadecimal digits read back as the number, there are sixteen at
/// most, and the first is no zero but for zero itself.
pub proof fn lemma_hex_reads_back(number: nat)
    ensures
        number_of(hex(number), 16) == number,
        hex(number).len() >= 1,
        number <= u64::MAX ==> hex(number).len() <= 16,
        number > 0 ==> hex(number)[0] != 0x30,
{
    assert(power(16, 16) > u64::MAX) by {
        reveal_with_fuel(power, 17);
    }
    lemma_hex_length(number, 16);
    lemma_hex_value(number);
}

/// The power of a base.
spec fn power(base: nat, exponent: nat) -> nat
    decreases exponent,
{
    if exponent == 0 {
        1
    } else {
        base * power(base, (exponent - 1) as nat)
    }
}

proof fn lemma_decimal_length(number: nat, digits: nat)
    requires
        digits >= 1,
    ensures
        number < power(10, digits) ==> decimal(number).len() <= digits,
    decreases number,
{
    reveal_with_fuel(power, 2);
    if number >= 10 && digits >= 2 {
        lemma_decimal_length(number / 10, (digits - 1) as nat);
    }
}

proof fn lemma_hex_length(number: nat, digits: nat)
    requires
        digits >= 1,
    ensures
        number < power(16, digits) ==> hex(number).len() <= digits,
    decreases number,
{
    reveal_with_fuel(power, 2);
    if number >= 16 && digits >= 2 {
        lemma_hex_length(number / 16, (digits - 1) as nat);
    }
}

proof fn lemma_decimal_value(number: nat)
    ensures
        number_of(decimal(number), 10) == number,
        decimal(number).len() >= 1,
        number > 0 ==> decimal(number)[0] != 0x30,
        forall|i: int|
            0 <= i < decimal(number).len() ==> 0x30 <= #[trigger] decimal(number)[i] <= 0x39,
    decreases number,
{
    reveal_with_fuel(number_of, 2);
    if number >= 10 {
        lemma_decimal_value(number / 10);
        let front = decimal(number / 10);
        assert(decimal(number).drop_last() == front);
    } else {
        assert(decimal(number).drop_last() == Seq::<u16>::empty());
    }
}

proof fn lemma_hex_value(number: nat)
    ensures
        number_of(hex(number), 16) == number,
        hex(number).len() >= 1,
        number > 0 ==> hex(number)[0] != 0x30,
    decreases number,
{
    reveal_with_fuel(number_of, 2);
    if number >= 16 {
        lemma_hex_value(number / 16);
        let front = hex(number / 16);
        assert(hex(number).drop_last() == front);
    } else {
        assert(hex(number).drop_last() == Seq::<u16>::empty());
    }
}

/// Puts the decimal digits of `number` behind `text`.
fn push_decimal(text: &mut Vec<u16>, number: u64)
    ensures
        final(text)@ == old(text)@ + decimal(number as nat),
    decreases number,
{
    if number >= 10 {
        push_decimal(text, number / 10);
    }
    let digit: u16 = (number % 10) as u16;
    text.push(0x30 + digit);
}

/// Puts the hexadecimal digits of `number` behind `text`.
fn push_hex(text: &mut Vec<u16>, number: u64)
    ensures
        final(text)@ == old(text)@ + hex(number as nat),
    decreases number,
{
    if number >= 16 {
        push_hex(text, number / 16);
    }
    let digit: u16 = (number % 16) as u16;
    if digit < 10 {
        text.push(0x30 + digit);
    } else {
        text.push(0x61 + (digit - 10));
    }
}

/// The text of `n` for the console: its decimal digits.
pub fn print_u64(n: u64) -> (text: Vec<u16>)
    ensures
        text@ == decimal(n as nat),
{
    let mut text: Vec<u16> = Vec::new();
    push_decimal(&mut text, n);
    text
}

/// The text of `number` for the console: `0x`, its hexadecimal digits in
/// lower case, and a line feed.
pub fn print_hex(number: u64) -> (text: Vec<u16>)
    ensures
        text@ == hex_line(number as nat),
{
    let mut text: Vec<u16> = Vec::new();
    text.push(0x30);
    text.push(0x78);
    push_hex(&mut text, number);
    text.push(0xa);
    text
}

} // verus!
