//! Numbers and names as text.

use vstd::prelude::*;
use vstd::string::*;

verus! {

/// The digit of value `digit`, below sixteen, in lower case.
pub open spec fn digit_char(digit: int) -> char {
    if digit < 10 {
        (('0' as int) + digit) as char
    } else {
        (('a' as int) + digit - 10) as char
    }
}

/// `value` written in base `base` without leading zeros.
pub open spec fn digits(value: nat, base: nat) -> Seq<char>
    recommends
        2 <= base <= 16,
    decreases value,
{
    if base < 2 || value < base {
        seq![digit_char(value as int)]
    } else {
        proof {
            assert(value / base < value) by (nonlinear_arith)
                requires
                    2 <= base <= value,
            ;
        }
        digits(value / base, base).push(digit_char((value % base) as int))
    }
}

/// `value` in decimal.
pub open spec fn decimal(value: nat) -> Seq<char> {
    digits(value, 10)
}

/// `value` in hexadecimal, behind `0x`.
pub open spec fn hexadecimal(value: nat) -> Seq<char> {
    "0x"@ + digits(value, 16)
}

/// The digit of value `digit` as a string.
fn digit_text(digit: u64) -> (text: &'static str)
    requires
        digit < 16,
    ensures
        text@ == seq![digit_char(digit as int)],
{
    proof {
        reveal_strlit("0");
        reveal_strlit("1");
        reveal_strlit("2");
        reveal_strlit("3");
        reveal_strlit("4");
        reveal_strlit("5");
        reveal_strlit("6");
        reveal_strlit("7");
        reveal_strlit("8");
        reveal_strlit("9");
        reveal_strlit("a");
        reveal_strlit("b");
        reveal_strlit("c");
        reveal_strlit("d");
        reveal_strlit("e");
        reveal_strlit("f");
    }
    match digit {
        0 => "0",
        1 => "1",
        2 => "2",
        3 => "3",
        4 => "4",
        5 => "5",
        6 => "6",
        7 => "7",
        8 => "8",
        9 => "9",
        10 => "a",
        11 => "b",
        12 => "c",
        13 => "d",
        14 => "e",
        _ => "f",
    }
}

/// Appends `value` in base `base`.
fn append_digits(text: &mut String, value: u64, base: u64)
    requires
        2 <= base <= 16,
    ensures
        final(text)@ == old(text)@ + digits(value as nat, base as nat),
    decreases value,
{
    let ghost before = text@;
    if value < base {
        text.append(digit_text(value));
    } else {
        assert(value / base < value) by (nonlinear_arith)
            requires
                2 <= base <= value,
        ;
        append_digits(text, value / base, base);
        text.append(digit_text(value % base));
        assert(text@ =~= before + digits(value as nat, base as nat));
    }
}

/// Appends `value` in decimal.
pub fn append_decimal(text: &mut String, value: u64)
    ensures
        final(text)@ == old(text)@ + decimal(value as nat),
        final(text)@.take(old(text)@.len() as int) == old(text)@,
        number(final(text)@.skip(old(text)@.len() as int), 10) == value,
{
    let ghost before = text@;
    append_digits(text, value, 10);
    proof {
        law_digits_read_back(value as nat, 10);
        assert(text@.take(before.len() as int) =~= before);
        assert(text@.skip(before.len() as int) =~= digits(value as nat, 10));
    }
}

/// Appends `value` in hexadecimal, behind `0x`.
pub fn append_hexadecimal(text: &mut String, value: u64)
    ensures
        final(text)@ == old(text)@ + hexadecimal(value as nat),
        final(text)@.take(old(text)@.len() as int) == old(text)@,
        final(text)@.subrange(old(text)@.len() as int, (old(text)@.len() + 2) as int) == seq!['0', 'x'],
        number(final(text)@.skip((old(text)@.len() + 2) as int), 16) == value,
{
    let ghost before = text@;
    text.append("0x");
    append_digits(text, value, 16);
    assert(text@ =~= before + hexadecimal(value as nat));
    proof {
        reveal_strlit("0x");
        law_digits_read_back(value as nat, 16);
        assert(text@.take(before.len() as int) =~= before);
        assert(text@.subrange(before.len() as int, (before.len() + 2) as int) =~= seq!['0', 'x']);
        assert(text@.skip((before.len() + 2) as int) =~= digits(value as nat, 16));
    }
}

/// The value of a digit in base sixteen or below.
pub open spec fn digit_value(c: char) -> nat {
    if '0' <= c <= '9' {
        (c as int - '0' as int) as nat
    } else {
        (c as int - 'a' as int + 10) as nat
    }
}

/// The number that a text reads as in base `base`.
pub open spec fn number(text: Seq<char>, base: nat) -> nat
    decreases text.len(),
{
    if text.len() == 0 {
        0
    } else {
        number(text.drop_last(), base) * base + digit_value(text.last())
    }
}

/// A number is written with digits of its base, in lower case, without a leading zero, and reads
/// as itself.
pub proof fn law_digits_read_back(value: nat, base: nat)
    requires
        2 <= base <= 16,
    ensures
        number(digits(value, base), base) == value,
        digits(value, base).len() > 0,
        digits(value, base).len() > 1 ==> digits(value, base)[0] != '0',
        value > 0 ==> digits(value, base)[0] != '0',
        forall|i: int|
            0 <= i < digits(value, base).len() ==> {
                let c = #[trigger] digits(value, base)[i];
                ('0' <= c <= '9' || 'a' <= c <= 'f') && digit_value(c) < base
            },
    decreases value,
{
    let text = digits(value, base);
    if value < base {
        assert(text =~= seq![digit_char(value as int)]);
        assert(text.drop_last() =~= Seq::empty());
        assert(number(text.drop_last(), base) == 0);
        assert(number(text, base) == number(text.drop_last(), base) * base + digit_value(
            text.last(),
        ));
        assert(0 * base == 0) by (nonlinear_arith);
    } else {
        assert(value / base < value) by (nonlinear_arith)
            requires
                2 <= base <= value,
        ;
        assert(value / base > 0) by (nonlinear_arith)
            requires
                2 <= base <= value,
        ;
        law_digits_read_back(value / base, base);
        let front = digits(value / base, base);
        assert(text == front.push(digit_char((value % base) as int)));
        assert(text.drop_last() =~= front);
        vstd::arithmetic::div_mod::lemma_fundamental_div_mod(value as int, base as int);
        vstd::arithmetic::div_mod::lemma_mod_bound(value as int, base as int);
        assert(base * (value / base) == (value / base) * base) by (nonlinear_arith);
    }
}

/// Whether the two strings are the same.
pub fn same_text(left: &str, right: &str) -> (same: bool)
    ensures
        same == (left@ == right@),
{
    left.to_owned() == right.to_owned()
}

} // verus!
