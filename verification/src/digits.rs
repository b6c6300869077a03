//! Decimal digit strings: how a number is written, and how it is read back.

use crate::error::CipherError;
use vstd::prelude::*;
use vstd::string::StringExecFns;

verus! {

/// The character that writes the digit `digit`.
pub open spec fn digit_char(digit: nat) -> char
    recommends
        digit < 10,
{
    if digit == 0 {
        '0'
    } else if digit == 1 {
        '1'
    } else if digit == 2 {
        '2'
    } else if digit == 3 {
        '3'
    } else if digit == 4 {
        '4'
    } else if digit == 5 {
        '5'
    } else if digit == 6 {
        '6'
    } else if digit == 7 {
        '7'
    } else if digit == 8 {
        '8'
    } else {
        '9'
    }
}

/// The decimal writing of `number`, without leading zeros.
pub open spec fn decimal(number: nat) -> Seq<char>
    decreases number,
{
    if number < 10 {
        seq![digit_char(number)]
    } else {
        decimal(number / 10).push(digit_char(number % 10))
    }
}

/// Whether `symbol` is one of `'0'` to `'9'`.
pub open spec fn is_digit(symbol: char) -> bool {
    '0' <= symbol <= '9'
}

/// The digit that `symbol` writes.
pub open spec fn digit_of(symbol: char) -> nat
    recommends
        is_digit(symbol),
{
    (symbol as int - '0' as int) as nat
}

/// Whether `text` is made of decimal digits only, and of at least one.
pub open spec fn is_number(text: Seq<char>) -> bool {
    text.len() > 0 && forall|i: int| 0 <= i < text.len() ==> is_digit(#[trigger] text[i])
}

/// The number that a digit string writes.
pub open spec fn number_of(text: Seq<char>) -> nat
    decreases text.len(),
{
    if text.len() == 0 {
        0
    } else {
        number_of(text.drop_last()) * 10 + digit_of(text.last())
    }
}

/// The one-character text of a digit.
fn digit_text(digit: u64) -> (text: &'static str)
    requires
        digit < 10,
    ensures
        text@ == seq![digit_char(digit as nat)],
{
    proof {
        reveal_strlit("0");
        reveal_strlit("1");
        reveal_strlit("2");
        reveal_strlit("3");
        reveal_strlit("4");
        reveal_strlit("5");
        reveal_strlit("6");
        reveal_strlit("7");
        reveal_strlit("8");
        reveal_strlit("9");
    }
    let text = if digit == 0 {
        "0"
    } else if digit == 1 {
        "1"
    } else if digit == 2 {
        "2"
    } else if digit == 3 {
        "3"
    } else if digit == 4 {
        "4"
    } else if digit == 5 {
        "5"
    } else if digit == 6 {
        "6"
    } else if digit == 7 {
        "7"
    } else if digit == 8 {
        "8"
    } else {
        "9"
    };
    assert(text@ =~= seq![digit_char(digit as nat)]);
    text
}

/// Writes `number` in decimal.
pub fn number_to_string(number: u64) -> (text: String)
    ensures
        text@ == decimal(number as nat),
    decreases number,
{
    if number < 10 {
        String::from_str(digit_text(number))
    } else {
        let mut text = number_to_string(number / 10);
        text.append(digit_text(number % 10));
        assert(text@ =~= decimal(number as nat));
        text
    }
}

/// Reads a digit string. Succeeds exactly on a string of decimal digits
/// whose number a `u64` holds; every other string is a `NumericParse`
/// failure.
pub fn parse_number(text: &str) -> (out: Result<u64, CipherError>)
    ensures
        is_number(text@) && number_of(text@) <= u64::MAX ==> out == Ok::<u64, CipherError>(
            number_of(text@) as u64,
        ),
        !(is_number(text@) && number_of(text@) <= u64::MAX) ==> out == Err::<u64, CipherError>(
            CipherError::NumericParse,
        ),
{
    if text.is_empty() {
        return Err(CipherError::NumericParse);
    }
    let mut failed: bool = false;
    let mut value: u64 = 0;
    for symbol in it: text.chars()
        invariant
            it.seq() == text@,
            failed ==> !(is_number(text@) && number_of(text@) <= u64::MAX),
            !failed ==> value == number_of(text@.subrange(0, it.index() as int)),
            !failed ==> forall|i: int| 0 <= i < it.index() ==> is_digit(#[trigger] text@[i]),
    {
        let ghost at = it.index() as int;
        assert(symbol == text@[at]);
        if !failed {
            if symbol < '0' || symbol > '9' {
                failed = true;
            } else {
                let digit: u64 = (symbol as u32 - '0' as u32) as u64;
                let wide: u128 = value as u128 * 10 + digit as u128;
                proof {
                    let longer = text@.subrange(0, at + 1);
                    assert(longer.drop_last() =~= text@.subrange(0, at));
                    assert(longer.last() == symbol);
                    assert(number_of(longer) == wide);
                    lemma_number_prefix(text@, at + 1);
                }
                if wide > u64::MAX as u128 {
                    failed = true;
                } else {
                    value = wide as u64;
                }
            }
        }
    }
    if failed {
        Err(CipherError::NumericParse)
    } else {
        assert(text@.subrange(0, text@.len() as int) =~= text@);
        Ok(value)
    }
}

/// What is written in decimal is a digit string and reads back as the same
/// number.
pub proof fn lemma_decimal_reads_back(number: nat)
    ensures
        is_number(decimal(number)),
        number_of(decimal(number)) == number,
    decreases number,
{
    let text = decimal(number);
    if number < 10 {
        assert(text.drop_last() =~= Seq::<char>::empty());
        assert(number_of(text.drop_last()) == 0);
        assert(text.last() == digit_char(number));
    } else {
        lemma_decimal_reads_back(number / 10);
        assert(text.drop_last() =~= decimal(number / 10));
        assert(text.last() == digit_char(number % 10));
        assert forall|i: int| 0 <= i < text.len() implies is_digit(#[trigger] text[i]) by {
            if i < text.len() - 1 {
                assert(text[i] == decimal(number / 10)[i]);
            }
        }
    }
}

/// A digit string writes at least what any of its prefixes writes.
proof fn lemma_number_prefix(text: Seq<char>, len: int)
    requires
        0 <= len <= text.len(),
    ensures
        number_of(text.subrange(0, len)) <= number_of(text),
    decreases text.len() - len,
{
    if len == text.len() {
        assert(text.subrange(0, len) =~= text);
    } else {
        lemma_number_prefix(text, len + 1);
        let longer = text.subrange(0, len + 1);
        assert(longer.drop_last() =~= text.subrange(0, len));
    }
}

/// Ten to the power `exponent`.
pub open spec fn power_of_ten(exponent: nat) -> nat
    decreases exponent,
{
    if exponent == 0 {
        1
    } else {
        10 * power_of_ten((exponent - 1) as nat)
    }
}

/// A power of ten is positive and grows with its exponent.
pub proof fn lemma_power_of_ten_grows(low: nat, high: nat)
    requires
        low <= high,
    ensures
        0 < power_of_ten(low) <= power_of_ten(high),
    decreases high,
{
    if low < high {
        lemma_power_of_ten_grows(low, (high - 1) as nat);
    } else if low > 0 {
        lemma_power_of_ten_grows((low - 1) as nat, (low - 1) as nat);
    }
}

/// The number whose writing is `blocks` blocks of `digits` digits, each
/// block holding the number one: `1`, `101`, `10101` for two digits.
pub open spec fn block_unit(blocks: nat, digits: nat) -> nat
    decreases blocks,
{
    if blocks == 0 {
        0
    } else {
        block_unit((blocks - 1) as nat, digits) * power_of_ten(digits) + 1
    }
}

/// More blocks make a larger number, and at least as many as blocks.
pub proof fn lemma_block_unit_grows(low: nat, high: nat, digits: nat)
    requires
        low <= high,
    ensures
        low <= block_unit(low, digits) <= block_unit(high, digits),
    decreases high,
{
    lemma_power_of_ten_grows(0, digits);
    if low < high {
        lemma_block_unit_grows(low, (high - 1) as nat, digits);
        assert(block_unit((high - 1) as nat, digits) * power_of_ten(digits) >= block_unit(
            (high - 1) as nat,
            digits,
        )) by (nonlinear_arith)
            requires
                power_of_ten(digits) >= 1,
        ;
    } else if low > 0 {
        lemma_block_unit_grows((low - 1) as nat, (low - 1) as nat, digits);
        assert(block_unit((low - 1) as nat, digits) * power_of_ten(digits) >= block_unit(
            (low - 1) as nat,
            digits,
        )) by (nonlinear_arith)
            requires
                power_of_ten(digits) >= 1,
        ;
    }
}

/// With no digit per block every block weighs one.
proof fn lemma_block_unit_without_digits(blocks: nat)
    ensures
        block_unit(blocks, 0) == blocks,
    decreases blocks,
{
    if blocks > 0 {
        lemma_block_unit_without_digits((blocks - 1) as nat);
        assert(block_unit((blocks - 1) as nat, 0) * 1 == block_unit((blocks - 1) as nat, 0))
            by (nonlinear_arith);
    }
}

/// Ten to the power `exponent`, or `None` where a `u64` cannot hold it.
pub fn checked_power_of_ten(exponent: u8) -> (out: Option<u64>)
    ensures
        power_of_ten(exponent as nat) <= u64::MAX ==> out == Some(
            power_of_ten(exponent as nat) as u64,
        ),
        power_of_ten(exponent as nat) > u64::MAX ==> out is None,
{
    let mut power: u64 = 1;
    let mut done: u8 = 0;
    while done < exponent
        invariant
            done <= exponent,
            power == power_of_ten(done as nat),
        decreases exponent - done,
    {
        let wide: u128 = power as u128 * 10;
        proof {
            lemma_power_of_ten_grows((done + 1) as nat, exponent as nat);
        }
        if wide > u64::MAX as u128 {
            return None;
        }
        power = wide as u64;
        done = done + 1;
    }
    Some(power)
}

/// `block_unit(blocks, digits)`, or `None` where a `u64` cannot hold it.
pub fn checked_block_unit(blocks: usize, digits: u8) -> (out: Option<u64>)
    ensures
        block_unit(blocks as nat, digits as nat) <= u64::MAX ==> out == Some(
            block_unit(blocks as nat, digits as nat) as u64,
        ),
        block_unit(blocks as nat, digits as nat) > u64::MAX ==> out is None,
{
    if blocks == 0 {
        return Some(0);
    }
    assert(block_unit(0, digits as nat) * power_of_ten(digits as nat) == 0) by (nonlinear_arith)
        requires
            block_unit(0, digits as nat) == 0,
    ;
    assert(block_unit(1, digits as nat) == 1);
    if blocks == 1 {
        return Some(1);
    }
    let base: u64 = match checked_power_of_ten(digits) {
        Some(base) => base,
        None => {
            proof {
                lemma_block_unit_grows(2, blocks as nat, digits as nat);
                assert(1 * power_of_ten(digits as nat) == power_of_ten(digits as nat))
                    by (nonlinear_arith);
            }
            return None;
        },
    };
    if base == 1 {
        proof {
            if digits >= 1 {
                lemma_power_of_ten_grows(1, digits as nat);
                assert(power_of_ten(0) == 1);
                assert(power_of_ten(1) == 10);
            }
            lemma_block_unit_without_digits(blocks as nat);
        }
        return Some(blocks as u64);
    }
    let mut unit: u64 = 1;
    let mut done: usize = 1;
    while done < blocks
        invariant
            1 <= done <= blocks,
            base == power_of_ten(digits as nat),
            unit == block_unit(done as nat, digits as nat),
        decreases blocks - done,
    {
        proof {
            assert(unit * base <= u64::MAX * u64::MAX) by (nonlinear_arith)
                requires
                    unit <= u64::MAX,
                    base <= u64::MAX,
            ;
        }
        let wide: u128 = unit as u128 * base as u128 + 1;
        proof {
            lemma_block_unit_grows((done + 1) as nat, blocks as nat, digits as nat);
        }
        if wide > u64::MAX as u128 {
            return None;
        }
        unit = wide as u64;
        done = done + 1;
    }
    Some(unit)
}

/// The number written by `times` copies of the digit `digit`.
pub open spec fn repeated_digit(digit: nat, times: nat) -> nat
    decreases times,
{
    if times == 0 {
        0
    } else {
        repeated_digit(digit, (times - 1) as nat) * 10 + digit
    }
}

} // verus!
