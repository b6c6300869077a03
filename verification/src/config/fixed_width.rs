//! The helpers of the fixed-width writing: padding a digit string, cutting
//! it into pieces, and reading the pieces back as numbers.

use crate::config::CesarConfig;
use crate::digits::{
    block_unit, checked_block_unit, lemma_power_of_ten_grows, number_of, parse_number,
    power_of_ten, repeated_digit,
};
use crate::error::{CipherError, InvalidReason};
use crate::grouping::{lemma_no_codes_no_windows, lemma_window_bounds, window_at, window_count};
use crate::model::{
    chunked, missing, number_failure, numbers_less, padded, removal_of, texts_of, ConfigModel,
};
use vstd::prelude::*;
use vstd::string::{StrSliceExecFns, StringExecFns};

verus! {

impl CesarConfig {
    /// Pads a digit string with trailing `0` characters until its length,
    /// counted in characters, is a multiple of `group_size` times
    /// `index_digit_number`. An aligned string comes back unchanged.
    pub fn add_missing_character(&self, string_to_completed: String) -> (out: String)
        requires
            self@.group_size is Some,
            self@.index_digit_number is Some,
            0 < self@.group_size.unwrap() * self@.index_digit_number.unwrap() <= usize::MAX,
        ensures
            out@ == padded(
                string_to_completed@,
                self@.group_size.unwrap() * self@.index_digit_number.unwrap(),
            ),
    {
        let size: usize = self.group_size.unwrap();
        let digits: usize = self.index_digit_number.unwrap() as usize;
        let width: usize = size * digits;
        let len: usize = string_to_completed.as_str().unicode_len();
        let rest: usize = len % width;
        let absent: usize = if rest == 0 {
            0
        } else {
            width - rest
        };
        proof {
            if rest == 0 {
                vstd::arithmetic::div_mod::lemma_mod_self_0(width as int);
            } else {
                vstd::arithmetic::div_mod::lemma_small_mod((width - rest) as nat, width as nat);
            }
            assert(absent == missing(len as nat, width as nat));
        }
        let mut text = string_to_completed;
        let mut added: usize = 0;
        while added < absent
            invariant
                added <= absent,
                text@ == string_to_completed@ + Seq::new(added as nat, |i: int| '0'),
            decreases absent - added,
        {
            proof {
                reveal_strlit("0");
                assert(Seq::new(added as nat, |i: int| '0') + "0"@ =~= Seq::new(
                    (added + 1) as nat,
                    |i: int| '0',
                ));
            }
            text.append("0");
            added = added + 1;
            assert(text@ =~= string_to_completed@ + Seq::new(added as nat, |i: int| '0'));
        }
        text
    }

    /// Cuts `characters` into consecutive pieces of `group_size` times
    /// `index_digit_number` characters, the last piece holding what remains.
    /// Fails with `ConfigNotSet` when the group size is absent, and with
    /// `ConfigInvalid(ZeroGroupSize)` when it is zero.
    pub fn characters_to_string_vector(&self, characters: &str) -> (out: Result<
        Vec<String>,
        CipherError,
    >)
        requires
            self@.group_size is Some && self@.group_size.unwrap() > 0 ==> {
                &&& self@.index_digit_number is Some
                &&& 0 < self@.group_size.unwrap() * self@.index_digit_number.unwrap()
                    <= usize::MAX
            },
        ensures
            self@.group_size is None ==> out == Err::<Vec<String>, CipherError>(
                CipherError::ConfigNotSet,
            ),
            self@.group_size == Some(0nat) ==> out == Err::<Vec<String>, CipherError>(
                CipherError::ConfigInvalid(InvalidReason::ZeroGroupSize),
            ),
            self@.group_size is Some && self@.group_size.unwrap() > 0 ==> out.is_ok()
                && texts_of(out.unwrap()@) == chunked(
                characters@,
                self@.group_size.unwrap() * self@.index_digit_number.unwrap(),
            ),
    {
        let size: usize = match self.group_size {
            None => {
                return Err(CipherError::ConfigNotSet);
            },
            Some(size) => size,
        };
        if size == 0 {
            return Err(CipherError::ConfigInvalid(InvalidReason::ZeroGroupSize));
        }
        let width: usize = size * (self.index_digit_number.unwrap() as usize);
        let len: usize = characters.unicode_len();
        let ascii: bool = characters.is_ascii();
        let mut pieces: Vec<String> = Vec::new();
        let mut from: usize = 0;
        let mut index: usize = 0;
        proof {
            lemma_no_codes_no_windows(width as nat);
        }
        while from < len
            invariant
                width > 0,
                ascii == characters.is_ascii(),
                len == characters@.len(),
                from <= len,
                from < len ==> from == index * width,
                from == len ==> index == window_count(len as nat, width as nat),
                index <= window_count(len as nat, width as nat),
                pieces.len() == index,
                forall|i: int|
                    0 <= i < index ==> #[trigger] pieces[i]@ == window_at(
                        characters@,
                        width as nat,
                        i,
                    ),
            decreases len - from,
        {
            let to: usize = if len - from < width {
                len
            } else {
                from + width
            };
            proof {
                lemma_window_bounds(len as nat, width as nat, index as nat);
                assert(index <= index * width && (index + 1) * width == index * width + width)
                    by (nonlinear_arith)
                    requires
                        width > 0,
                ;
            }
            let piece: &str = if ascii {
                characters.substring_ascii(from, to)
            } else {
                characters.substring_char(from, to)
            };
            pieces.push(String::from_str(piece));
            from = to;
            index = index + 1;
        }
        assert(texts_of(pieces@) =~= chunked(characters@, width as nat));
        Ok(pieces)
    }

    /// Reads every piece as a decimal number and takes from it the start
    /// index once for each of its `group_size` blocks of
    /// `index_digit_number` digits. The first piece that cannot be treated
    /// so gives the failure: `NumericParse` where it is no digit string that
    /// a `u64` holds, `BelowStartIndex` where its number is too small.
    pub fn string_vector_to_numeric_vector(&self, splited_word: Vec<String>) -> (out: Result<
        Vec<u64>,
        CipherError,
    >)
        requires
            self@.start_index is Some,
            self@.group_size is Some,
            self@.index_digit_number is Some,
        ensures
            (forall|i: int|
                0 <= i < splited_word.len() ==> number_failure(
                    #[trigger] splited_word[i]@,
                    removal_of(self@),
                ) is None) ==> out.is_ok() && out.unwrap()@ == numbers_less(
                texts_of(splited_word@),
                removal_of(self@),
            ),
            forall|first: int|
                0 <= first < splited_word.len() && number_failure(
                    #[trigger] splited_word[first]@,
                    removal_of(self@),
                ) is Some && (forall|i: int|
                    0 <= i < first ==> number_failure(
                        #[trigger] splited_word[i]@,
                        removal_of(self@),
                    ) is None) ==> out == Err::<Vec<u64>, CipherError>(
                    number_failure(splited_word[first]@, removal_of(self@)).unwrap(),
                ),
    {
        let start: u8 = self.start_index.unwrap();
        let unit: Option<u64> = checked_block_unit(
            self.group_size.unwrap(),
            self.index_digit_number.unwrap(),
        );
        let ghost exact = removal_of(self@);
        let value_to_remove: Option<u64> = match unit {
            Some(unit) => {
                proof {
                    assert(start * unit <= 255 * u64::MAX) by (nonlinear_arith)
                        requires
                            start <= 255,
                            unit <= u64::MAX,
                    ;
                }
                let wide: u128 = start as u128 * unit as u128;
                if wide > u64::MAX as u128 {
                    None
                } else {
                    Some(wide as u64)
                }
            },
            None => {
                if start == 0 {
                    proof {
                        assert(0 * block_unit_of(self@) == 0) by (nonlinear_arith);
                    }
                    Some(0)
                } else {
                    proof {
                        assert(start * block_unit_of(self@) > u64::MAX) by (nonlinear_arith)
                            requires
                                start >= 1,
                                block_unit_of(self@) > u64::MAX,
                        ;
                    }
                    None
                }
            },
        };
        assert(match value_to_remove {
            Some(amount) => amount == exact,
            None => exact > u64::MAX,
        });
        let mut numbers: Vec<u64> = Vec::new();
        let mut at: usize = 0;
        while at < splited_word.len()
            invariant
                exact == removal_of(self@),
                match value_to_remove {
                    Some(amount) => amount == exact,
                    None => exact > u64::MAX,
                },
                at <= splited_word.len(),
                numbers.len() == at,
                forall|i: int|
                    0 <= i < at ==> number_failure(#[trigger] splited_word[i]@, exact) is None,
                forall|i: int|
                    0 <= i < at ==> #[trigger] numbers[i] == number_of(splited_word[i]@) - exact,
            decreases splited_word.len() - at,
        {
            let element: u64 = match parse_number(splited_word[at].as_str()) {
                Ok(element) => element,
                Err(error) => {
                    assert(number_failure(splited_word[at as int]@, exact) == Some(error));
                    return Err(error);
                },
            };
            let amount: u64 = match value_to_remove {
                Some(amount) if amount <= element => amount,
                _ => {
                    assert(number_failure(splited_word[at as int]@, exact) == Some(
                        CipherError::BelowStartIndex,
                    ));
                    return Err(CipherError::BelowStartIndex);
                },
            };
            numbers.push(element - amount);
            at = at + 1;
        }
        assert(numbers@ =~= numbers_less(texts_of(splited_word@), exact));
        Ok(numbers)
    }

    /// The number written by `group_size` copies of the digit
    /// `group_size - 1`, plus one: 1, 12, 223, and so on up to ten digits.
    pub fn number_of_posibilities_by_group_size(&self) -> (out: u64)
        requires
            self@.group_size is Some,
            1 <= self@.group_size.unwrap() <= 10,
        ensures
            out == repeated_digit(
                (self@.group_size.unwrap() - 1) as nat,
                self@.group_size.unwrap(),
            ) + 1,
    {
        let size: usize = self.group_size.unwrap();
        let digit: u64 = (size - 1) as u64;
        let mut result: u64 = 0;
        let mut limit: u64 = 1;
        let mut done: usize = 0;
        while done < size
            invariant
                done <= size <= 10,
                digit <= 9,
                result == repeated_digit(digit as nat, done as nat),
                result < limit,
                limit <= 10_000_000_000,
                done < 10 ==> limit * 10 <= 10_000_000_000,
                limit == power_of_ten(done as nat),
            decreases size - done,
        {
            proof {
                lemma_ten_digits();
                assert(power_of_ten((done + 1) as nat) == 10 * limit);
                if done + 1 < 10 {
                    lemma_power_of_ten_grows((done + 2) as nat, 10);
                    assert(power_of_ten((done + 2) as nat) == 100 * limit);
                }
            }
            result = result * 10 + digit;
            limit = limit * 10;
            done = done + 1;
        }
        result + 1
    }
}

/// The weight of the start index in one piece of a configuration.
spec fn block_unit_of(config: ConfigModel) -> nat {
    block_unit(config.group_size.unwrap(), config.index_digit_number.unwrap())
}

/// Ten to the power ten.
proof fn lemma_ten_digits()
    ensures
        power_of_ten(10) == 10_000_000_000,
{
    reveal_with_fuel(power_of_ten, 11);
}

} // verus!
