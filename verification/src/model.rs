//! The cipher as mathematics: what a configuration is, and what it makes
//! of a word.

use crate::digits::{block_unit, decimal, is_number, number_of};
use crate::error::{CipherError, InvalidReason};
use crate::grouping::{grouped, window_at, window_count, windows_fit};
use crate::shift::shifted_all;
use vstd::prelude::*;

verus! {

/// What a configuration holds. A field is `None` until it is set.
pub struct ConfigModel {
    /// The additive shift of each group.
    pub key_value: Option<int>,
    /// How many symbols fold into one group.
    pub group_size: Option<nat>,
    /// The modulus of the shift.
    pub number_of_posibilities: Option<nat>,
    /// The digit width reserved per symbol.
    pub index_digit_number: Option<nat>,
    /// The code of the alphabet's first symbol.
    pub start_index: Option<nat>,
    /// From code to symbol.
    pub decrypt_alphabet: Option<Map<u8, char>>,
    /// From symbol, by its scalar value, to code.
    pub encrypt_alphabet: Option<Map<u32, u8>>,
}

impl ConfigModel {
    /// Every field holds a value.
    pub open spec fn is_set(self) -> bool {
        &&& self.key_value is Some
        &&& self.group_size is Some
        &&& self.number_of_posibilities is Some
        &&& self.index_digit_number is Some
        &&& self.start_index is Some
        &&& self.decrypt_alphabet is Some
        &&& self.encrypt_alphabet is Some
    }

    /// The first reason to refuse these values, if there is one: a zero
    /// key, then a zero group size, then a zero digit width.
    pub open spec fn invalid_reason(self) -> Option<InvalidReason>
        recommends
            self.key_value is Some,
            self.group_size is Some,
            self.index_digit_number is Some,
    {
        if self.key_value == Some(0int) {
            Some(InvalidReason::ZeroKey)
        } else if self.group_size == Some(0nat) {
            Some(InvalidReason::ZeroGroupSize)
        } else if self.index_digit_number == Some(0nat) {
            Some(InvalidReason::ZeroDigitNumber)
        } else {
            None
        }
    }

    /// Set, and with no reason to refuse it.
    pub open spec fn is_valid(self) -> bool {
        self.is_set() && self.invalid_reason() is None
    }
}

/// Every symbol of `word` is a key of `alphabet`.
pub open spec fn symbols_known(alphabet: Map<u32, u8>, word: Seq<char>) -> bool {
    forall|i: int| 0 <= i < word.len() ==> alphabet.contains_key(#[trigger] word[i] as u32)
}

/// The code of each symbol of `word`, in order.
pub open spec fn codes_of(alphabet: Map<u32, u8>, word: Seq<char>) -> Seq<u8>
    recommends
        symbols_known(alphabet, word),
{
    Seq::new(word.len(), |i: int| alphabet[word[i] as u32])
}

/// No code lies below `start`.
pub open spec fn codes_reach(codes: Seq<u8>, start: nat) -> bool {
    forall|i: int| 0 <= i < codes.len() ==> #[trigger] codes[i] >= start
}

/// The codes counted from `start`. Where a code lies below `start` the
/// difference is no code, and the whole result is empty.
pub open spec fn normalized(codes: Seq<u8>, start: nat) -> Seq<u8> {
    if codes_reach(codes, start) {
        Seq::new(codes.len(), |i: int| (codes[i] - start) as u8)
    } else {
        Seq::empty()
    }
}

/// The same codes as wider numbers.
pub open spec fn widened(codes: Seq<u8>) -> Seq<u64> {
    Seq::new(codes.len(), |i: int| codes[i] as u64)
}

/// The decimal writing of each value, in order.
pub open spec fn written(values: Seq<u64>) -> Seq<Seq<char>> {
    Seq::new(values.len(), |i: int| decimal(values[i] as nat))
}

/// The texts that a vector of strings holds.
pub open spec fn texts_of(strings: Seq<String>) -> Seq<Seq<char>> {
    Seq::new(strings.len(), |i: int| strings[i]@)
}

/// Every part followed by the delimiter `'-'`, the last one too.
pub open spec fn joined(parts: Seq<Seq<char>>) -> Seq<char>
    decreases parts.len(),
{
    if parts.len() == 0 {
        Seq::empty()
    } else {
        joined(parts.drop_last()) + parts.last() + seq!['-']
    }
}

/// The shifted groups that a word becomes, once every stage before the
/// formatter has succeeded.
pub open spec fn shifted_groups(config: ConfigModel, word: Seq<char>) -> Seq<u64>
    recommends
        config.is_set(),
{
    let codes = codes_of(config.encrypt_alphabet.unwrap(), word);
    let plain = widened(normalized(codes, config.start_index.unwrap()));
    shifted_all(
        grouped(plain, config.group_size.unwrap()),
        config.key_value.unwrap(),
        config.number_of_posibilities.unwrap() as int,
    )
}

/// What encrypting `word` under `config` gives: the ciphertext, or the
/// failure of the first stage that fails.
pub open spec fn encrypted(config: ConfigModel, word: Seq<char>) -> Result<Seq<char>, CipherError> {
    if !config.is_set() {
        Err(CipherError::ConfigNotSet)
    } else if config.invalid_reason() is Some {
        Err(CipherError::ConfigInvalid(config.invalid_reason().unwrap()))
    } else if word.len() == 0 {
        Ok(Seq::empty())
    } else if !symbols_known(config.encrypt_alphabet.unwrap(), word) {
        Err(CipherError::AlphabetMiss)
    } else if !codes_reach(
        codes_of(config.encrypt_alphabet.unwrap(), word),
        config.start_index.unwrap(),
    ) {
        Err(CipherError::BelowStartIndex)
    } else if !windows_fit(
        widened(
            normalized(
                codes_of(config.encrypt_alphabet.unwrap(), word),
                config.start_index.unwrap(),
            ),
        ),
        config.group_size.unwrap(),
    ) {
        Err(CipherError::GroupOverflow)
    } else if config.number_of_posibilities == Some(0nat) {
        Err(CipherError::ZeroPossibilities)
    } else {
        Ok(joined(written(shifted_groups(config, word))))
    }
}

/// What is missing for `len` to be a multiple of `width`.
pub open spec fn missing(len: nat, width: nat) -> nat
    recommends
        width > 0,
{
    ((width - len % width) % (width as int)) as nat
}

/// `text` with trailing `'0'` characters up to the next multiple of `width`.
pub open spec fn padded(text: Seq<char>, width: nat) -> Seq<char>
    recommends
        width > 0,
{
    text + Seq::new(missing(text.len(), width), |i: int| '0')
}

/// Padding an aligned text changes nothing, a padded text is aligned, and
/// so padding twice is padding once.
pub proof fn lemma_padding_idempotent(text: Seq<char>, width: nat)
    requires
        width > 0,
    ensures
        text.len() % width == 0 ==> padded(text, width) == text,
        padded(text, width).len() % width == 0,
        padded(padded(text, width), width) == padded(text, width),
        padded(text, width).len() < text.len() + width,
{
    let len = text.len();
    let rest = len % width;
    vstd::arithmetic::div_mod::lemma_fundamental_div_mod(len as int, width as int);
    assert(0 <= rest < width) by (nonlinear_arith)
        requires
            width > 0,
            rest == len % width,
    ;
    if rest == 0 {
        vstd::arithmetic::div_mod::lemma_mod_self_0(width as int);
        assert(missing(len, width) == 0);
        assert(padded(text, width) =~= text);
    } else {
        vstd::arithmetic::div_mod::lemma_small_mod((width - rest) as nat, width);
        assert(missing(len, width) == width - rest);
        let full = padded(text, width);
        let quotient = len as int / width as int;
        assert(full.len() == width * (quotient + 1)) by (nonlinear_arith)
            requires
                full.len() == len + width - rest,
                len == width * quotient + rest,
        ;
        vstd::arithmetic::div_mod::lemma_mod_multiples_basic(quotient + 1, width as int);
        assert((quotient + 1) * width == width * (quotient + 1)) by (nonlinear_arith);
        vstd::arithmetic::div_mod::lemma_mod_self_0(width as int);
        assert(missing(full.len(), width) == 0);
        assert(padded(full, width) =~= full);
    }
}

/// `text` cut into consecutive pieces of `width` characters, the last one
/// holding what remains.
pub open spec fn chunked(text: Seq<char>, width: nat) -> Seq<Seq<char>>
    recommends
        width > 0,
{
    Seq::new(window_count(text.len(), width), |index: int| window_at(text, width, index))
}

/// What a piece of `group_size` symbols, each written with
/// `index_digit_number` digits, holds too much while its symbols still count
/// from zero: the start index once in every block of digits.
pub open spec fn removal_of(config: ConfigModel) -> nat
    recommends
        config.start_index is Some,
        config.group_size is Some,
        config.index_digit_number is Some,
{
    config.start_index.unwrap() * block_unit(
        config.group_size.unwrap(),
        config.index_digit_number.unwrap(),
    )
}

/// Why `text` cannot be read as a number of at least `removal`, if it
/// cannot: it is no digit string that a `u64` holds, or its number is too
/// small.
pub open spec fn number_failure(text: Seq<char>, removal: nat) -> Option<CipherError> {
    if !(is_number(text) && number_of(text) <= u64::MAX) {
        Some(CipherError::NumericParse)
    } else if number_of(text) < removal {
        Some(CipherError::BelowStartIndex)
    } else {
        None
    }
}

/// The number of each text less `removal`, in order.
pub open spec fn numbers_less(texts: Seq<Seq<char>>, removal: nat) -> Seq<u64> {
    Seq::new(texts.len(), |i: int| (number_of(texts[i]) - removal) as u64)
}

} // verus!
