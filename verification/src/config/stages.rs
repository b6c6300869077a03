//! The stages of the encoding, and the encoding itself.

use crate::config::CesarConfig;
use crate::digits::number_to_string;
use crate::error::CipherError;
use crate::grouping::{group_codes, grouped, windows_fit};
use crate::laws::{group_count, lemma_groups_of_ciphertext};
use crate::model::{
    codes_of, encrypted, joined, normalized, symbols_known, texts_of, widened, written,
};
use crate::shift::{shift_value, shifted_all};
use vstd::prelude::*;
use vstd::string::StringExecFns;

verus! {

broadcast use vstd::std_specs::hash::group_hash_axioms;

impl CesarConfig {
    /// The symbol encoder: the code of each symbol of `word`, in order.
    /// Fails with `AlphabetMiss` exactly when some symbol is no key of the
    /// encrypt alphabet.
    pub fn word_to_byte_vector(&self, word: &str) -> (out: Result<Vec<u8>, CipherError>)
        requires
            self@.encrypt_alphabet is Some,
        ensures
            symbols_known(self@.encrypt_alphabet.unwrap(), word@) ==> out.is_ok()
                && out.unwrap()@ == codes_of(self@.encrypt_alphabet.unwrap(), word@),
            !symbols_known(self@.encrypt_alphabet.unwrap(), word@) ==> out == Err::<
                Vec<u8>,
                CipherError,
            >(CipherError::AlphabetMiss),
    {
        let alphabet = self.encrypt_alphabet.as_ref().unwrap();
        let mut bytes_vector: Vec<u8> = Vec::new();
        for character in it: word.chars()
            invariant
                it.seq() == word@,
                alphabet@ == self@.encrypt_alphabet.unwrap(),
                bytes_vector.len() == it.index(),
                forall|i: int|
                    0 <= i < it.index() ==> alphabet@.contains_key(#[trigger] word@[i] as u32),
                forall|i: int|
                    0 <= i < it.index() ==> #[trigger] bytes_vector[i] == alphabet@[word@[i] as u32],
        {
            assert(character == word@[it.index() as int]);
            let symbol: u32 = character as u32;
            match alphabet.get(&symbol) {
                Some(code) => {
                    bytes_vector.push(*code);
                },
                None => {
                    return Err(CipherError::AlphabetMiss);
                },
            }
        }
        assert(bytes_vector@ =~= codes_of(alphabet@, word@));
        Ok(bytes_vector)
    }

    /// The index normalizer: every code counted from the start index. Where
    /// some code lies below the start index nothing is normalized, and the
    /// result is empty.
    pub fn remove_index_value(&self, byte_characters: Vec<u8>) -> (out: Vec<u8>)
        requires
            self@.start_index is Some,
        ensures
            out@ == normalized(byte_characters@, self@.start_index.unwrap()),
    {
        let start: u8 = self.start_index.unwrap();
        let mut offsets: Vec<u8> = Vec::new();
        let mut at: usize = 0;
        while at < byte_characters.len()
            invariant
                self@.start_index == Some(start as nat),
                at <= byte_characters.len(),
                offsets.len() == at,
                forall|i: int| 0 <= i < at ==> #[trigger] byte_characters[i] >= start,
                forall|i: int|
                    0 <= i < at ==> #[trigger] offsets[i] == byte_characters[i] - start,
            decreases byte_characters.len() - at,
        {
            let code: u8 = byte_characters[at];
            if code < start {
                let nothing: Vec<u8> = Vec::new();
                assert(byte_characters@[at as int] < start);
                assert(nothing@ =~= normalized(byte_characters@, start as nat));
                return nothing;
            }
            offsets.push(code - start);
            at = at + 1;
        }
        assert(offsets@ =~= normalized(byte_characters@, start as nat));
        offsets
    }

    /// The grouper: consecutive windows of `group_size` codes, the last one
    /// holding what remains, each packed into one number. Fails with
    /// `GroupOverflow` exactly when some window does not fit a `u64`.
    pub fn groups_bytes_character(&self, byte_characters: Vec<u64>) -> (out: Result<
        Vec<u64>,
        CipherError,
    >)
        requires
            self@.group_size is Some,
            self@.group_size.unwrap() > 0,
        ensures
            windows_fit(byte_characters@, self@.group_size.unwrap()) ==> out.is_ok()
                && out.unwrap()@ == grouped(byte_characters@, self@.group_size.unwrap()),
            !windows_fit(byte_characters@, self@.group_size.unwrap()) ==> out == Err::<
                Vec<u64>,
                CipherError,
            >(CipherError::GroupOverflow),
    {
        group_codes(&byte_characters, self.group_size.unwrap())
    }

    /// The key shifter: every value becomes the remainder of itself plus the
    /// key, in `0 .. number_of_posibilities`, for a negative key too.
    pub fn add_key_value(&self, list_of_values: Vec<u64>) -> (out: Vec<u64>)
        requires
            self@.key_value is Some,
            self@.number_of_posibilities is Some,
            self@.number_of_posibilities.unwrap() > 0,
        ensures
            out@ == shifted_all(
                list_of_values@,
                self@.key_value.unwrap(),
                self@.number_of_posibilities.unwrap() as int,
            ),
    {
        let key: i32 = self.key_value.unwrap();
        let modulus: u64 = self.number_of_posibilities.unwrap();
        let mut shifted_values: Vec<u64> = Vec::new();
        let mut at: usize = 0;
        while at < list_of_values.len()
            invariant
                modulus > 0,
                at <= list_of_values.len(),
                shifted_values.len() == at,
                forall|i: int|
                    0 <= i < at ==> #[trigger] shifted_values[i] == crate::shift::shifted(
                        list_of_values[i] as int,
                        key as int,
                        modulus as int,
                    ),
            decreases list_of_values.len() - at,
        {
            shifted_values.push(shift_value(list_of_values[at], key, modulus));
            at = at + 1;
        }
        assert(shifted_values@ =~= shifted_all(list_of_values@, key as int, modulus as int));
        shifted_values
    }

    /// Writes every value in decimal, without leading zeros.
    pub fn numbers_to_string_number(&self, digit_characters: Vec<u64>) -> (out: Vec<String>)
        ensures
            texts_of(out@) == written(digit_characters@),
    {
        let mut texts: Vec<String> = Vec::new();
        let mut at: usize = 0;
        while at < digit_characters.len()
            invariant
                at <= digit_characters.len(),
                texts.len() == at,
                forall|i: int|
                    0 <= i < at ==> #[trigger] texts[i]@ == crate::digits::decimal(
                        digit_characters[i] as nat,
                    ),
            decreases digit_characters.len() - at,
        {
            texts.push(number_to_string(digit_characters[at]));
            at = at + 1;
        }
        assert(texts_of(texts@) =~= written(digit_characters@));
        texts
    }

    /// The formatter: every group followed by `-`, the last one too.
    pub fn output_formater(&self, list_of_values: Vec<String>) -> (out: String)
        ensures
            out@ == joined(texts_of(list_of_values@)),
    {
        let ghost parts = texts_of(list_of_values@);
        let mut text = String::new();
        let mut at: usize = 0;
        while at < list_of_values.len()
            invariant
                at <= list_of_values.len(),
                parts == texts_of(list_of_values@),
                text@ == joined(parts.subrange(0, at as int)),
            decreases list_of_values.len() - at,
        {
            proof {
                let longer = parts.subrange(0, at + 1);
                assert(longer.drop_last() =~= parts.subrange(0, at as int));
                assert(longer.last() == list_of_values[at as int]@);
                reveal_strlit("-");
                assert("-"@ =~= seq!['-']);
            }
            text.append(list_of_values[at].as_str());
            text.append("-");
            at = at + 1;
        }
        assert(parts.subrange(0, at as int) =~= parts);
        text
    }

    /// Encrypts `word`: symbols to codes, codes counted from the start index,
    /// windows packed, values shifted by the key, decimal groups each followed
    /// by `-`. An unset configuration, then an invalid one, is refused before
    /// the word is looked at; the empty word gives the empty text; after that
    /// the first stage that fails gives the failure.
    pub fn encrypt_word(&self, word: &str) -> (out: Result<String, CipherError>)
        ensures
            match out {
                Ok(text) => encrypted(self@, word@) == Ok::<Seq<char>, CipherError>(text@),
                Err(error) => encrypted(self@, word@) == Err::<Seq<char>, CipherError>(error),
            },
            self@.is_valid() && word@.len() == 0 ==> out.is_ok() && out.unwrap()@
                == Seq::<char>::empty(),
            self@.encrypt_alphabet is None || symbols_known(
                self@.encrypt_alphabet.unwrap(),
                word@,
            ) ==> out != Err::<String, CipherError>(CipherError::AlphabetMiss),
            self@.group_size == Some(1nat) && out.is_ok() ==> group_count(out.unwrap()@)
                == word@.len(),
    {
        proof {
            if encrypted(self@, word@) is Ok {
                lemma_groups_of_ciphertext(self@, word@);
            }
        }
        if !self.is_set() {
            return Err(CipherError::ConfigNotSet);
        }
        match self.is_valid() {
            Err(error) => {
                return Err(error);
            },
            Ok(_) => {},
        }
        if word.is_empty() {
            return Ok(String::new());
        }
        let codes = match self.word_to_byte_vector(word) {
            Ok(codes) => codes,
            Err(error) => {
                return Err(error);
            },
        };
        assert(codes.len() == word@.len());
        let offsets = self.remove_index_value(codes);
        if offsets.len() == 0 {
            return Err(CipherError::BelowStartIndex);
        }
        let plain = widen_codes(&offsets);
        let groups = match self.groups_bytes_character(plain) {
            Ok(groups) => groups,
            Err(error) => {
                return Err(error);
            },
        };
        if self.number_of_posibilities.unwrap() == 0 {
            return Err(CipherError::ZeroPossibilities);
        }
        let added_key = self.add_key_value(groups);
        let number_to_string = self.numbers_to_string_number(added_key);
        Ok(self.output_formater(number_to_string))
    }
}

/// The same codes as wider numbers.
fn widen_codes(codes: &Vec<u8>) -> (out: Vec<u64>)
    ensures
        out@ == widened(codes@),
{
    let mut wide: Vec<u64> = Vec::new();
    let mut at: usize = 0;
    while at < codes.len()
        invariant
            at <= codes.len(),
            wide.len() == at,
            forall|i: int| 0 <= i < at ==> #[trigger] wide[i] == codes[i] as u64,
        decreases codes.len() - at,
    {
        wide.push(codes[at] as u64);
        at = at + 1;
    }
    assert(wide@ =~= widened(codes@));
    wide
}

} // verus!
