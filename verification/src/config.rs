//! The configuration of the cipher: its fields, its model and its constructors.

use crate::error::{CipherError, InvalidReason};
use crate::model::ConfigModel;
use std::collections::HashMap;
use vstd::prelude::*;

mod builder;
mod fixed_width;
mod stages;

verus! {

broadcast use vstd::std_specs::hash::group_hash_axioms;

/// The parameters of the cipher. A configuration starts unset, is filled by
/// chained setters, and is only read afterwards.
pub struct CesarConfig {
    key_value: Option<i32>,
    group_size: Option<usize>,
    number_of_posibilities: Option<u64>,
    index_digit_number: Option<u8>,
    start_index: Option<u8>,
    decrypt_alphabet: Option<HashMap<u8, char>>,
    encrypt_alphabet: Option<HashMap<u32, u8>>,
}

/// The code of `'A'`, the first symbol of the default alphabet.
pub const DEFAULT_START_INDEX: u8 = 65;

/// The number of symbols of the default alphabet.
pub const DEFAULT_ALPHABET_SIZE: u8 = 26;

/// The default table from code to symbol: 65 to 90 onto `'A'` to `'Z'`.
pub open spec fn default_decrypt_alphabet() -> Map<u8, char> {
    Map::new(|code: u8| 65 <= code < 91, |code: u8| code as char)
}

/// The default table from symbol to code: `'A'` to `'Z'`, each keyed by its
/// scalar value, onto 65 to 90.
pub open spec fn default_encrypt_alphabet() -> Map<u32, u8> {
    Map::new(|symbol: u32| 65 <= symbol < 91, |symbol: u32| symbol as u8)
}

/// The values of the default configuration.
pub open spec fn default_model() -> ConfigModel {
    ConfigModel {
        key_value: Some(2int),
        group_size: Some(1nat),
        number_of_posibilities: Some(26nat),
        index_digit_number: Some(2nat),
        start_index: Some(65nat),
        decrypt_alphabet: Some(default_decrypt_alphabet()),
        encrypt_alphabet: Some(default_encrypt_alphabet()),
    }
}

/// The two default tables undo each other: the symbol of a code has that
/// code, and the code of a symbol has that symbol.
pub proof fn lemma_default_tables_are_inverse()
    ensures
        forall|code: u8| #[trigger]
            default_decrypt_alphabet().contains_key(code) ==> {
                let symbol = default_decrypt_alphabet()[code] as u32;
                default_encrypt_alphabet().contains_key(symbol) && default_encrypt_alphabet()[symbol]
                    == code
            },
        forall|symbol: u32| #[trigger]
            default_encrypt_alphabet().contains_key(symbol) ==> {
                let code = default_encrypt_alphabet()[symbol];
                default_decrypt_alphabet().contains_key(code) && default_decrypt_alphabet()[code] as u32
                    == symbol
            },
{
}

impl View for CesarConfig {
    type V = ConfigModel;

    closed spec fn view(&self) -> ConfigModel {
        ConfigModel {
            key_value: match self.key_value {
                Some(key) => Some(key as int),
                None => None,
            },
            group_size: match self.group_size {
                Some(size) => Some(size as nat),
                None => None,
            },
            number_of_posibilities: match self.number_of_posibilities {
                Some(count) => Some(count as nat),
                None => None,
            },
            index_digit_number: match self.index_digit_number {
                Some(width) => Some(width as nat),
                None => None,
            },
            start_index: match self.start_index {
                Some(start) => Some(start as nat),
                None => None,
            },
            decrypt_alphabet: match self.decrypt_alphabet {
                Some(table) => Some(table@),
                None => None,
            },
            encrypt_alphabet: match self.encrypt_alphabet {
                Some(table) => Some(table@),
                None => None,
            },
        }
    }
}

impl Clone for CesarConfig {
    /// A configuration with the same values, and tables of its own.
    fn clone(&self) -> (config: Self)
        ensures
            config@ == self@,
    {
        Self {
            key_value: self.key_value,
            group_size: self.group_size,
            number_of_posibilities: self.number_of_posibilities,
            index_digit_number: self.index_digit_number,
            start_index: self.start_index,
            decrypt_alphabet: match &self.decrypt_alphabet {
                Some(table) => Some(table.clone()),
                None => None,
            },
            encrypt_alphabet: match &self.encrypt_alphabet {
                Some(table) => Some(table.clone()),
                None => None,
            },
        }
    }
}

impl CesarConfig {
    /// A configuration with no field set.
    pub fn new() -> (config: Self)
        ensures
            config@ == (ConfigModel {
                key_value: None,
                group_size: None,
                number_of_posibilities: None,
                index_digit_number: None,
                start_index: None,
                decrypt_alphabet: None,
                encrypt_alphabet: None,
            }),
            !config@.is_set(),
    {
        Self {
            key_value: None,
            group_size: None,
            number_of_posibilities: None,
            index_digit_number: None,
            start_index: None,
            decrypt_alphabet: None,
            encrypt_alphabet: None,
        }
    }

    /// The working configuration over the 26 upper-case Latin letters: key 2,
    /// groups of one symbol, 26 possibilities, two digits per symbol, start
    /// index 65. Each call builds tables of its own.
    pub fn default() -> (config: Self)
        ensures
            config@ == default_model(),
            config@.is_valid(),
    {
        let (decrypt_alphabet, encrypt_alphabet) = CesarConfig::generate_default_alphabet();
        Self {
            key_value: Some(2),
            group_size: Some(1),
            number_of_posibilities: Some(26),
            index_digit_number: Some(2),
            start_index: Some(DEFAULT_START_INDEX),
            decrypt_alphabet: Some(decrypt_alphabet),
            encrypt_alphabet: Some(encrypt_alphabet),
        }
    }

    /// Builds the two tables of the default alphabet, each the inverse of the
    /// other.
    pub fn generate_default_alphabet() -> (tables: (HashMap<u8, char>, HashMap<u32, u8>))
        ensures
            tables.0@ == default_decrypt_alphabet(),
            tables.1@ == default_encrypt_alphabet(),
    {
        let mut decrypt_alphabet: HashMap<u8, char> = HashMap::new();
        let mut encrypt_alphabet: HashMap<u32, u8> = HashMap::new();
        let end: u8 = DEFAULT_START_INDEX + DEFAULT_ALPHABET_SIZE;
        let mut code: u8 = DEFAULT_START_INDEX;
        while code < end
            invariant
                end == 91,
                65 <= code <= end,
                decrypt_alphabet@ =~= Map::new(
                    |known: u8| 65 <= known < code,
                    |known: u8| known as char,
                ),
                encrypt_alphabet@ =~= Map::new(
                    |known: u32| 65 <= known < code,
                    |known: u32| known as u8,
                ),
            decreases end - code,
        {
            let symbol: char = code as char;
            decrypt_alphabet.insert(code, symbol);
            encrypt_alphabet.insert(symbol as u32, code);
            code = code + 1;
        }
        (decrypt_alphabet, encrypt_alphabet)
    }

    /// Whether every field holds a value.
    pub fn is_set(&self) -> (set: bool)
        ensures
            set == self@.is_set(),
    {
        self.key_value.is_some() && self.group_size.is_some()
            && self.number_of_posibilities.is_some() && self.index_digit_number.is_some()
            && self.start_index.is_some() && self.decrypt_alphabet.is_some()
            && self.encrypt_alphabet.is_some()
    }

    /// Refuses a zero key, a zero group size and a zero digit width, in that
    /// order.
    pub fn is_valid(&self) -> (out: Result<(), CipherError>)
        requires
            self@.key_value is Some,
            self@.group_size is Some,
            self@.index_digit_number is Some,
        ensures
            out == match self@.invalid_reason() {
                Some(reason) => Err::<(), CipherError>(CipherError::ConfigInvalid(reason)),
                None => Ok::<(), CipherError>(()),
            },
    {
        if self.key_value.unwrap() == 0 {
            return Err(CipherError::ConfigInvalid(InvalidReason::ZeroKey));
        }
        if self.group_size.unwrap() == 0 {
            return Err(CipherError::ConfigInvalid(InvalidReason::ZeroGroupSize));
        }
        if self.index_digit_number.unwrap() == 0 {
            return Err(CipherError::ConfigInvalid(InvalidReason::ZeroDigitNumber));
        }
        Ok(())
    }
}

} // verus!
