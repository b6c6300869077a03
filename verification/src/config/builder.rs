//! The chained setters: each gives back the configuration with one field set.

use crate::config::CesarConfig;
use crate::model::ConfigModel;
use std::collections::HashMap;
use vstd::prelude::*;

verus! {

impl CesarConfig {
    /// Sets the key value.
    pub fn key_value(self, key_value: i32) -> (config: Self)
        ensures
            config@ == (ConfigModel { key_value: Some(key_value as int), ..self@ }),
    {
        Self {
            key_value: Some(key_value),
            group_size: self.group_size,
            number_of_posibilities: self.number_of_posibilities,
            index_digit_number: self.index_digit_number,
            start_index: self.start_index,
            decrypt_alphabet: self.decrypt_alphabet,
            encrypt_alphabet: self.encrypt_alphabet,
        }
    }

    /// Sets the group size.
    pub fn group_size(self, group_size: usize) -> (config: Self)
        ensures
            config@ == (ConfigModel { group_size: Some(group_size as nat), ..self@ }),
    {
        Self {
            key_value: self.key_value,
            group_size: Some(group_size),
            number_of_posibilities: self.number_of_posibilities,
            index_digit_number: self.index_digit_number,
            start_index: self.start_index,
            decrypt_alphabet: self.decrypt_alphabet,
            encrypt_alphabet: self.encrypt_alphabet,
        }
    }

    /// Sets the number of possibilities, the modulus of the shift.
    pub fn number_of_posibilities(self, number_of_posibilities: u64) -> (config: Self)
        ensures
            config@ == (ConfigModel {
                number_of_posibilities: Some(number_of_posibilities as nat),
                ..self@
            }),
    {
        Self {
            key_value: self.key_value,
            group_size: self.group_size,
            number_of_posibilities: Some(number_of_posibilities),
            index_digit_number: self.index_digit_number,
            start_index: self.start_index,
            decrypt_alphabet: self.decrypt_alphabet,
            encrypt_alphabet: self.encrypt_alphabet,
        }
    }

    /// Sets the digit width reserved per symbol.
    pub fn index_digit_number(self, index_digit_number: u8) -> (config: Self)
        ensures
            config@ == (ConfigModel {
                index_digit_number: Some(index_digit_number as nat),
                ..self@
            }),
    {
        Self {
            key_value: self.key_value,
            group_size: self.group_size,
            number_of_posibilities: self.number_of_posibilities,
            index_digit_number: Some(index_digit_number),
            start_index: self.start_index,
            decrypt_alphabet: self.decrypt_alphabet,
            encrypt_alphabet: self.encrypt_alphabet,
        }
    }

    /// Sets the start index.
    pub fn start_index(self, start_index: u8) -> (config: Self)
        ensures
            config@ == (ConfigModel { start_index: Some(start_index as nat), ..self@ }),
    {
        Self {
            key_value: self.key_value,
            group_size: self.group_size,
            number_of_posibilities: self.number_of_posibilities,
            index_digit_number: self.index_digit_number,
            start_index: Some(start_index),
            decrypt_alphabet: self.decrypt_alphabet,
            encrypt_alphabet: self.encrypt_alphabet,
        }
    }

    /// Sets the table from code to symbol.
    pub fn decrypt_alphabet(self, decrypt_alphabet: HashMap<u8, char>) -> (config: Self)
        ensures
            config@ == (ConfigModel { decrypt_alphabet: Some(decrypt_alphabet@), ..self@ }),
    {
        Self {
            key_value: self.key_value,
            group_size: self.group_size,
            number_of_posibilities: self.number_of_posibilities,
            index_digit_number: self.index_digit_number,
            start_index: self.start_index,
            decrypt_alphabet: Some(decrypt_alphabet),
            encrypt_alphabet: self.encrypt_alphabet,
        }
    }

    /// Sets the table from symbol to code. A symbol is keyed by its scalar
    /// value.
    pub fn encrypt_alphabet(self, encrypt_alphabet: HashMap<u32, u8>) -> (config: Self)
        ensures
            config@ == (ConfigModel { encrypt_alphabet: Some(encrypt_alphabet@), ..self@ }),
    {
        Self {
            key_value: self.key_value,
            group_size: self.group_size,
            number_of_posibilities: self.number_of_posibilities,
            index_digit_number: self.index_digit_number,
            start_index: self.start_index,
            decrypt_alphabet: self.decrypt_alphabet,
            encrypt_alphabet: Some(encrypt_alphabet),
        }
    }
}

} // verus!
