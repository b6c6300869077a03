//! The failures of the cipher.

use vstd::prelude::*;
use vstd::string::StringExecFns;

verus! {

/// Why a fully set configuration is refused.
#[derive(Clone, Copy, Debug, PartialEq, Eq, Structural)]
pub enum InvalidReason {
    /// The key value is zero.
    ZeroKey,
    /// The group size is zero.
    ZeroGroupSize,
    /// The digit width per symbol is zero.
    ZeroDigitNumber,
}

/// Every failure of the library.
#[derive(Clone, Copy, Debug, PartialEq, Eq, Structural)]
pub enum CipherError {
    /// A required configuration field is absent.
    ConfigNotSet,
    /// A numeric field is zero where a positive value is mandatory.
    ConfigInvalid(InvalidReason),
    /// A symbol of the word has no entry in the encrypt alphabet.
    AlphabetMiss,
    /// A symbol's code lies below the start index of the alphabet.
    BelowStartIndex,
    /// A window of codes folds into a value that a `u64` cannot hold.
    GroupOverflow,
    /// The number of possibilities is zero, so no remainder exists.
    ZeroPossibilities,
    /// A string that had to be a decimal number is none, or is too large.
    NumericParse,
}

impl InvalidReason {
    /// The sentence that explains this reason.
    pub fn message(&self) -> (text: String)
        ensures
            text@ == invalid_reason_text(*self),
    {
        match self {
            InvalidReason::ZeroKey => String::from_str("The key value MUST be greater than 0"),
            InvalidReason::ZeroGroupSize => String::from_str(
                "The groupe size MUST be greater than 0",
            ),
            InvalidReason::ZeroDigitNumber => String::from_str(
                "The number of digit MUST be greater than 0",
            ),
        }
    }
}

impl CipherError {
    /// The sentence that explains this failure.
    pub fn message(&self) -> (text: String)
        ensures
            text@ == cipher_error_text(*self),
    {
        match self {
            CipherError::ConfigNotSet => String::from_str("The config MUST be set"),
            CipherError::ConfigInvalid(reason) => reason.message(),
            CipherError::AlphabetMiss => String::from_str(
                "A character of the message doesn't exist in the current alphabet",
            ),
            CipherError::BelowStartIndex => String::from_str(
                "A character of the message lies below the start index of the alphabet",
            ),
            CipherError::GroupOverflow => String::from_str(
                "A group of characters is too large to be held as one number",
            ),
            CipherError::ZeroPossibilities => String::from_str(
                "The number of possibilities MUST be greater than 0",
            ),
            CipherError::NumericParse => String::from_str("The character MUST be a numeric value"),
        }
    }
}

/// The text of each reason.
pub open spec fn invalid_reason_text(reason: InvalidReason) -> Seq<char> {
    match reason {
        InvalidReason::ZeroKey => "The key value MUST be greater than 0"@,
        InvalidReason::ZeroGroupSize => "The groupe size MUST be greater than 0"@,
        InvalidReason::ZeroDigitNumber => "The number of digit MUST be greater than 0"@,
    }
}

/// The text of each failure.
pub open spec fn cipher_error_text(error: CipherError) -> Seq<char> {
    match error {
        CipherError::ConfigNotSet => "The config MUST be set"@,
        CipherError::ConfigInvalid(reason) => invalid_reason_text(reason),
        CipherError::AlphabetMiss => "A character of the message doesn't exist in the current alphabet"@,
        CipherError::BelowStartIndex => "A character of the message lies below the start index of the alphabet"@,
        CipherError::GroupOverflow => "A group of characters is too large to be held as one number"@,
        CipherError::ZeroPossibilities => "The number of possibilities MUST be greater than 0"@,
        CipherError::NumericParse => "The character MUST be a numeric value"@,
    }
}

} // verus!
