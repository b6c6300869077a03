use cesar_cipher::CesarConfig;
use cesar_cipher::{CipherError, InvalidReason};
use std::collections::HashMap;

#[test]
fn encrypt_word_test() {
    let conf = CesarConfig::default();
    let sample = "ABC";
    let expected = String::from("2-3-4-");

    assert_eq!(conf.encrypt_word(sample).unwrap(), expected);
}

#[test]
fn encrypt_word_empty_input() {
    let conf = CesarConfig::default();
    let sample = "";

    assert_eq!(conf.encrypt_word(sample).unwrap(), "");
}

#[test]
fn word_to_byte_characters_test() {
    let conf = CesarConfig::default();
    let sample = "ABC";
    let expected: Vec<u8> = vec![65, 66, 67];

    assert_eq!(expected, conf.word_to_byte_vector(sample).unwrap());
}

#[test]
#[should_panic]
fn word_to_byte_characters_lowercase() {
    let conf = CesarConfig::default();
    let sample = "aBc";

    conf.word_to_byte_vector(sample).unwrap();
}

#[test]
#[should_panic]
fn word_to_byte_characters_does_not_exist() {
    let conf = CesarConfig::default();
    let sample = "&Ã©(";

    conf.word_to_byte_vector(sample).unwrap();
}

#[test]
fn remove_index_value_test() {
    let conf = CesarConfig::default().start_index(65);
    let sample: Vec<u8> = vec![65, 66, 67];
    let expected: Vec<u8> = vec![0, 1, 2];

    assert_eq!(expected, conf.remove_index_value(sample));
}

#[test]
fn remove_index_value_empty_input() {
    let conf = CesarConfig::default().start_index(65);
    let sample: Vec<u8> = vec![];
    let expected: Vec<u8> = vec![];

    assert_eq!(expected, conf.remove_index_value(sample));
}

#[test]
fn remove_index_value_too_low_values() {
    let conf = CesarConfig::default().start_index(65);
    let sample: Vec<u8> = vec![0, 1, 2];
    let expected: Vec<u8> = vec![];

    assert_eq!(expected, conf.remove_index_value(sample));
}

#[test]
fn characters_to_string_vector_test() {
    let conf = CesarConfig::default();
    let sample = "656667";
    let expected = vec!["65", "66", "67"];

    assert_eq!(expected, conf.characters_to_string_vector(sample).unwrap());
}

#[test]
fn number_to_string_number_test() {
    let conf = CesarConfig::default();
    let sample = vec![65, 66, 67];
    let expected = vec!["65", "66", "67"];

    assert_eq!(expected, conf.numbers_to_string_number(sample));
}

#[test]
fn add_missing_character_test() {
    let conf = CesarConfig::default().index_digit_number(2).group_size(3);
    let sample = "65".to_string();
    let expected = "650000";

    assert_eq!(conf.add_missing_character(sample), expected);
}

#[test]
fn add_missing_character_group_by_1() {
    let conf = CesarConfig::default().index_digit_number(2).group_size(1);
    let sample = "65".to_string();
    let expected = "65";

    assert_eq!(conf.add_missing_character(sample), expected);
}


#[test]
fn encrypt_word_is_repeatable() {
    let conf = CesarConfig::default().group_size(2).key_value(-7);
    let first = conf.encrypt_word("HELLO");
    let second = conf.encrypt_word("HELLO");

    assert_eq!(first, second);
    assert_eq!(first, CesarConfig::default().group_size(2).key_value(-7).encrypt_word("HELLO"));
}

#[test]
fn encrypt_word_empty_under_other_valid_configurations() {
    let conf = CesarConfig::default().key_value(-3).group_size(4).number_of_posibilities(0);
    assert_eq!(conf.encrypt_word(""), Ok(String::new()));

    let conf = CesarConfig::default().encrypt_alphabet(HashMap::new()).start_index(200);
    assert_eq!(conf.encrypt_word(""), Ok(String::new()));
}

#[test]
fn encrypt_word_known_symbols_never_miss() {
    let conf = CesarConfig::default();
    let word = "ABCDEFGHIJKLMNOPQRSTUVWXYZ";

    assert_eq!(
        conf.encrypt_word(word).unwrap(),
        "2-3-4-5-6-7-8-9-10-11-12-13-14-15-16-17-18-19-20-21-22-23-24-25-0-1-"
    );
    let conf = conf.start_index(66);
    assert_eq!(conf.encrypt_word(word), Err(CipherError::BelowStartIndex));
}

#[test]
fn encrypt_word_one_group_per_symbol() {
    let conf = CesarConfig::default();
    let word = "CESAR";
    let text = conf.encrypt_word(word).unwrap();

    assert_eq!(text, "4-6-20-2-19-");
    assert_eq!(text.matches('-').count(), word.chars().count());
}

#[test]
fn encrypt_word_wraps_at_the_modulus() {
    let conf = CesarConfig::default();

    assert_eq!(conf.encrypt_word("Y").unwrap(), "0-");
    assert_eq!(conf.encrypt_word("Z").unwrap(), "1-");
    assert_eq!(conf.add_key_value(vec![24]), vec![0]);
}

#[test]
fn add_key_value_negative_key_undoes_positive_key() {
    let forward = CesarConfig::default().key_value(2);
    let backward = CesarConfig::default().key_value(-2);
    let base: Vec<u64> = vec![0, 1, 2, 12, 24, 25];

    let there = forward.add_key_value(base.clone());
    assert_eq!(there, vec![2, 3, 4, 14, 0, 1]);
    assert_eq!(backward.add_key_value(there), base);
}

#[test]
fn add_key_value_negative_key_wraps_below_zero() {
    let conf = CesarConfig::default().key_value(-2);

    assert_eq!(conf.add_key_value(vec![0, 1, 2, 25]), vec![24, 25, 0, 23]);
    let conf = CesarConfig::default().key_value(-53);
    assert_eq!(conf.add_key_value(vec![0, 1]), vec![25, 0]);
    let conf = CesarConfig::default().key_value(i32::MIN).number_of_posibilities(u64::MAX);
    assert_eq!(conf.add_key_value(vec![0]), vec![u64::MAX - 2147483648]);
}

#[test]
fn add_key_value_large_values() {
    let conf = CesarConfig::default().key_value(i32::MAX).number_of_posibilities(u64::MAX);

    assert_eq!(conf.add_key_value(vec![u64::MAX]), vec![2147483647]);
    assert_eq!(conf.add_key_value(vec![u64::MAX - 2147483647]), vec![0]);
}

#[test]
fn encrypt_word_pairs_fold_before_shift() {
    let conf = CesarConfig::default().group_size(2).number_of_posibilities(2526);

    assert_eq!(conf.encrypt_word("ABC").unwrap(), "3-4-");
    assert_eq!(conf.encrypt_word("BCDE").unwrap(), "104-306-");
    assert_eq!(conf.encrypt_word("ZZ").unwrap(), "1-");
}

#[test]
fn encrypt_word_lower_case_is_a_miss() {
    let conf = CesarConfig::default();

    assert_eq!(conf.encrypt_word("aBc"), Err(CipherError::AlphabetMiss));
    assert_eq!(conf.encrypt_word("ABc"), Err(CipherError::AlphabetMiss));
    assert_eq!(conf.encrypt_word("AB C"), Err(CipherError::AlphabetMiss));
}

#[test]
fn encrypt_word_unset_configuration() {
    let conf = CesarConfig::new();

    assert_eq!(conf.encrypt_word("ABC"), Err(CipherError::ConfigNotSet));
    assert_eq!(conf.encrypt_word(""), Err(CipherError::ConfigNotSet));
    let conf = CesarConfig::new().key_value(2).group_size(1).number_of_posibilities(26);
    assert_eq!(conf.encrypt_word("ABC"), Err(CipherError::ConfigNotSet));
    assert!(!conf.is_set());
    assert!(CesarConfig::default().is_set());
}

#[test]
fn encrypt_word_invalid_configuration() {
    let conf = CesarConfig::default().key_value(0);
    assert_eq!(conf.encrypt_word("ABC"), Err(CipherError::ConfigInvalid(InvalidReason::ZeroKey)));
    let conf = CesarConfig::default().group_size(0);
    assert_eq!(
        conf.encrypt_word(""),
        Err(CipherError::ConfigInvalid(InvalidReason::ZeroGroupSize))
    );
    let conf = CesarConfig::default().index_digit_number(0);
    assert_eq!(
        conf.encrypt_word("ABC"),
        Err(CipherError::ConfigInvalid(InvalidReason::ZeroDigitNumber))
    );
    let conf = CesarConfig::default().key_value(0).group_size(0).index_digit_number(0);
    assert_eq!(conf.is_valid(), Err(CipherError::ConfigInvalid(InvalidReason::ZeroKey)));
    assert_eq!(CesarConfig::default().is_valid(), Ok(()));
}

#[test]
fn encrypt_word_zero_possibilities() {
    let conf = CesarConfig::default().number_of_posibilities(0);

    assert_eq!(conf.encrypt_word("ABC"), Err(CipherError::ZeroPossibilities));
}

#[test]
fn encrypt_word_group_too_large() {
    let conf = CesarConfig::default().group_size(10).number_of_posibilities(1000);

    assert_eq!(conf.encrypt_word("ZZZZZZZZZZ"), Err(CipherError::GroupOverflow));
    assert_eq!(conf.encrypt_word("AAAAAAAAAB").unwrap(), "3-");
    assert_eq!(conf.encrypt_word("BZZZZZZZZZ").unwrap(), "527-");
}

#[test]
fn encrypt_word_custom_alphabet() {
    let mut encrypt: HashMap<u32, u8> = HashMap::new();
    encrypt.insert('x' as u32, 10);
    encrypt.insert('y' as u32, 11);
    encrypt.insert('é' as u32, 12);
    let mut decrypt: HashMap<u8, char> = HashMap::new();
    decrypt.insert(10, 'x');
    decrypt.insert(11, 'y');
    decrypt.insert(12, 'é');
    let conf = CesarConfig::new()
        .key_value(-1)
        .group_size(3)
        .number_of_posibilities(1000000)
        .index_digit_number(2)
        .start_index(10)
        .decrypt_alphabet(decrypt)
        .encrypt_alphabet(encrypt);

    assert_eq!(conf.encrypt_word("xyéx").unwrap(), "101-999999-");
    assert_eq!(conf.encrypt_word("xyz"), Err(CipherError::AlphabetMiss));
    assert_eq!(conf.clone().encrypt_word("éé").unwrap(), "201-");
}

#[test]
fn groups_keep_window_order() {
    let conf = CesarConfig::default().group_size(3);

    assert_eq!(
        conf.groups_bytes_character(vec![1, 2, 3, 4, 5, 6, 7]),
        Ok(vec![10203, 40506, 7])
    );
    assert_eq!(conf.groups_bytes_character(vec![]), Ok(vec![]));
    assert_eq!(conf.groups_bytes_character(vec![9]), Ok(vec![9]));
    assert_eq!(conf.groups_bytes_character(vec![9, 8]), Ok(vec![908]));
    let conf = conf.group_size(1);
    assert_eq!(conf.groups_bytes_character(vec![5, 0, 255]), Ok(vec![5, 0, 255]));
}

#[test]
fn output_formater_delimits_every_group() {
    let conf = CesarConfig::default();

    assert_eq!(conf.output_formater(vec![]), "");
    assert_eq!(conf.output_formater(vec!["12".to_string()]), "12-");
    assert_eq!(conf.output_formater(vec!["1".to_string(), "".to_string(), "30".to_string()]), "1--30-");
}

#[test]
fn numbers_are_written_without_leading_zeros() {
    let conf = CesarConfig::default().group_size(3);

    assert_eq!(
        conf.numbers_to_string_number(vec![0, 5, 10, 907, u64::MAX]),
        vec!["0", "5", "10", "907", "18446744073709551615"]
    );
}

#[test]
fn add_missing_character_is_idempotent() {
    let conf = CesarConfig::default().index_digit_number(2).group_size(2);

    let once = conf.add_missing_character("65666".to_string());
    assert_eq!(once, "65666000");
    assert_eq!(conf.add_missing_character(once.clone()), once);
    assert_eq!(conf.add_missing_character(String::new()), "");
    assert_eq!(conf.add_missing_character("1234".to_string()), "1234");
}

#[test]
fn characters_to_string_vector_last_piece_is_shorter() {
    let conf = CesarConfig::default().group_size(2);

    assert_eq!(
        conf.characters_to_string_vector("6566676"),
        Ok(vec!["6566".to_string(), "676".to_string()])
    );
    assert_eq!(conf.characters_to_string_vector(""), Ok(vec![]));
}

#[test]
fn characters_to_string_vector_needs_a_group_size() {
    let sample = "656667";

    assert_eq!(
        CesarConfig::new().characters_to_string_vector(sample),
        Err(CipherError::ConfigNotSet)
    );
    assert_eq!(
        CesarConfig::default().group_size(0).characters_to_string_vector(sample),
        Err(CipherError::ConfigInvalid(InvalidReason::ZeroGroupSize))
    );
}

#[test]
fn error_messages() {
    assert_eq!(CipherError::ConfigNotSet.message(), "The config MUST be set");
    assert_eq!(
        CipherError::ConfigInvalid(InvalidReason::ZeroKey).message(),
        "The key value MUST be greater than 0"
    );
    assert_eq!(
        CipherError::ConfigInvalid(InvalidReason::ZeroGroupSize).message(),
        "The groupe size MUST be greater than 0"
    );
    assert_eq!(
        InvalidReason::ZeroDigitNumber.message(),
        "The number of digit MUST be greater than 0"
    );
    assert_eq!(
        CipherError::AlphabetMiss.message(),
        "A character of the message doesn't exist in the current alphabet"
    );
    assert_eq!(CipherError::NumericParse.message(), "The character MUST be a numeric value");
}

#[test]
fn string_vector_to_numeric_vector_test() {
    let conf = CesarConfig::default();
    let sample = vec!["65".to_string(), "66".to_string(), "67".to_string()];
    let expected = vec![0, 1, 2];

    assert_eq!(expected, conf.string_vector_to_numeric_vector(sample).unwrap());
}

#[test]
#[should_panic(expected = "The character MUST be a numeric value")]
fn string_vector_to_numeric_vector_not_numbers() {
    let conf = CesarConfig::default();
    let sample = vec!["A".to_string(), "B".to_string(), "C".to_string()];

    conf.string_vector_to_numeric_vector(sample).map_err(|error| error.message()).unwrap();
}

#[test]
fn string_vector_to_numeric_vector_blocks() {
    let conf = CesarConfig::default().group_size(2);
    let sample = vec!["6566".to_string(), "9089".to_string(), "6565".to_string()];
    assert_eq!(conf.string_vector_to_numeric_vector(sample), Ok(vec![1, 2524, 0]));

    let conf = CesarConfig::default().group_size(3).index_digit_number(3);
    let sample = vec!["065066067".to_string()];
    assert_eq!(conf.string_vector_to_numeric_vector(sample), Ok(vec![1002]));

    let conf = CesarConfig::default().start_index(0).group_size(40);
    let sample = vec!["18446744073709551615".to_string(), "0".to_string()];
    assert_eq!(conf.string_vector_to_numeric_vector(sample), Ok(vec![u64::MAX, 0]));
    assert_eq!(conf.string_vector_to_numeric_vector(vec![]), Ok(vec![]));
}

#[test]
fn string_vector_to_numeric_vector_first_failure_wins() {
    let conf = CesarConfig::default();

    let sample = vec!["65".to_string(), "64".to_string(), "x".to_string()];
    assert_eq!(conf.string_vector_to_numeric_vector(sample), Err(CipherError::BelowStartIndex));
    let sample = vec!["65".to_string(), "".to_string(), "64".to_string()];
    assert_eq!(conf.string_vector_to_numeric_vector(sample), Err(CipherError::NumericParse));
    let sample = vec!["18446744073709551616".to_string()];
    assert_eq!(conf.string_vector_to_numeric_vector(sample), Err(CipherError::NumericParse));

    let conf = CesarConfig::default().group_size(40);
    let sample = vec!["18446744073709551615".to_string()];
    assert_eq!(conf.string_vector_to_numeric_vector(sample), Err(CipherError::BelowStartIndex));
    let conf = CesarConfig::default().group_size(2).index_digit_number(30);
    let sample = vec!["18446744073709551615".to_string()];
    assert_eq!(conf.string_vector_to_numeric_vector(sample), Err(CipherError::BelowStartIndex));
}

#[test]
fn number_of_posibilities_by_group_size_values() {
    assert_eq!(CesarConfig::default().number_of_posibilities_by_group_size(), 1);
    assert_eq!(CesarConfig::default().group_size(2).number_of_posibilities_by_group_size(), 12);
    assert_eq!(CesarConfig::default().group_size(3).number_of_posibilities_by_group_size(), 223);
    assert_eq!(
        CesarConfig::default().group_size(10).number_of_posibilities_by_group_size(),
        10000000000
    );
}

#[test]
fn default_alphabet_tables() {
    let (decrypt, encrypt) = CesarConfig::generate_default_alphabet();

    assert_eq!(decrypt.len(), 26);
    assert_eq!(encrypt.len(), 26);
    assert_eq!(decrypt.get(&65), Some(&'A'));
    assert_eq!(decrypt.get(&90), Some(&'Z'));
    assert_eq!(decrypt.get(&91), None);
    assert_eq!(encrypt.get(&('A' as u32)), Some(&65));
    assert_eq!(encrypt.get(&('Z' as u32)), Some(&90));
    assert_eq!(encrypt.get(&('a' as u32)), None);
    for (code, symbol) in decrypt.iter() {
        assert_eq!(encrypt.get(&(*symbol as u32)), Some(code));
    }
}
