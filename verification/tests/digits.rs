use cesar_cipher::digits::{
    checked_block_unit, checked_power_of_ten, number_to_string, parse_number,
};
use cesar_cipher::error::CipherError;
use cesar_cipher::grouping::{evaluate_grouped_value, group_codes};
use cesar_cipher::shift::shift_value;

#[test]
fn number_to_string_matches_decimal() {
    assert_eq!(number_to_string(0), "0");
    assert_eq!(number_to_string(9), "9");
    assert_eq!(number_to_string(10), "10");
    assert_eq!(number_to_string(1234567890), "1234567890");
    assert_eq!(number_to_string(u64::MAX), u64::MAX.to_string());
}

#[test]
fn parse_number_reads_digit_strings() {
    assert_eq!(parse_number("0"), Ok(0));
    assert_eq!(parse_number("65"), Ok(65));
    assert_eq!(parse_number("0065"), Ok(65));
    assert_eq!(parse_number("18446744073709551615"), Ok(u64::MAX));
}

#[test]
fn parse_number_refuses_everything_else() {
    assert_eq!(parse_number(""), Err(CipherError::NumericParse));
    assert_eq!(parse_number("A"), Err(CipherError::NumericParse));
    assert_eq!(parse_number("12a"), Err(CipherError::NumericParse));
    assert_eq!(parse_number("-1"), Err(CipherError::NumericParse));
    assert_eq!(parse_number("+1"), Err(CipherError::NumericParse));
    assert_eq!(parse_number(" 1"), Err(CipherError::NumericParse));
    assert_eq!(parse_number("18446744073709551616"), Err(CipherError::NumericParse));
    assert_eq!(parse_number("99999999999999999999999"), Err(CipherError::NumericParse));
}

#[test]
fn evaluate_grouped_value_packs_base_100() {
    assert_eq!(evaluate_grouped_value(vec![7]), Ok(7));
    assert_eq!(evaluate_grouped_value(vec![0, 1]), Ok(1));
    assert_eq!(evaluate_grouped_value(vec![25, 24, 23]), Ok(252423));
    assert_eq!(evaluate_grouped_value(vec![1, 100]), Ok(200));
    assert_eq!(evaluate_grouped_value(vec![u64::MAX]), Ok(u64::MAX));
    assert_eq!(evaluate_grouped_value(vec![u64::MAX, 0]), Err(CipherError::GroupOverflow));
    assert_eq!(
        evaluate_grouped_value(vec![184467440737095516, 15]),
        Ok(u64::MAX)
    );
    assert_eq!(
        evaluate_grouped_value(vec![184467440737095516, 16]),
        Err(CipherError::GroupOverflow)
    );
}

#[test]
fn group_codes_windows() {
    assert_eq!(group_codes(&vec![1, 2, 3, 4, 5], 2), Ok(vec![102, 304, 5]));
    assert_eq!(group_codes(&vec![1, 2, 3, 4], 4), Ok(vec![1020304]));
    assert_eq!(group_codes(&vec![1, 2, 3, 4], usize::MAX), Ok(vec![1020304]));
    assert_eq!(group_codes(&vec![], 3), Ok(vec![]));
    assert_eq!(group_codes(&vec![1, u64::MAX, 1], 2), Err(CipherError::GroupOverflow));
}

#[test]
fn shift_value_is_the_canonical_remainder() {
    assert_eq!(shift_value(24, 2, 26), 0);
    assert_eq!(shift_value(0, -2, 26), 24);
    assert_eq!(shift_value(1, -1, 26), 0);
    assert_eq!(shift_value(5, -26, 26), 5);
    assert_eq!(shift_value(5, -27, 26), 4);
    assert_eq!(shift_value(100, 3, 1), 0);
    assert_eq!(shift_value(u64::MAX, i32::MAX, u64::MAX), 2147483647);
}

#[test]
fn checked_power_of_ten_values() {
    assert_eq!(checked_power_of_ten(0), Some(1));
    assert_eq!(checked_power_of_ten(2), Some(100));
    assert_eq!(checked_power_of_ten(19), Some(10000000000000000000));
    assert_eq!(checked_power_of_ten(20), None);
    assert_eq!(checked_power_of_ten(255), None);
}

#[test]
fn checked_block_unit_values() {
    assert_eq!(checked_block_unit(0, 2), Some(0));
    assert_eq!(checked_block_unit(1, 2), Some(1));
    assert_eq!(checked_block_unit(1, 200), Some(1));
    assert_eq!(checked_block_unit(2, 2), Some(101));
    assert_eq!(checked_block_unit(3, 2), Some(10101));
    assert_eq!(checked_block_unit(4, 1), Some(1111));
    assert_eq!(checked_block_unit(7, 0), Some(7));
    assert_eq!(checked_block_unit(2, 19), Some(10000000000000000001));
    assert_eq!(checked_block_unit(2, 20), None);
    assert_eq!(checked_block_unit(20, 1), Some(11111111111111111111));
    assert_eq!(checked_block_unit(21, 1), None);
    assert_eq!(checked_block_unit(usize::MAX, 3), None);
}

#[test]
fn written_numbers_read_back() {
    for number in [0u64, 7, 10, 99, 100, 2526, 1020304, u64::MAX - 1, u64::MAX] {
        assert_eq!(parse_number(&number_to_string(number)), Ok(number));
    }
}
