//! What holds of the cipher as a whole.

use crate::digits::{decimal, digit_char};
use crate::grouping::{grouped, lemma_single_code_windows, window_count};
use crate::model::{
    codes_of, encrypted, joined, normalized, shifted_groups, widened, written, ConfigModel,
};
use crate::shift::{lemma_shift_then_unshift, lemma_shifted_in_range, shifted_all};
use vstd::prelude::*;

verus! {

/// How many delimiters `'-'` a text holds: the number of its groups.
pub open spec fn group_count(text: Seq<char>) -> nat
    decreases text.len(),
{
    if text.len() == 0 {
        0
    } else if text.last() == '-' {
        group_count(text.drop_last()) + 1
    } else {
        group_count(text.drop_last())
    }
}

/// The groups of two texts written one after the other add up.
pub proof fn lemma_group_count_of_both(first: Seq<char>, second: Seq<char>)
    ensures
        group_count(first + second) == group_count(first) + group_count(second),
    decreases second.len(),
{
    if second.len() == 0 {
        assert(first + second =~= first);
    } else {
        lemma_group_count_of_both(first, second.drop_last());
        assert((first + second).drop_last() =~= first + second.drop_last());
        assert((first + second).last() == second.last());
    }
}

/// The decimal writing of a number holds no delimiter.
pub proof fn lemma_decimal_has_no_delimiter(number: nat)
    ensures
        group_count(decimal(number)) == 0,
    decreases number,
{
    if number < 10 {
        let text = decimal(number);
        assert(text.len() == 1);
        assert(text.last() == digit_char(number));
        assert(text.drop_last().len() == 0);
        assert(group_count(text.drop_last()) == 0);
    } else {
        lemma_decimal_has_no_delimiter(number / 10);
        let text = decimal(number);
        assert(text.drop_last() =~= decimal(number / 10));
        assert(text.last() == digit_char(number % 10));
    }
}

/// The formatted text of some values holds one group for each value.
pub proof fn lemma_one_group_per_value(values: Seq<u64>)
    ensures
        group_count(joined(written(values))) == values.len(),
    decreases values.len(),
{
    if values.len() > 0 {
        let parts = written(values);
        lemma_one_group_per_value(values.drop_last());
        assert(parts.drop_last() =~= written(values.drop_last()));
        assert(parts.last() == decimal(values.last() as nat));
        lemma_decimal_has_no_delimiter(values.last() as nat);
        let delimiter = seq!['-'];
        assert(delimiter.drop_last().len() == 0);
        assert(group_count(delimiter.drop_last()) == 0);
        assert(group_count(delimiter) == 1);
        lemma_group_count_of_both(joined(parts.drop_last()), parts.last());
        lemma_group_count_of_both(joined(parts.drop_last()) + parts.last(), delimiter);
    }
}

/// Whatever the group size, a ciphertext holds as many groups as windows of
/// that size cover the word; with a group size of one it holds as many
/// groups as the word has symbols.
pub proof fn lemma_groups_of_ciphertext(config: ConfigModel, word: Seq<char>)
    requires
        encrypted(config, word) is Ok,
    ensures
        group_count(encrypted(config, word).unwrap()) == window_count(
            word.len(),
            config.group_size.unwrap(),
        ),
        config.group_size == Some(1nat) ==> group_count(encrypted(config, word).unwrap())
            == word.len(),
{
    let size = config.group_size.unwrap();
    if word.len() == 0 {
        crate::grouping::lemma_no_codes_no_windows(size);
    } else {
        let codes = codes_of(config.encrypt_alphabet.unwrap(), word);
        let plain = widened(normalized(codes, config.start_index.unwrap()));
        assert(plain.len() == word.len());
        assert(grouped(plain, size).len() == window_count(word.len(), size));
        lemma_one_group_per_value(shifted_groups(config, word));
        lemma_single_code_windows(plain);
    }
}

/// Shifting values below the modulus by a key, and what comes of it by the
/// negated key, gives the values back.
pub proof fn lemma_negated_key_undoes_key(values: Seq<u64>, key: int, modulus: int)
    requires
        0 < modulus <= u64::MAX,
        forall|i: int| 0 <= i < values.len() ==> #[trigger] values[i] < modulus,
    ensures
        shifted_all(shifted_all(values, key, modulus), -key, modulus) == values,
{
    let there = shifted_all(values, key, modulus);
    let back = shifted_all(there, -key, modulus);
    assert forall|i: int| 0 <= i < values.len() implies back[i] == values[i] by {
        lemma_shifted_in_range(values[i] as int, key, modulus);
        lemma_shift_then_unshift(values[i] as int, key, modulus);
    }
    assert(back =~= values);
}

} // verus!
