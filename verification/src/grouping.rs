//! The grouper: consecutive windows of codes, each folded into one number
//! by base-100 packing.

use crate::error::CipherError;
use vstd::prelude::*;

verus! {

/// The number that a window of codes packs into: the first code, then for
/// each further code the result times 100 plus that code.
pub open spec fn packed(window: Seq<u64>) -> nat
    decreases window.len(),
{
    if window.len() == 0 {
        0
    } else {
        packed(window.drop_last()) * 100 + window.last() as nat
    }
}

/// How many windows of `size` codes cover `len` codes, the last one
/// possibly shorter.
pub open spec fn window_count(len: nat, size: nat) -> nat
    recommends
        size > 0,
{
    ((len + size - 1) / (size as int)) as nat
}

/// The `index`-th window of `size` items.
pub open spec fn window_at<T>(codes: Seq<T>, size: nat, index: int) -> Seq<T>
    recommends
        size > 0,
        0 <= index < window_count(codes.len(), size),
{
    let from = index * size;
    let to = if from + size <= codes.len() {
        from + size
    } else {
        codes.len() as int
    };
    codes.subrange(from, to)
}

/// Every window of `size` codes packs into a number that a `u64` holds.
pub open spec fn windows_fit(codes: Seq<u64>, size: nat) -> bool {
    forall|index: int|
        0 <= index < window_count(codes.len(), size) ==> #[trigger] packed(
            window_at(codes, size, index),
        ) <= u64::MAX
}

/// The packed windows of `size` codes, in the order of the codes.
pub open spec fn grouped(codes: Seq<u64>, size: nat) -> Seq<u64>
    recommends
        size > 0,
        windows_fit(codes, size),
{
    Seq::new(
        window_count(codes.len(), size),
        |index: int| packed(window_at(codes, size, index)) as u64,
    )
}

/// With one code per window there are as many windows as codes, and each
/// window packs into its code.
pub proof fn lemma_single_code_windows(codes: Seq<u64>)
    ensures
        window_count(codes.len(), 1) == codes.len(),
        windows_fit(codes, 1),
        grouped(codes, 1) == codes,
{
    assert forall|index: int| 0 <= index < codes.len() implies #[trigger] packed(
        window_at(codes, 1, index),
    ) == codes[index] by {
        let window = window_at(codes, 1, index);
        assert(window.len() == 1);
        assert(window.drop_last().len() == 0);
        assert(packed(window.drop_last()) == 0);
        assert(window.last() == codes[index]);
    }
    assert(grouped(codes, 1) =~= codes);
}

/// A single code is its own group, whatever the size of the windows.
pub proof fn lemma_single_code_is_its_group(codes: Seq<u64>, size: nat)
    requires
        codes.len() == 1,
        size > 0,
    ensures
        windows_fit(codes, size),
        grouped(codes, size) == codes,
{
    assert(window_count(1, size) == 1) by {
        vstd::arithmetic::div_mod::lemma_div_by_self(size as int);
    }
    assert(window_at(codes, size, 0) =~= codes);
    assert(codes.drop_last().len() == 0);
    assert(packed(codes.drop_last()) == 0);
    assert(packed(codes) == codes[0]);
    assert(grouped(codes, size) =~= codes);
}

/// No codes give no group, whatever the size of the windows.
pub proof fn lemma_no_codes_no_groups(size: nat)
    requires
        size > 0,
    ensures
        windows_fit(Seq::<u64>::empty(), size),
        grouped(Seq::<u64>::empty(), size) == Seq::<u64>::empty(),
{
    lemma_no_codes_no_windows(size);
    assert(grouped(Seq::<u64>::empty(), size) =~= Seq::<u64>::empty());
}

/// A window packs into at least what any of its prefixes packs into.
proof fn lemma_packed_prefix(window: Seq<u64>, len: int)
    requires
        0 <= len <= window.len(),
    ensures
        packed(window.subrange(0, len)) <= packed(window),
    decreases window.len() - len,
{
    if len == window.len() {
        assert(window.subrange(0, len) =~= window);
    } else {
        lemma_packed_prefix(window, len + 1);
        let longer = window.subrange(0, len + 1);
        assert(longer.drop_last() =~= window.subrange(0, len));
    }
}

/// Packs the codes `from .. to` of `codes` into one number.
fn pack_range(codes: &Vec<u64>, from: usize, to: usize) -> (out: Result<u64, CipherError>)
    requires
        from <= to <= codes.len(),
    ensures
        packed(codes@.subrange(from as int, to as int)) <= u64::MAX ==> out == Ok::<
            u64,
            CipherError,
        >(packed(codes@.subrange(from as int, to as int)) as u64),
        packed(codes@.subrange(from as int, to as int)) > u64::MAX ==> out == Err::<
            u64,
            CipherError,
        >(CipherError::GroupOverflow),
{
    let ghost window = codes@.subrange(from as int, to as int);
    let mut result: u64 = 0;
    let mut at: usize = from;
    while at < to
        invariant
            from <= at <= to <= codes.len(),
            window == codes@.subrange(from as int, to as int),
            result == packed(codes@.subrange(from as int, at as int)),
        decreases to - at,
    {
        let element: u64 = codes[at];
        let wide: u128 = result as u128 * 100 + element as u128;
        proof {
            let longer = codes@.subrange(from as int, at + 1);
            assert(longer.drop_last() =~= codes@.subrange(from as int, at as int));
            assert(longer.last() == element);
            assert(packed(longer) == wide);
            assert(longer =~= window.subrange(0, at + 1 - from));
            lemma_packed_prefix(window, at + 1 - from);
        }
        if wide > u64::MAX as u128 {
            return Err(CipherError::GroupOverflow);
        }
        result = wide as u64;
        at = at + 1;
    }
    Ok(result)
}

/// Folds one window into its packed number: `[v0, v1, .., vk]` becomes
/// `(..(v0 * 100 + v1) * 100 + ..) * 100 + vk`. Fails with `GroupOverflow`
/// exactly when that number exceeds `u64::MAX`.
pub fn evaluate_grouped_value(elements_to_group: Vec<u64>) -> (out: Result<u64, CipherError>)
    requires
        elements_to_group.len() > 0,
    ensures
        packed(elements_to_group@) <= u64::MAX ==> out == Ok::<u64, CipherError>(
            packed(elements_to_group@) as u64,
        ),
        packed(elements_to_group@) > u64::MAX ==> out == Err::<u64, CipherError>(
            CipherError::GroupOverflow,
        ),
{
    assert(elements_to_group@.subrange(0, elements_to_group.len() as int)
        =~= elements_to_group@);
    pack_range(&elements_to_group, 0, elements_to_group.len())
}

/// Packs consecutive windows of `size` codes, the last window holding what
/// remains. Fails with `GroupOverflow` exactly when some window does not
/// fit a `u64`.
pub fn group_codes(codes: &Vec<u64>, size: usize) -> (out: Result<Vec<u64>, CipherError>)
    requires
        size > 0,
    ensures
        windows_fit(codes@, size as nat) ==> out.is_ok() && out.unwrap()@ == grouped(
            codes@,
            size as nat,
        ),
        !windows_fit(codes@, size as nat) ==> out == Err::<Vec<u64>, CipherError>(
            CipherError::GroupOverflow,
        ),
{
    let len: usize = codes.len();
    let mut groups: Vec<u64> = Vec::new();
    let mut from: usize = 0;
    let mut index: usize = 0;
    proof {
        lemma_no_codes_no_windows(size as nat);
    }
    while from < len
        invariant
            size > 0,
            len == codes.len(),
            from <= len,
            from < len ==> from == index * size,
            from == len ==> index == window_count(len as nat, size as nat),
            index <= window_count(len as nat, size as nat),
            groups.len() == index,
            forall|i: int|
                0 <= i < index ==> #[trigger] packed(window_at(codes@, size as nat, i))
                    == groups[i],
        decreases len - from,
    {
        let to: usize = if len - from < size {
            len
        } else {
            from + size
        };
        proof {
            lemma_window_bounds(len as nat, size as nat, index as nat);
            assert(index <= index * size && (index + 1) * size == index * size + size)
                by (nonlinear_arith)
                requires
                    size > 0,
            ;
            assert(window_at(codes@, size as nat, index as int) == codes@.subrange(
                from as int,
                to as int,
            ));
        }
        match pack_range(codes, from, to) {
            Ok(value) => {
                groups.push(value);
            },
            Err(error) => {
                return Err(error);
            },
        }
        from = to;
        index = index + 1;
    }
    proof {
        assert(groups@ =~= grouped(codes@, size as nat));
    }
    Ok(groups)
}

/// No codes make no window.
pub proof fn lemma_no_codes_no_windows(size: nat)
    requires
        size > 0,
    ensures
        window_count(0, size) == 0,
{
    vstd::arithmetic::div_mod::lemma_basic_div(size - 1, size as int);
}

/// Where the `index`-th window starts and whether it is the last.
pub proof fn lemma_window_bounds(len: nat, size: nat, index: nat)
    requires
        size > 0,
        index * size < len,
    ensures
        index < window_count(len, size),
        index * size + size < len ==> index + 1 < window_count(len, size),
        index * size + size >= len ==> index + 1 == window_count(len, size),
{
    let total = len + size - 1;
    let count = total / (size as int);
    vstd::arithmetic::div_mod::lemma_fundamental_div_mod(total, size as int);
    assert(0 <= total % (size as int) < size) by (nonlinear_arith)
        requires
            size > 0,
    ;
    // total == size * count + r, 0 <= r < size
    assert(index < count) by (nonlinear_arith)
        requires
            index * size < len,
            len + size - 1 == size * count + total % (size as int),
            0 <= total % (size as int) < size,
            size > 0,
    ;
    if index * size + size < len {
        assert(index + 1 < count) by (nonlinear_arith)
            requires
                index * size + size < len,
                len + size - 1 == size * count + total % (size as int),
                0 <= total % (size as int) < size,
                size > 0,
        ;
    } else {
        assert(index + 1 >= count) by (nonlinear_arith)
            requires
                index * size + size >= len,
                len + size - 1 == size * count + total % (size as int),
                0 <= total % (size as int) < size,
                size > 0,
        ;
    }
}

} // verus!
