//! The key shifter: a signed additive shift modulo the number of
//! possibilities, with the canonical non-negative remainder.

use vstd::prelude::*;

verus! {

/// The value that `value` becomes under the key: the remainder of
/// `value + key` in `0 .. modulus`.
pub open spec fn shifted(value: int, key: int, modulus: int) -> int
    recommends
        modulus > 0,
{
    (value + key) % modulus
}

/// The shift of every value of a sequence, in order.
pub open spec fn shifted_all(values: Seq<u64>, key: int, modulus: int) -> Seq<u64> {
    Seq::new(values.len(), |i: int| shifted(values[i] as int, key, modulus) as u64)
}

/// A shift stays inside `0 .. modulus`.
pub proof fn lemma_shifted_in_range(value: int, key: int, modulus: int)
    requires
        modulus > 0,
    ensures
        0 <= shifted(value, key, modulus) < modulus,
{
    assert(0 <= (value + key) % modulus < modulus) by (nonlinear_arith)
        requires
            modulus > 0,
    ;
}

/// Shifting by a key and then by its negation gives back the value's own
/// remainder; a value that already lies in `0 .. modulus` comes back
/// unchanged.
pub proof fn lemma_shift_then_unshift(value: int, key: int, modulus: int)
    requires
        modulus > 0,
    ensures
        shifted(shifted(value, key, modulus), -key, modulus) == value % modulus,
        0 <= value < modulus ==> shifted(shifted(value, key, modulus), -key, modulus) == value,
{
    let s = value + key;
    vstd::arithmetic::div_mod::lemma_fundamental_div_mod(s, modulus);
    let q = s / modulus;
    // s % modulus - key == value - modulus * q
    vstd::arithmetic::div_mod::lemma_mod_multiples_vanish(-q, value, modulus);
    assert(modulus * (-q) == -(modulus * q)) by (nonlinear_arith);
    if 0 <= value < modulus {
        vstd::arithmetic::div_mod::lemma_small_mod(value as nat, modulus as nat);
    }
}

/// Shifts one value by the key.
pub fn shift_value(value: u64, key: i32, modulus: u64) -> (out: u64)
    requires
        modulus > 0,
    ensures
        out == shifted(value as int, key as int, modulus as int),
        out < modulus,
{
    proof {
        lemma_shifted_in_range(value as int, key as int, modulus as int);
    }
    let wide: i128 = value as i128 + key as i128;
    let bound: i128 = modulus as i128;
    if wide >= 0 {
        (wide % bound) as u64
    } else {
        let below: i128 = (-wide) % bound;
        proof {
            lemma_negative_remainder(wide as int, bound as int);
        }
        if below == 0 {
            0
        } else {
            (bound - below) as u64
        }
    }
}

/// The remainder of a negative number, from the remainder of its negation.
proof fn lemma_negative_remainder(wide: int, bound: int)
    requires
        wide < 0,
        bound > 0,
    ensures
        (-wide) % bound == 0 ==> wide % bound == 0,
        (-wide) % bound != 0 ==> wide % bound == bound - (-wide) % bound,
{
    let n = -wide;
    vstd::arithmetic::div_mod::lemma_fundamental_div_mod(n, bound);
    let q = n / bound;
    let r = n % bound;
    assert(0 <= r < bound) by (nonlinear_arith)
        requires
            bound > 0,
            r == n % bound,
    ;
    if r == 0 {
        // wide == bound * (-q)
        assert(bound * (-q) == -(bound * q)) by (nonlinear_arith);
        vstd::arithmetic::div_mod::lemma_mod_multiples_basic(-q, bound);
        assert((-q) * bound == bound * (-q)) by (nonlinear_arith);
    } else {
        // wide == bound * (-q - 1) + (bound - r)
        assert(wide == bound * (-q - 1) + (bound - r)) by (nonlinear_arith)
            requires
                n == bound * q + r,
                wide == -n,
        ;
        vstd::arithmetic::div_mod::lemma_fundamental_div_mod_converse(
            wide,
            bound,
            -q - 1,
            bound - r,
        );
    }
}

} // verus!
