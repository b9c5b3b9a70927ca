//! Fixed-radix digit decomposition.
//!
//! Every nonnegative normalized score is represented by a fixed number of
//! little-endian base-`radix` digits so that each digit fits one homomorphic
//! table evaluation.  This module holds the mathematical model of that
//! representation — the digit sequence of a value, and the value of a digit
//! sequence — together with the laws the rest of the library builds on:
//! reconstruction round-trips modulo `radix^count`, splitting a digit
//! sequence, and zero-padding at the most-significant end.

use vstd::prelude::*;
use vstd::arithmetic::power::pow;
use vstd::arithmetic::power2::pow2;
use vstd::arithmetic::power::lemma_pow0;
use vstd::arithmetic::power::lemma_pow1;
use vstd::arithmetic::power::lemma_pow_positive;
use vstd::arithmetic::power::lemma_pow_adds;
use vstd::arithmetic::div_mod::lemma_breakdown;
use vstd::arithmetic::div_mod::lemma_div_denominator;
use vstd::arithmetic::div_mod::lemma_basic_div;
use vstd::arithmetic::div_mod::lemma_small_mod;
use vstd::arithmetic::div_mod::lemma_mod_division_less_than_divisor;
use vstd::arithmetic::div_mod::lemma_div_pos_is_pos;
use vstd::arithmetic::mul::lemma_mul_inequality;
use vstd::arithmetic::mul::lemma_mul_is_distributive_add;
use vstd::arithmetic::mul::lemma_mul_is_commutative;

verus! {

/// The first `count` little-endian base-`radix` digits of `v`, obtained by
/// repeated `(v % radix, v /= radix)`.
pub open spec fn digits_of(v: int, radix: int, count: nat) -> Seq<u64>
    decreases count,
{
    if count == 0 {
        Seq::empty()
    } else {
        seq![(v % radix) as u64] + digits_of(v / radix, radix, (count - 1) as nat)
    }
}

/// The value a little-endian digit sequence stands for: `Σ digits[i] * radix^i`.
pub open spec fn radix_value(digits: Seq<u64>, radix: int) -> int
    decreases digits.len(),
{
    if digits.len() == 0 {
        0
    } else {
        digits[0] + radix * radix_value(digits.drop_first(), radix)
    }
}

/// A run of `count` zero digits.
pub open spec fn zero_digits(count: nat) -> Seq<u64> {
    Seq::new(count, |i: int| 0u64)
}

/// One unfolding step of `pow`: `radix^e == radix * radix^(e-1)`.
proof fn lemma_pow_unfold(b: int, e: nat)
    requires
        e >= 1,
    ensures
        pow(b, e) == b * pow(b, (e - 1) as nat),
{
    lemma_pow1(b);
    lemma_pow_adds(b, 1, (e - 1) as nat);
}

/// A digit extraction yields exactly `count` digits.
pub proof fn lemma_digits_len(v: int, radix: int, count: nat)
    ensures
        digits_of(v, radix, count).len() == count,
    decreases count,
{
    if count > 0 {
        lemma_digits_len(v / radix, radix, (count - 1) as nat);
    }
}

/// Every extracted digit is below the radix.
pub proof fn lemma_digits_bounded(v: int, radix: int, count: nat)
    requires
        v >= 0,
        1 <= radix <= 0x1_0000_0000_0000_0000,
    ensures
        digits_of(v, radix, count).len() == count,
        forall|i: int| 0 <= i < count ==> digits_of(v, radix, count)[i] < radix,
    decreases count,
{
    if count > 0 {
        lemma_mod_division_less_than_divisor(v, radix);
        lemma_div_pos_is_pos(v, radix);
        lemma_digits_bounded(v / radix, radix, (count - 1) as nat);
        assert forall|i: int| 0 <= i < count implies digits_of(v, radix, count)[i] < radix by {
            if i > 0 {
                assert(digits_of(v, radix, count)[i] == digits_of(
                    v / radix,
                    radix,
                    (count - 1) as nat,
                )[i - 1]);
            }
        }
    }
}

/// Radix round-trip: reconstructing the `count` extracted digits of a
/// nonnegative `v` yields `v` modulo `radix^count`; in particular it yields
/// `v` itself whenever `v < radix^count`.
pub proof fn lemma_radix_round_trip(v: int, radix: int, count: nat)
    requires
        v >= 0,
        2 <= radix <= 0x1_0000_0000_0000_0000,
    ensures
        radix_value(digits_of(v, radix, count), radix) == v % pow(radix, count),
        v < pow(radix, count) ==> radix_value(digits_of(v, radix, count), radix) == v,
    decreases count,
{
    lemma_pow_positive(radix, count);
    if count == 0 {
        lemma_pow0(radix);
        assert(v % 1 == 0) by {
            vstd::arithmetic::div_mod::lemma_mod_multiples_basic(v, 1);
        }
    } else {
        let rest = digits_of(v / radix, radix, (count - 1) as nat);
        let whole = digits_of(v, radix, count);
        assert(whole.drop_first() =~= rest);
        assert(whole[0] == (v % radix) as u64);
        lemma_div_pos_is_pos(v, radix);
        lemma_radix_round_trip(v / radix, radix, (count - 1) as nat);
        lemma_mod_division_less_than_divisor(v, radix);
        lemma_pow_positive(radix, (count - 1) as nat);
        lemma_breakdown(v, radix, pow(radix, (count - 1) as nat));
        lemma_pow_unfold(radix, count);
        assert(radix_value(whole, radix) == (v % radix) + radix * ((v / radix) % pow(
            radix,
            (count - 1) as nat,
        )));
    }
    if v < pow(radix, count) {
        lemma_small_mod(v as nat, pow(radix, count) as nat);
    }
}

/// Splitting a digit sequence: the first `a` digits of `v` followed by the
/// `b` digits of `v / radix^a` are exactly the `a + b` digits of `v`.
pub proof fn lemma_digits_split(v: int, radix: int, a: nat, b: nat)
    requires
        v >= 0,
        radix >= 1,
    ensures
        digits_of(v, radix, a + b) =~= digits_of(v, radix, a) + digits_of(
            v / pow(radix, a),
            radix,
            b,
        ),
    decreases a,
{
    lemma_pow_positive(radix, a);
    if a == 0 {
        lemma_pow0(radix);
        assert(v / 1 == v) by {
            vstd::arithmetic::div_mod::lemma_div_basics_1(v);
        }
    } else {
        lemma_div_pos_is_pos(v, radix);
        lemma_digits_split(v / radix, radix, (a - 1) as nat, b);
        lemma_pow_positive(radix, (a - 1) as nat);
        lemma_div_denominator(v, radix, pow(radix, (a - 1) as nat));
        lemma_pow_unfold(radix, a);
        assert((v / radix) / pow(radix, (a - 1) as nat) == v / pow(radix, a));
    }
}

/// The digits of zero are all zero.
pub proof fn lemma_digits_of_zero(radix: int, count: nat)
    requires
        radix >= 1,
    ensures
        digits_of(0, radix, count) =~= zero_digits(count),
    decreases count,
{
    if count > 0 {
        lemma_small_mod(0, radix as nat);
        assert(0int / radix == 0) by {
            vstd::arithmetic::div_mod::lemma_div_of0(radix);
        }
        lemma_digits_of_zero(radix, (count - 1) as nat);
    }
}

/// Zero digits at the most-significant end do not change the value: padding a
/// digit sequence to a larger width is value-preserving.
pub proof fn lemma_value_of_padded(digits: Seq<u64>, radix: int, count: nat)
    requires
        radix >= 1,
    ensures
        radix_value(digits + zero_digits(count), radix) == radix_value(digits, radix),
    decreases digits.len(), count,
{
    if digits.len() == 0 {
        if count == 0 {
            assert(digits + zero_digits(0) =~= digits);
        } else {
            let empty: Seq<u64> = Seq::empty();
            assert(digits + zero_digits(count) =~= seq![0u64] + zero_digits((count - 1) as nat));
            assert((seq![0u64] + zero_digits((count - 1) as nat)).drop_first() =~= empty
                + zero_digits((count - 1) as nat));
            lemma_value_of_padded(empty, radix, (count - 1) as nat);
        }
    } else {
        assert((digits + zero_digits(count)).drop_first() =~= digits.drop_first() + zero_digits(
            count,
        ));
        lemma_value_of_padded(digits.drop_first(), radix, count);
    }
}

/// A width-`count` digit sequence with digits below the radix stands for a
/// value below `radix^count`.
pub proof fn lemma_radix_value_bound(digits: Seq<u64>, radix: int)
    requires
        radix >= 1,
        forall|i: int| 0 <= i < digits.len() ==> digits[i] < radix,
    ensures
        0 <= radix_value(digits, radix) < pow(radix, digits.len()),
    decreases digits.len(),
{
    lemma_pow_positive(radix, digits.len());
    if digits.len() == 0 {
        lemma_pow0(radix);
    } else {
        let rest = digits.drop_first();
        lemma_radix_value_bound(rest, radix);
        let p = pow(radix, (digits.len() - 1) as nat);
        assert(radix * radix_value(rest, radix) + digits[0] < radix * p) by {
            lemma_mul_inequality(radix_value(rest, radix) + 1, p, radix);
            lemma_mul_is_distributive_add(radix, radix_value(rest, radix), 1);
            lemma_mul_is_commutative(radix, radix_value(rest, radix) + 1);
            lemma_mul_is_commutative(radix, p);
        }
        lemma_pow_unfold(radix, digits.len());
        assert(radix * radix_value(rest, radix) >= 0) by {
            vstd::arithmetic::mul::lemma_mul_nonnegative(radix, radix_value(rest, radix));
        }
    }
}

/// A digit sequence never stands for a negative value.
pub proof fn lemma_radix_value_nonneg(digits: Seq<u64>, radix: int)
    requires
        radix >= 0,
    ensures
        radix_value(digits, radix) >= 0,
    decreases digits.len(),
{
    if digits.len() > 0 {
        lemma_radix_value_nonneg(digits.drop_first(), radix);
        vstd::arithmetic::mul::lemma_mul_nonnegative(
            radix,
            radix_value(digits.drop_first(), radix),
        );
    }
}

/// A digit sequence whose digits are merely below some cap — digits with
/// carries still pending may exceed the radix — stands for a value of at
/// most `cap * radix^count - cap`.
pub proof fn lemma_radix_value_digit_cap(digits: Seq<u64>, radix: int, cap: int)
    requires
        radix >= 2,
        cap >= 1,
        forall|i: int| 0 <= i < digits.len() ==> digits[i] < cap,
    ensures
        0 <= radix_value(digits, radix),
        radix_value(digits, radix) <= cap * pow(radix, digits.len()) - cap,
    decreases digits.len(),
{
    lemma_pow_positive(radix, digits.len());
    if digits.len() == 0 {
        lemma_pow0(radix);
    } else {
        let rest = digits.drop_first();
        lemma_radix_value_digit_cap(rest, radix, cap);
        let p = pow(radix, (digits.len() - 1) as nat);
        lemma_pow_unfold(radix, digits.len());
        assert(radix * radix_value(rest, radix) >= 0) by {
            vstd::arithmetic::mul::lemma_mul_nonnegative(radix, radix_value(rest, radix));
        }
        assert(radix * radix_value(rest, radix) <= radix * (cap * p - cap)) by {
            lemma_mul_inequality(radix_value(rest, radix), cap * p - cap, radix);
            lemma_mul_is_commutative(radix, radix_value(rest, radix));
            lemma_mul_is_commutative(radix, cap * p - cap);
        }
        assert(radix * (cap * p - cap) == cap * pow(radix, digits.len()) - radix * cap) by {
            vstd::arithmetic::mul::lemma_mul_is_distributive_sub(radix, cap * p, cap);
            vstd::arithmetic::mul::lemma_mul_is_associative(radix, cap, p);
            lemma_mul_is_commutative(radix, cap);
            vstd::arithmetic::mul::lemma_mul_is_associative(cap, radix, p);
        }
        assert(2 * cap <= radix * cap) by {
            lemma_mul_inequality(2, radix, cap);
            lemma_mul_is_commutative(2, cap);
            lemma_mul_is_commutative(radix, cap);
        }
    }
}

/// Values below `radix^k` have zero digits from position `k` on: their full
/// `k + extra` digit expansion is the `k` digit expansion padded with zeros.
pub proof fn lemma_digits_high_zero(v: int, radix: int, k: nat, extra: nat)
    requires
        0 <= v < pow(radix, k),
        radix >= 1,
    ensures
        digits_of(v, radix, k + extra) =~= digits_of(v, radix, k) + zero_digits(extra),
{
    lemma_pow_positive(radix, k);
    lemma_digits_split(v, radix, k, extra);
    lemma_basic_div(v, pow(radix, k));
    lemma_digits_of_zero(radix, extra);
}

/// The radix that a digit of `block_length` bits can hold: `2^block_length`.
pub fn radix_of_block_length(block_length: usize) -> (r: u64)
    requires
        1 <= block_length <= 32,
    ensures
        r == pow2(block_length as nat),
        2 <= r <= 0x1_0000_0000,
{
    proof {
        vstd::bits::lemma_u64_pow2_no_overflow(block_length as nat);
        vstd::bits::lemma_u64_shl_is_mul(1u64, block_length as u64);
        vstd::arithmetic::power2::lemma2_to64();
        if block_length < 32 {
            vstd::arithmetic::power2::lemma_pow2_strictly_increases(block_length as nat, 32);
        }
        vstd::arithmetic::power2::lemma_pow2_strictly_increases(0, block_length as nat);
    }
    1u64 << block_length
}

/// `base^exp`, for results that fit a word.
pub fn pow_u64(base: u64, exp: usize) -> (r: u64)
    requires
        base >= 1,
        pow(base as int, exp as nat) <= u64::MAX,
    ensures
        r == pow(base as int, exp as nat),
{
    proof {
        lemma_pow0(base as int);
    }
    let mut acc: u64 = 1;
    let mut i: usize = 0;
    while i < exp
        invariant
            i <= exp,
            base >= 1,
            pow(base as int, exp as nat) <= u64::MAX,
            acc == pow(base as int, i as nat),
        decreases exp - i,
    {
        proof {
            lemma_pow_unfold(base as int, (i + 1) as nat);
            vstd::arithmetic::power::lemma_pow_increases(base as nat, (i + 1) as nat, exp as nat);
            vstd::arithmetic::mul::lemma_mul_is_commutative(base as int, acc as int);
        }
        acc = acc * base;
        i = i + 1;
    }
    acc
}

/// Extract the first `count` little-endian base-`radix` digits of `v`.
pub fn decompose_value(v: u64, radix: u64, count: usize) -> (r: Vec<u64>)
    requires
        radix >= 1,
    ensures
        r@ =~= digits_of(v as int, radix as int, count as nat),
        r@.len() == count,
{
    let mut blocks: Vec<u64> = Vec::new();
    let mut remaining: u64 = v;
    let mut b: usize = 0;
    while b < count
        invariant
            b <= count,
            radix >= 1,
            remaining >= 0,
            blocks@.len() == b,
            digits_of(v as int, radix as int, count as nat) =~= blocks@ + digits_of(
                remaining as int,
                radix as int,
                (count - b) as nat,
            ),
        decreases count - b,
    {
        let digit = remaining % radix;
        proof {
            let tail = digits_of(remaining as int, radix as int, (count - b) as nat);
            assert(tail =~= seq![(remaining as int % radix as int) as u64] + digits_of(
                remaining as int / radix as int,
                radix as int,
                (count - b - 1) as nat,
            ));
            assert(blocks@ + tail =~= blocks@.push(digit) + digits_of(
                remaining as int / radix as int,
                radix as int,
                (count - b - 1) as nat,
            ));
        }
        blocks.push(digit);
        remaining = remaining / radix;
        b = b + 1;
    }
    assert(digits_of(v as int, radix as int, count as nat) =~= blocks@);
    blocks
}

} // verus!
