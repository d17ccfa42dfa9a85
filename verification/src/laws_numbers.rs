//! Laws of numbers: what the bit patterns stand for, and that arithmetic
//! on them is exact wherever the exact result is a number.
//!
//! A finite number is `significand * 2^exponent` up to its sign. Its value
//! times two to the power 1074 is an integer, which `scaled` gives: the laws
//! are stated over these integers.

use vstd::prelude::*;
use vstd::arithmetic::div_mod::lemma_fundamental_div_mod;
use vstd::arithmetic::div_mod::lemma_fundamental_div_mod_converse;
use vstd::arithmetic::div_mod::lemma_mod_pos_bound;
use vstd::arithmetic::power2::lemma2_to64;
use vstd::arithmetic::power2::lemma_pow2_adds;
use vstd::arithmetic::power2::lemma_pow2_pos;
use vstd::arithmetic::power2::pow2;
use crate::number::bit_length;
use crate::number::finite_sum;
use crate::number::lemma_bit_length_bounds;
use crate::number::lemma_bit_length_is;
use crate::number::lemma_pow2_le;
use crate::number::lemma_pow2_values;
use crate::number::nearest;
use crate::number::normal_significand;
use crate::number::rounded_ratio;
use crate::number::packed;
use crate::number::rounded;
use crate::number::signed;
use crate::number::unit_exponent;
use crate::number::Number;
use crate::number::HIDDEN_BIT;
use crate::number::INFINITY_BITS;

verus! {

/// The value of a finite number of the given significand and exponent,
/// times two to the power 1074.
pub open spec fn scaled_magnitude(significand: nat, exponent: int) -> nat {
    significand * pow2((exponent + 1074) as nat)
}

/// The value of a finite number, times two to the power 1074.
pub open spec fn scaled(x: Number) -> int {
    let magnitude = scaled_magnitude(x.significand(), x.exponent());
    if x.is_negative() {
        -(magnitude as int)
    } else {
        magnitude as int
    }
}

/// Whether `n * 2^e` is a number as it stands: `n` has at most 53 binary
/// digits, no digit stands below the smallest place, and the value is below
/// two to the power 1024.
pub open spec fn representable(n: nat, e: int) -> bool {
    &&& n < pow2(53)
    &&& -1074 <= e
    &&& e + bit_length(n) <= 1024
}

/// The pattern that `s * 2^unit` packs into holds that significand at that
/// exponent.
proof fn lemma_packed_holds(s: nat, unit: int)
    requires
        -1074 <= unit <= 971,
        0 < s < pow2(53),
        unit > -1074 ==> s >= pow2(52),
    ensures
        packed(s, unit) < INFINITY_BITS,
        (Number { bits: packed(s, unit) as u64 }).significand() == s,
        (Number { bits: packed(s, unit) as u64 }).exponent() == unit,
{
    lemma_pow2_values();
    let high = unit + 1074;
    let pattern = high * HIDDEN_BIT + s;
    assert(pattern < 2045 * 0x10_0000_0000_0000 + 0x20_0000_0000_0000);
    let x = Number { bits: pattern as u64 };
    assert(x.magnitude() == pattern);
    if s >= pow2(52) {
        lemma_fundamental_div_mod_converse(
            pattern,
            HIDDEN_BIT as int,
            high + 1,
            s - HIDDEN_BIT,
        );
    } else {
        lemma_fundamental_div_mod_converse(pattern, HIDDEN_BIT as int, 0, s as int);
    }
}

/// Rounding leaves a number as it is: where `n * 2^e` is a number as it
/// stands, the pattern that it rounds to is finite, and holds a significand
/// and an exponent of the same value.
pub proof fn law_rounding_is_exact_on_numbers(n: nat, e: int)
    requires
        n > 0,
        representable(n, e),
    ensures
        rounded(n, e) < INFINITY_BITS,
        ({
            let x = Number { bits: rounded(n, e) as u64 };
            &&& scaled_magnitude(x.significand(), x.exponent()) == scaled_magnitude(n, e)
            &&& x.exponent() <= e
        }),
{
    lemma_pow2_values();
    let digits = bit_length(n);
    lemma_bit_length_bounds(n);
    if digits > 53 {
        lemma_pow2_le(53, (digits - 1) as nat);
    }
    let unit = unit_exponent(digits, e);
    let up = (e - unit) as nat;
    let s = n * pow2(up);
    lemma_pow2_pos(up);
    lemma_pow2_adds(digits, up);
    lemma_pow2_adds((digits - 1) as nat, up);
    lemma_pow2_le(digits + up, 53);
    assert(s < pow2(digits) * pow2(up)) by (nonlinear_arith)
        requires
            s == n * pow2(up),
            n < pow2(digits),
            pow2(up) > 0,
    ;
    assert(s >= pow2((digits - 1) as nat) * pow2(up)) by (nonlinear_arith)
        requires
            s == n * pow2(up),
            n >= pow2((digits - 1) as nat),
            pow2(up) > 0,
    ;
    lemma_pow2_pos((digits - 1 + up) as nat);
    if unit == e {
        lemma2_to64();
        assert(s == n) by (nonlinear_arith)
            requires
                s == n * pow2(up),
                pow2(up) == 1,
        ;
        lemma_fundamental_div_mod_converse(n as int, 1, n as int, 0);
        assert(nearest(n, pow2(0)) == n);
    }
    assert(rounded(n, e) == packed(s, unit));
    lemma_packed_holds(s, unit);
    lemma_pow2_adds(up, (unit + 1074) as nat);
    assert(s * pow2((unit + 1074) as nat) == n * pow2((e + 1074) as nat)) by (nonlinear_arith)
        requires
            s == n * pow2(up),
            pow2(up) * pow2((unit + 1074) as nat) == pow2((e + 1074) as nat),
    ;
}

/// Rounding looks at the value only: binary zeros at the end of `n` count
/// as much as the same number of places in the exponent.
pub proof fn law_rounding_ignores_the_scale(n: nat, k: nat, e: int)
    ensures
        rounded(n * pow2(k), e) == rounded(n, e + k),
{
    let scale = pow2(k);
    let whole = n * scale;
    lemma_pow2_pos(k);
    if n == 0 {
        assert(whole == 0) by (nonlinear_arith)
            requires
                whole == n * scale,
                n == 0,
        ;
    } else {
        let digits = bit_length(n);
        lemma_bit_length_bounds(n);
        lemma_pow2_adds(digits, k);
        lemma_pow2_adds((digits - 1) as nat, k);
        assert(whole < pow2(digits) * scale) by (nonlinear_arith)
            requires
                whole == n * scale,
                n < pow2(digits),
                scale > 0,
        ;
        assert(whole >= pow2((digits - 1) as nat) * scale) by (nonlinear_arith)
            requires
                whole == n * scale,
                n >= pow2((digits - 1) as nat),
                scale > 0,
        ;
        lemma_bit_length_is(whole, digits + k);
        let unit = unit_exponent(digits, e + k);
        assert(unit == unit_exponent(digits + k, e));
        if unit >= e + k {
            let down = (unit - e - k) as nat;
            let d = pow2(down);
            lemma_pow2_pos(down);
            lemma_pow2_adds(down, k);
            let q = n / d;
            let r = n % d;
            lemma_fundamental_div_mod(n as int, d as int);
            lemma_mod_pos_bound(n as int, d as int);
            assert(whole == q * (d * scale) + r * scale) by (nonlinear_arith)
                requires
                    whole == n * scale,
                    n == d * q + r,
            ;
            assert(r * scale < d * scale) by (nonlinear_arith)
                requires
                    r < d,
                    scale > 0,
            ;
            assert(0 <= r * scale) by (nonlinear_arith)
                requires
                    r >= 0,
                    scale > 0,
            ;
            lemma_fundamental_div_mod_converse(
                whole as int,
                (d * scale) as int,
                q as int,
                (r * scale) as int,
            );
            assert((2 * (r * scale) > d * scale) == (2 * r > d)) by (nonlinear_arith)
                requires
                    scale > 0,
            ;
            assert((2 * (r * scale) == d * scale) == (2 * r == d)) by (nonlinear_arith)
                requires
                    scale > 0,
            ;
            assert(nearest(whole, d * scale) == nearest(n, d));
        } else if unit >= e {
            let down = (unit - e) as nat;
            let up = (e + k - unit) as nat;
            lemma_pow2_pos(down);
            lemma_pow2_adds(down, up);
            assert(whole == (n * pow2(up)) * pow2(down) + 0) by (nonlinear_arith)
                requires
                    whole == n * scale,
                    scale == pow2(down) * pow2(up),
            ;
            lemma_fundamental_div_mod_converse(
                whole as int,
                pow2(down) as int,
                (n * pow2(up)) as int,
                0,
            );
            assert(nearest(whole, pow2(down)) == n * pow2(up));
        } else {
            let first = (e - unit) as nat;
            lemma_pow2_adds(k, first);
            assert(whole * pow2(first) == n * pow2(k + first)) by (nonlinear_arith)
                requires
                    whole == n * scale,
                    pow2(k + first) == scale * pow2(first),
            ;
        }
    }
}

/// The number nearest to a count below two to the power 53 is the count.
pub proof fn law_small_counts_are_exact(n: nat)
    requires
        n < pow2(53),
    ensures
        Number::of_count(n).is_finite(),
        !Number::of_count(n).is_negative(),
        Number::of_count(n).exponent() <= 0,
        scaled(Number::of_count(n)) == n * pow2(1074),
{
    reveal(Number::of_count);
    lemma_pow2_values();
    let x = Number::of_count(n);
    if n > 0 {
        lemma_bit_length_bounds(n);
        if bit_length(n) > 53 {
            lemma_pow2_le(53, (bit_length(n) - 1) as nat);
        }
        law_rounding_is_exact_on_numbers(n, 0);
        assert(x.magnitude() == rounded(n, 0));
    } else {
        assert(x.bits == 0);
        assert(x.significand() == 0);
        assert(scaled(x) == 0) by (nonlinear_arith)
            requires
                scaled(x) == 0 * pow2((x.exponent() + 1074) as nat),
        ;
    }
}

/// The exact sum of two finite numbers, in units of the exponent of the
/// second, taken with the sign of the first. The first is the one with the
/// magnitude that is not the smaller.
pub open spec fn exact_sum(big: Number, small: Number) -> int {
    let aligned = big.significand() * pow2((big.exponent() - small.exponent()) as nat);
    if big.is_negative() == small.is_negative() {
        (aligned + small.significand()) as int
    } else {
        aligned - small.significand()
    }
}

/// The sum of two finite numbers is exact where the exact sum is a number:
/// where it is `n * 2^k` units with `n` of at most 53 digits, the value of
/// the sum is the sum of the two values. The order of the two does not
/// count.
pub proof fn law_sum_is_exact_on_numbers(a: Number, b: Number, n: nat, k: nat)
    requires
        a.is_finite(),
        b.is_finite(),
        a.magnitude() >= b.magnitude(),
        n > 0,
        exact_sum(a, b) == n * pow2(k),
        representable(n, b.exponent() + k),
    ensures
        a.plus(b).is_finite(),
        a.plus(b) == b.plus(a),
        scaled(a.plus(b)) == scaled(a) + scaled(b),
{
    reveal(Number::plus);
    lemma_pow2_values();
    let f = b.exponent();
    let gap = a.exponent() - f;
    assert(gap >= 0);
    lemma_pow2_pos(k);
    assert(n * pow2(k) > 0) by (nonlinear_arith)
        requires
            n > 0,
            pow2(k) > 0,
    ;
    let exact = exact_sum(a, b) as nat;
    law_rounding_ignores_the_scale(n, k, f);
    law_rounding_is_exact_on_numbers(n, f + k);
    let pattern = rounded(exact, f);
    let sum = signed(pattern, a.is_negative());
    assert(a.plus(b) == finite_sum(a, b));
    assert(finite_sum(a, b) == sum);
    if a.magnitude() == b.magnitude() {
        if a.is_negative() != b.is_negative() {
            lemma_pow2_pos(gap as nat);
            assert(gap == 0);
            lemma2_to64();
            assert(a.significand() * pow2(0) == a.significand()) by (nonlinear_arith)
                requires
                    pow2(0) == 1,
            ;
            assert(false);
        }
        assert(a == b);
    }
    assert(b.plus(a) == sum);
    assert(sum.magnitude() == pattern);
    let near = Number { bits: pattern as u64 };
    assert(near.magnitude() == pattern);
    assert(sum.significand() == near.significand());
    assert(sum.exponent() == near.exponent());
    let unit = pow2((f + 1074) as nat);
    lemma_pow2_adds(gap as nat, (f + 1074) as nat);
    lemma_pow2_adds(k, (f + 1074) as nat);
    let aligned = a.significand() * pow2(gap as nat);
    assert(scaled_magnitude(a.significand(), a.exponent()) == aligned * unit) by (nonlinear_arith)
        requires
            scaled_magnitude(a.significand(), a.exponent()) == a.significand() * pow2(
                (a.exponent() + 1074) as nat,
            ),
            pow2((a.exponent() + 1074) as nat) == pow2(gap as nat) * unit,
            aligned == a.significand() * pow2(gap as nat),
    ;
    assert(scaled_magnitude(n, f + k) == exact * unit) by (nonlinear_arith)
        requires
            scaled_magnitude(n, f + k) == n * pow2((f + k + 1074) as nat),
            pow2((f + k + 1074) as nat) == pow2(k) * unit,
            exact == n * pow2(k),
    ;
    if a.is_negative() == b.is_negative() {
        assert(exact * unit == aligned * unit + b.significand() * unit) by (nonlinear_arith)
            requires
                exact == aligned + b.significand(),
        ;
    } else {
        assert(exact * unit == aligned * unit - b.significand() * unit) by (nonlinear_arith)
            requires
                exact == aligned - b.significand(),
        ;
    }
}

/// The sum of two counts is their sum, where that is below two to the
/// power 53: its value is the count `x + y`.
pub proof fn law_counts_add_exactly(x: nat, y: nat)
    requires
        x + y < pow2(53),
    ensures
        scaled(Number::of_count(x).plus(Number::of_count(y))) == (x + y) * pow2(1074),
{
    lemma_pow2_values();
    let a = Number::of_count(x);
    let b = Number::of_count(y);
    law_small_counts_are_exact(x);
    law_small_counts_are_exact(y);
    assert((x + y) * pow2(1074) == x * pow2(1074) + y * pow2(1074)) by (nonlinear_arith);
    if x + y == 0 {
        reveal(Number::of_count);
        reveal(Number::plus);
        let sum = a.plus(b);
        assert(a.bits == 0);
        assert(b.bits == 0);
        assert(a.significand() == 0);
        assert(exact_sum(a, b) == 0) by (nonlinear_arith)
            requires
                exact_sum(a, b) == 0 * pow2((a.exponent() - b.exponent()) as nat) + 0,
        ;
        assert(sum == signed(0, false));
        assert(sum.bits == 0);
        assert(sum.significand() == 0);
        assert(scaled(sum) == 0) by (nonlinear_arith)
            requires
                scaled(sum) == 0 * pow2((sum.exponent() + 1074) as nat),
        ;
    } else if a.magnitude() >= b.magnitude() {
        lemma_sum_of_counts(a, b, x + y);
    } else {
        lemma_sum_of_counts(b, a, x + y);
        reveal(Number::plus);
    }
}

/// Two numbers that are not negative and whose values add up to a count
/// below two to the power 53 add up exactly.
proof fn lemma_sum_of_counts(big: Number, small: Number, total: nat)
    requires
        big.is_finite(),
        small.is_finite(),
        !big.is_negative(),
        !small.is_negative(),
        big.magnitude() >= small.magnitude(),
        small.exponent() <= 0,
        0 < total < pow2(53),
        scaled(big) + scaled(small) == total * pow2(1074),
    ensures
        scaled(big.plus(small)) == total * pow2(1074),
        big.plus(small) == small.plus(big),
{
    lemma_pow2_values();
    let f = small.exponent();
    let gap = (big.exponent() - f) as nat;
    let unit = pow2((f + 1074) as nat);
    let down = (-f) as nat;
    let exact = exact_sum(big, small);
    let aligned = big.significand() * pow2(gap);
    lemma_pow2_pos((f + 1074) as nat);
    lemma_pow2_adds(gap, (f + 1074) as nat);
    lemma_pow2_adds(down, (f + 1074) as nat);
    assert(scaled(big) == aligned * unit) by (nonlinear_arith)
        requires
            scaled(big) == big.significand() * pow2((big.exponent() + 1074) as nat),
            pow2((big.exponent() + 1074) as nat) == pow2(gap) * unit,
            aligned == big.significand() * pow2(gap),
    ;
    // both sides are the total in units of the smallest place
    assert(exact == total * pow2(down)) by (nonlinear_arith)
        requires
            exact == aligned + small.significand(),
            scaled(big) == aligned * unit,
            scaled(small) == small.significand() * unit,
            scaled(big) + scaled(small) == total * pow2(1074),
            pow2(1074) == pow2(down) * unit,
            unit > 0,
    ;
    lemma_bit_length_bounds(total);
    if bit_length(total) > 53 {
        lemma_pow2_le(53, (bit_length(total) - 1) as nat);
    }
    law_sum_is_exact_on_numbers(big, small, total, down);
}


/// The product of two finite numbers is exact where the exact product is a
/// number: where the product of the significands is `n * 2^k` with `n` of
/// at most 53 digits, the value of the product is the product of the two
/// values.
pub proof fn law_product_is_exact_on_numbers(a: Number, b: Number, n: nat, k: nat)
    requires
        a.is_finite(),
        b.is_finite(),
        n > 0,
        a.significand() * b.significand() == n * pow2(k),
        representable(n, a.exponent() + b.exponent() + k),
    ensures
        a.times(b).is_finite(),
        a.times(b).is_negative() == (a.is_negative() != b.is_negative()),
        scaled(a.times(b)) * pow2(1074) == scaled(a) * scaled(b),
{
    reveal(Number::times);
    lemma_pow2_values();
    let e = a.exponent() + b.exponent();
    let m = a.significand() * b.significand();
    law_rounding_ignores_the_scale(n, k, e);
    law_rounding_is_exact_on_numbers(n, e + k);
    let pattern = rounded(m, e);
    let negative = a.is_negative() != b.is_negative();
    let product = signed(pattern, negative);
    assert(a.times(b) == product);
    assert(product.magnitude() == pattern);
    let near = Number { bits: pattern as u64 };
    assert(near.magnitude() == pattern);
    assert(product.significand() == near.significand());
    assert(product.exponent() == near.exponent());
    let pa = pow2((a.exponent() + 1074) as nat);
    let pb = pow2((b.exponent() + 1074) as nat);
    let pe = pow2((e + k + 1074) as nat);
    lemma_pow2_adds((a.exponent() + 1074) as nat, (b.exponent() + 1074) as nat);
    lemma_pow2_adds(k, (e + 1074 + 1074) as nat);
    lemma_pow2_adds((e + k + 1074) as nat, 1074);
    let value = scaled_magnitude(product.significand(), product.exponent());
    assert(value == n * pe);
    assert(value * pow2(1074) == (a.significand() * pa) * (b.significand() * pb))
        by (nonlinear_arith)
        requires
            value == n * pe,
            pe * pow2(1074) == pow2(k) * pow2((e + 1074 + 1074) as nat),
            pow2((e + 1074 + 1074) as nat) == pa * pb,
            a.significand() * b.significand() == n * pow2(k),
    ;
    let x = scaled_magnitude(a.significand(), a.exponent());
    let y = scaled_magnitude(b.significand(), b.exponent());
    assert(value * pow2(1074) == x * y);
    assert((-(value as int)) * pow2(1074) == -(x * y)) by (nonlinear_arith)
        requires
            value * pow2(1074) == x * y,
    ;
    assert((-(x as int)) * (-(y as int)) == x * y) by (nonlinear_arith);
    assert((-(x as int)) * y == -(x * y)) by (nonlinear_arith);
    assert(x * (-(y as int)) == -(x * y)) by (nonlinear_arith);
}

/// The product of two counts is their product, where that is below two to
/// the power 53: its value is the count `x * y`.
pub proof fn law_counts_multiply_exactly(x: nat, y: nat)
    requires
        x * y < pow2(53),
        x < pow2(53),
        y < pow2(53),
    ensures
        scaled(Number::of_count(x).times(Number::of_count(y))) == (x * y) * pow2(1074),
{
    lemma_pow2_values();
    lemma_pow2_pos(1074);
    let a = Number::of_count(x);
    let b = Number::of_count(y);
    law_small_counts_are_exact(x);
    law_small_counts_are_exact(y);
    if x * y == 0 {
        reveal(Number::of_count);
        reveal(Number::times);
        assert(x == 0 || y == 0) by (nonlinear_arith)
            requires
                x * y == 0,
        ;
        assert(a.bits == 0 || b.bits == 0);
        assert(a.significand() == 0 || b.significand() == 0);
        assert(a.significand() * b.significand() == 0) by (nonlinear_arith)
            requires
                a.significand() == 0 || b.significand() == 0,
        ;
        let product = a.times(b);
        assert(product == signed(0, false));
        assert(product.bits == 0);
        assert(product.significand() == 0);
        assert(scaled(product) == 0) by (nonlinear_arith)
            requires
                scaled(product) == 0 * pow2((product.exponent() + 1074) as nat),
        ;
    } else {
        let da = (-a.exponent()) as nat;
        let db = (-b.exponent()) as nat;
        let pa = pow2((a.exponent() + 1074) as nat);
        let pb = pow2((b.exponent() + 1074) as nat);
        lemma_pow2_pos((a.exponent() + 1074) as nat);
        lemma_pow2_pos((b.exponent() + 1074) as nat);
        lemma_pow2_adds(da, (a.exponent() + 1074) as nat);
        lemma_pow2_adds(db, (b.exponent() + 1074) as nat);
        lemma_pow2_adds(da, db);
        assert(a.significand() == x * pow2(da)) by (nonlinear_arith)
            requires
                a.significand() * pa == x * pow2(1074),
                pow2(1074) == pow2(da) * pa,
                pa > 0,
        ;
        assert(b.significand() == y * pow2(db)) by (nonlinear_arith)
            requires
                b.significand() * pb == y * pow2(1074),
                pow2(1074) == pow2(db) * pb,
                pb > 0,
        ;
        assert(a.significand() * b.significand() == (x * y) * pow2(da + db)) by (nonlinear_arith)
            requires
                a.significand() == x * pow2(da),
                b.significand() == y * pow2(db),
                pow2(da + db) == pow2(da) * pow2(db),
        ;
        lemma_bit_length_bounds(x * y);
        if bit_length(x * y) > 53 {
            lemma_pow2_le(53, (bit_length(x * y) - 1) as nat);
        }
        law_product_is_exact_on_numbers(a, b, x * y, da + db);
        let product = a.times(b);
        assert(scaled(product) * pow2(1074) == ((x * y) * pow2(1074)) * pow2(1074))
            by (nonlinear_arith)
            requires
                scaled(product) * pow2(1074) == scaled(a) * scaled(b),
                scaled(a) == x * pow2(1074),
                scaled(b) == y * pow2(1074),
        ;
        assert(scaled(product) == (x * y) * pow2(1074)) by (nonlinear_arith)
            requires
                scaled(product) * pow2(1074) == ((x * y) * pow2(1074)) * pow2(1074),
                pow2(1074) > 0,
        ;
    }
}

/// The opposite of a number has the opposite value.
pub proof fn law_negation_negates_the_value(x: Number)
    ensures
        x.negated().magnitude() == x.magnitude(),
        x.negated().is_negative() != x.is_negative(),
        scaled(x.negated()) == -scaled(x),
{
}

/// A larger finite magnitude has the larger value.
proof fn lemma_magnitudes_grow(a: Number, b: Number)
    requires
        a.is_finite(),
        b.is_finite(),
        a.magnitude() < b.magnitude(),
    ensures
        scaled_magnitude(a.significand(), a.exponent()) < scaled_magnitude(
            b.significand(),
            b.exponent(),
        ),
{
    lemma_pow2_values();
    let ea = (a.exponent() + 1074) as nat;
    let eb = (b.exponent() + 1074) as nat;
    lemma_pow2_pos(ea);
    lemma_pow2_pos(eb);
    if a.exponent() == b.exponent() {
        // the same places: the significands decide
        assert(a.significand() < b.significand());
        assert(a.significand() * pow2(ea) < b.significand() * pow2(eb)) by (nonlinear_arith)
            requires
                a.significand() < b.significand(),
                pow2(ea) == pow2(eb),
                pow2(ea) > 0,
        ;
    } else {
        assert(a.exponent_field() < b.exponent_field());
        assert(b.significand() >= pow2(52));
        // all of `a` lies below the first place of `b`
        lemma_pow2_adds(53, ea);
        lemma_pow2_adds(52, eb);
        lemma_pow2_le(53 + ea, 52 + eb);
        assert(a.significand() * pow2(ea) < pow2(53) * pow2(ea)) by (nonlinear_arith)
            requires
                a.significand() < pow2(53),
                pow2(ea) > 0,
        ;
        assert(b.significand() * pow2(eb) >= pow2(52) * pow2(eb)) by (nonlinear_arith)
            requires
                b.significand() >= pow2(52),
                pow2(eb) > 0,
        ;
    }
}

/// Only the zeros have the value zero.
proof fn lemma_value_of_zero(x: Number)
    requires
        x.is_finite(),
    ensures
        (scaled_magnitude(x.significand(), x.exponent()) == 0) == (x.magnitude() == 0),
{
    let p = pow2((x.exponent() + 1074) as nat);
    lemma_pow2_pos((x.exponent() + 1074) as nat);
    if x.magnitude() == 0 {
        assert(x.significand() == 0);
        assert(0 * p == 0) by (nonlinear_arith);
    } else {
        assert(x.significand() > 0);
        assert(x.significand() * p > 0) by (nonlinear_arith)
            requires
                x.significand() > 0,
                p > 0,
        ;
    }
}

/// The order of two finite numbers is the order of their values: the place
/// of one stands before the place of the other just when its value is the
/// smaller, and the two places are one just when the values are.
pub proof fn law_order_is_the_order_of_values(a: Number, b: Number)
    requires
        a.is_finite(),
        b.is_finite(),
    ensures
        (a.rank() < b.rank()) == (scaled(a) < scaled(b)),
        (a.rank() == b.rank()) == (scaled(a) == scaled(b)),
{
    let x = scaled_magnitude(a.significand(), a.exponent());
    let y = scaled_magnitude(b.significand(), b.exponent());
    if a.magnitude() < b.magnitude() {
        lemma_magnitudes_grow(a, b);
    } else if b.magnitude() < a.magnitude() {
        lemma_magnitudes_grow(b, a);
    } else {
        assert(a.significand() == b.significand());
        assert(a.exponent() == b.exponent());
    }
    lemma_value_of_zero(a);
    lemma_value_of_zero(b);
}

/// The numbers that sums and products begin with have the values zero and
/// one.
pub proof fn law_zero_and_one_have_their_values()
    ensures
        scaled(Number::zero()) == 0,
        scaled(Number::one()) == pow2(1074),
{
    lemma_pow2_values();
    let zero = Number::zero();
    let one = Number::one();
    assert(zero.significand() == 0);
    assert(scaled(zero) == 0) by (nonlinear_arith)
        requires
            scaled(zero) == 0 * pow2((zero.exponent() + 1074) as nat),
    ;
    assert(one.magnitude() == 1023 * 0x10_0000_0000_0000);
    lemma_fundamental_div_mod_converse(one.magnitude() as int, HIDDEN_BIT as int, 1023, 0);
    assert(one.significand() == pow2(52));
    assert(one.exponent() == -52);
    lemma_pow2_adds(52, 1022);
}

/// Rounding a quotient looks at the quotient only: a factor that the two
/// parts share does not count.
proof fn lemma_nearest_scales(n: nat, d: nat, c: nat)
    requires
        d > 0,
        c > 0,
    ensures
        nearest(n * c, d * c) == nearest(n, d),
{
    let q = n / d;
    let r = n % d;
    lemma_fundamental_div_mod(n as int, d as int);
    lemma_mod_pos_bound(n as int, d as int);
    assert(n * c == q * (d * c) + r * c) by (nonlinear_arith)
        requires
            n == d * q + r,
    ;
    assert(0 <= r * c < d * c) by (nonlinear_arith)
        requires
            0 <= r < d,
            c > 0,
    ;
    assert(d * c > 0) by (nonlinear_arith)
        requires
            d > 0,
            c > 0,
    ;
    lemma_fundamental_div_mod_converse(
        (n * c) as int,
        (d * c) as int,
        q as int,
        (r * c) as int,
    );
    assert((2 * (r * c) > d * c) == (2 * r > d)) by (nonlinear_arith)
        requires
            c > 0,
    ;
    assert((2 * (r * c) == d * c) == (2 * r == d)) by (nonlinear_arith)
        requires
            c > 0,
    ;
}

/// Two quotients of the same value round to the same integer.
proof fn lemma_nearest_of_equal_quotients(n: nat, d: nat, m: nat, c: nat)
    requires
        d > 0,
        c > 0,
        n * c == m * d,
    ensures
        nearest(n, d) == nearest(m, c),
{
    lemma_nearest_scales(n, d, c);
    lemma_nearest_scales(m, c, d);
    assert(d * c == c * d) by (nonlinear_arith);
}

/// A significand that is shifted up to 53 digits has 53 digits.
proof fn lemma_normal_significand(m: nat)
    requires
        0 < m < pow2(53),
    ensures
        bit_length(m) <= 53,
        pow2(52) <= normal_significand(m) < pow2(53),
{
    lemma_bit_length_bounds(m);
    let digits = bit_length(m);
    if digits > 53 {
        lemma_pow2_le(53, (digits - 1) as nat);
    }
    let up = (53 - digits) as nat;
    lemma_pow2_pos(up);
    lemma_pow2_adds(digits, up);
    lemma_pow2_adds((digits - 1) as nat, up);
    assert(m * pow2(up) < pow2(digits) * pow2(up)) by (nonlinear_arith)
        requires
            m < pow2(digits),
            pow2(up) > 0,
    ;
    assert(m * pow2(up) >= pow2((digits - 1) as nat) * pow2(up)) by (nonlinear_arith)
        requires
            m >= pow2((digits - 1) as nat),
            pow2(up) > 0,
    ;
}

/// A quotient of two significands of 53 digits whose value is a third one
/// times a power of two rounds as that one does: where
/// `n * 2^a == t * d * 2^b`, the quotient `n / d` at the exponent `e` is
/// `t` at the exponent `e - (a - b)`.
proof fn lemma_ratio_rounds_as_its_value(n: nat, d: nat, e: int, t: nat, a: nat, b: nat)
    requires
        pow2(52) <= n < pow2(53),
        pow2(52) <= d < pow2(53),
        pow2(52) <= t < pow2(53),
        n * pow2(a) == t * d * pow2(b),
    ensures
        rounded_ratio(n, d, e) == rounded(t, e - (a - b)),
{
    lemma_pow2_values();
    lemma_pow2_pos(a);
    lemma_pow2_pos(b);
    lemma_pow2_adds(52, 52);
    lemma_pow2_adds(53, 53);
    let product = t * d;
    assert(pow2(104) <= product < pow2(106)) by (nonlinear_arith)
        requires
            product == t * d,
            pow2(52) <= t < pow2(53),
            pow2(52) <= d < pow2(53),
            pow2(104) == pow2(52) * pow2(52),
            pow2(106) == pow2(53) * pow2(53),
    ;
    // the powers differ by 52 or by 53
    if a < b {
        let more = (b - a) as nat;
        lemma_pow2_adds(a, more);
        lemma_pow2_pos(more);
        assert(n == product * pow2(more)) by (nonlinear_arith)
            requires
                n * pow2(a) == product * pow2(b),
                pow2(b) == pow2(a) * pow2(more),
                pow2(a) > 0,
        ;
        assert(product * pow2(more) >= product) by (nonlinear_arith)
            requires
                pow2(more) >= 1,
                product >= 0,
        ;
        lemma_pow2_le(53, 104);
        assert(false);
    }
    let by = (a - b) as nat;
    lemma_pow2_adds(b, by);
    lemma_pow2_pos(by);
    assert(n * pow2(by) == product) by (nonlinear_arith)
        requires
            n * pow2(a) == product * pow2(b),
            pow2(a) == pow2(b) * pow2(by),
            pow2(b) > 0,
    ;
    if by < 52 {
        lemma_pow2_le(by, 51);
        lemma_pow2_adds(53, 51);
        assert(n * pow2(by) < pow2(53) * pow2(51)) by (nonlinear_arith)
            requires
                n < pow2(53),
                pow2(by) <= pow2(51),
                pow2(by) > 0,
        ;
        assert(false);
    }
    if by > 53 {
        lemma_pow2_le(54, by);
        lemma_pow2_adds(52, 54);
        assert(n * pow2(by) >= pow2(52) * pow2(54)) by (nonlinear_arith)
            requires
                n >= pow2(52),
                pow2(by) >= pow2(54),
        ;
        assert(false);
    }
    // and by 52 just when the quotient is at least one
    if by == 52 {
        assert(n >= d) by (nonlinear_arith)
            requires
                n * pow2(52) == t * d,
                t >= pow2(52),
                pow2(52) > 0,
                d > 0,
        ;
    } else {
        assert(n < d) by (nonlinear_arith)
            requires
                n * pow2(53) == t * d,
                t < pow2(53),
                pow2(53) > 0,
                d > 0,
        ;
    }
    let g = e - by;
    let top = if n >= d {
        e
    } else {
        e - 1
    };
    assert(top - 52 == g);
    lemma_bit_length_is(t, 53);
    let unit = unit_exponent(53, g);
    assert(unit >= g);
    let shift = (unit - g) as nat;
    lemma_pow2_pos(shift);
    // the quotient and `t` hold the same value in units of the last place
    if e >= unit {
        let up = (e - unit) as nat;
        lemma_pow2_adds(up, shift);
        lemma_pow2_pos(up);
        assert((n * pow2(up)) * pow2(shift) == t * d) by (nonlinear_arith)
            requires
                n * pow2(by) == t * d,
                pow2(by) == pow2(up) * pow2(shift),
        ;
        lemma_nearest_of_equal_quotients(n * pow2(up), d, t, pow2(shift));
    } else {
        let down = (unit - e) as nat;
        lemma_pow2_adds(by, down);
        lemma_pow2_pos(down);
        assert(d * pow2(down) > 0) by (nonlinear_arith)
            requires
                d > 0,
                pow2(down) > 0,
        ;
        assert(n * pow2(shift) == t * (d * pow2(down))) by (nonlinear_arith)
            requires
                n * pow2(by) == t * d,
                pow2(shift) == pow2(by) * pow2(down),
        ;
        lemma_nearest_of_equal_quotients(n, d * pow2(down), t, pow2(shift));
    }
}

/// An equation between products stays one when each side takes the factors
/// that the other has.
proof fn lemma_shifted_equation(
    sa: int,
    pa: int,
    k: int,
    t: int,
    pg: int,
    sb: int,
    pb: int,
    up: int,
    down: int,
    ut: int,
)
    requires
        (sa * pa) * k == (t * pg) * (sb * pb),
    ensures
        (sa * up) * (pa * k * down * ut) == (t * ut) * (sb * down) * (pg * pb * up),
{
    // the left side, one factor at a time
    let m = pa * k;
    let x0 = (sa * pa) * k;
    let x1 = x0 * up;
    let x2 = x1 * down;
    let x3 = x2 * ut;
    let head = sa * up;
    assert(x0 == sa * m) by (nonlinear_arith)
        requires
            x0 == (sa * pa) * k,
            m == pa * k,
    ;
    assert(x1 == head * m) by (nonlinear_arith)
        requires
            x1 == (sa * m) * up,
            head == sa * up,
    ;
    assert(x2 == head * (m * down)) by (nonlinear_arith)
        requires
            x2 == (head * m) * down,
    ;
    assert(x3 == head * ((m * down) * ut)) by (nonlinear_arith)
        requires
            x3 == (head * (m * down)) * ut,
    ;
    // the right side
    let v = t * sb;
    let w = pg * pb;
    let y0 = (t * pg) * (sb * pb);
    let y1 = y0 * up;
    let y2 = y1 * down;
    let y3 = y2 * ut;
    let z = w * up;
    let vd = v * down;
    assert(y0 == v * w) by (nonlinear_arith)
        requires
            y0 == (t * pg) * (sb * pb),
            v == t * sb,
            w == pg * pb,
    ;
    assert(y1 == v * z) by (nonlinear_arith)
        requires
            y1 == (v * w) * up,
            z == w * up,
    ;
    assert(y2 == vd * z) by (nonlinear_arith)
        requires
            y2 == (v * z) * down,
            vd == v * down,
    ;
    assert(y3 == (vd * ut) * z) by (nonlinear_arith)
        requires
            y3 == (vd * z) * ut,
    ;
    assert(vd * ut == (t * ut) * (sb * down)) by (nonlinear_arith)
        requires
            vd == (t * sb) * down,
    ;
    assert(pa * k * down * ut == (m * down) * ut);
    assert(pg * pb * up == z);
}

/// The quotient of two finite numbers is exact where the exact quotient is
/// a number: where the first has the value of the second times `t * 2^g`,
/// with `t` of at most 53 digits, the value of the quotient times the value
/// of the second is the value of the first.
pub proof fn law_quotient_is_exact_on_numbers(a: Number, b: Number, t: nat, g: int)
    requires
        a.is_finite(),
        b.is_finite(),
        !a.is_zero(),
        !b.is_zero(),
        t > 0,
        representable(t, g),
        scaled_magnitude(a.significand(), a.exponent()) * pow2(1074) == scaled_magnitude(t, g)
            * scaled_magnitude(b.significand(), b.exponent()),
    ensures
        a.over(b).is_finite(),
        a.over(b).is_negative() == (a.is_negative() != b.is_negative()),
        scaled(a.over(b)) * scaled(b) == scaled(a) * pow2(1074),
{
    reveal(Number::over);
    lemma_pow2_values();
    let sa = a.significand();
    let sb = b.significand();
    let ea = a.exponent();
    let eb = b.exponent();
    assert(0 < sa < pow2(53));
    assert(0 < sb < pow2(53));
    lemma_normal_significand(sa);
    lemma_normal_significand(sb);
    lemma_normal_significand(t);
    let up = (53 - bit_length(sa)) as nat;
    let down = (53 - bit_length(sb)) as nat;
    let ut = (53 - bit_length(t)) as nat;
    let n = normal_significand(sa);
    let d = normal_significand(sb);
    let tn = normal_significand(t);
    let e = (ea - up) - (eb - down);
    // the same equation between the shifted significands
    let pa = (ea + 1074 + 1074 + down + ut) as nat;
    let pb = (g + 1074 + eb + 1074 + up) as nat;
    lemma_pow2_adds((ea + 1074) as nat, 1074);
    lemma_pow2_adds((ea + 1074 + 1074) as nat, down);
    lemma_pow2_adds((ea + 1074 + 1074 + down) as nat, ut);
    lemma_pow2_adds((g + 1074) as nat, (eb + 1074) as nat);
    lemma_pow2_adds((g + 1074 + eb + 1074) as nat, up);
    lemma_shifted_equation(
        sa as int,
        pow2((ea + 1074) as nat) as int,
        pow2(1074) as int,
        t as int,
        pow2((g + 1074) as nat) as int,
        sb as int,
        pow2((eb + 1074) as nat) as int,
        pow2(up) as int,
        pow2(down) as int,
        pow2(ut) as int,
    );
    lemma_ratio_rounds_as_its_value(n, d, e, tn, pa, pb);
    assert(e - (pa - pb) == g - ut);
    law_rounding_ignores_the_scale(t, ut, g - ut);
    law_rounding_is_exact_on_numbers(t, g);
    let pattern = rounded_ratio(n, d, e);
    assert(pattern == rounded(t, g));
    let negative = a.is_negative() != b.is_negative();
    let quotient = signed(pattern, negative);
    assert(a.over(b) == quotient);
    assert(quotient.magnitude() == pattern);
    let near = Number { bits: pattern as u64 };
    assert(near.magnitude() == pattern);
    assert(quotient.significand() == near.significand());
    assert(quotient.exponent() == near.exponent());
    let x = scaled_magnitude(a.significand(), a.exponent());
    let y = scaled_magnitude(b.significand(), b.exponent());
    let z = scaled_magnitude(quotient.significand(), quotient.exponent());
    assert(z * y == x * pow2(1074));
    assert((-(z as int)) * y == -(x * pow2(1074))) by (nonlinear_arith)
        requires
            z * y == x * pow2(1074),
    ;
    assert((-(z as int)) * (-(y as int)) == x * pow2(1074)) by (nonlinear_arith)
        requires
            z * y == x * pow2(1074),
    ;
    assert(z * (-(y as int)) == -(x * pow2(1074))) by (nonlinear_arith)
        requires
            z * y == x * pow2(1074),
    ;
    assert((-(x as int)) * pow2(1074) == -(x * pow2(1074))) by (nonlinear_arith);
}

/// The quotient of a count by a count that divides it is the count that is
/// their quotient.
pub proof fn law_counts_divide_exactly(q: nat, y: nat)
    requires
        q > 0,
        y > 0,
        q * y < pow2(53),
    ensures
        scaled(Number::of_count(q * y).over(Number::of_count(y))) == q * pow2(1074),
{
    lemma_pow2_values();
    lemma_pow2_pos(1074);
    let x = q * y;
    let k = pow2(1074);
    assert(y <= x && q <= x) by (nonlinear_arith)
        requires
            x == q * y,
            q >= 1,
            y >= 1,
    ;
    let a = Number::of_count(x);
    let b = Number::of_count(y);
    law_small_counts_are_exact(x);
    law_small_counts_are_exact(y);
    lemma_value_of_zero(a);
    lemma_value_of_zero(b);
    let xk = x * k;
    let yk = y * k;
    let qk = q * k;
    assert(xk > 0 && yk > 0) by (nonlinear_arith)
        requires
            xk == x * k,
            yk == y * k,
            x > 0,
            y > 0,
            k > 0,
    ;
    lemma_bit_length_bounds(q);
    if bit_length(q) > 53 {
        lemma_pow2_le(53, (bit_length(q) - 1) as nat);
    }
    assert(xk * k == qk * yk) by (nonlinear_arith)
        requires
            xk == (q * y) * k,
            yk == y * k,
            qk == q * k,
    ;
    law_quotient_is_exact_on_numbers(a, b, q, 0);
    let quotient = scaled(a.over(b));
    assert(quotient == qk) by (nonlinear_arith)
        requires
            quotient * yk == xk * k,
            xk * k == qk * yk,
            yk > 0,
    ;
}
} // verus!
