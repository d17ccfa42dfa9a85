//! Numbers of the language: IEEE 754 double-precision values, held as their
//! 64-bit patterns and computed on with integer arithmetic only.

use vstd::prelude::*;
use vstd::arithmetic::power2::lemma2_to64;
use vstd::arithmetic::power2::lemma2_to64_rest;
use vstd::arithmetic::power2::lemma_pow2_adds;
use vstd::arithmetic::power2::lemma_pow2_pos;
use vstd::arithmetic::power2::lemma_pow2_strictly_increases;
use vstd::arithmetic::power2::lemma_pow2_unfold;
use vstd::arithmetic::power2::pow2;

verus! {

/// The bit that holds the sign.
pub const SIGN_BIT: u64 = 0x8000_0000_0000_0000;

/// The magnitude pattern of infinity; every larger magnitude is a NaN.
pub const INFINITY_BITS: u64 = 0x7FF0_0000_0000_0000;

/// The pattern that arithmetic returns for an undefined result.
pub const NAN_BITS: u64 = 0x7FF8_0000_0000_0000;

/// Two to the power 52: the hidden bit of a normal significand.
pub const HIDDEN_BIT: u64 = 0x10_0000_0000_0000;

/// A double-precision number, as its bit pattern.
#[derive(Clone, Copy, Debug, PartialEq, Eq)]
pub struct Number {
    pub bits: u64,
}

/// The six numeric comparisons of the language.
#[derive(Clone, Copy, Debug, PartialEq, Eq)]
pub enum Comparison {
    Equal,
    NotEqual,
    Less,
    Greater,
    LessOrEqual,
    GreaterOrEqual,
}

impl Number {
    /// The pattern without its sign bit.
    pub open spec fn magnitude(self) -> nat {
        if self.bits >= SIGN_BIT {
            (self.bits - SIGN_BIT) as nat
        } else {
            self.bits as nat
        }
    }

    /// Whether the sign bit is set.
    pub open spec fn is_negative(self) -> bool {
        self.bits >= SIGN_BIT
    }

    /// Whether the pattern is no number: a magnitude beyond infinity.
    pub open spec fn is_nan(self) -> bool {
        self.magnitude() > INFINITY_BITS
    }

    /// Whether the number is an infinity.
    pub open spec fn is_infinite(self) -> bool {
        self.magnitude() == INFINITY_BITS
    }

    /// Whether the number is neither an infinity nor a NaN.
    pub open spec fn is_finite(self) -> bool {
        self.magnitude() < INFINITY_BITS
    }

    /// Whether the number is one of the two zeros.
    pub open spec fn is_zero(self) -> bool {
        self.magnitude() == 0
    }

    /// The place of a number that is not a NaN on the extended real line:
    /// magnitudes grow with their patterns, and both zeros stand at 0.
    pub open spec fn rank(self) -> int {
        if self.is_negative() {
            -(self.magnitude() as int)
        } else {
            self.magnitude() as int
        }
    }

    /// What a comparison of two numbers yields. A NaN is unequal to every
    /// number, itself included, and stands in no order with any.
    pub open spec fn compares(self, op: Comparison, other: Number) -> bool {
        let ordered = !self.is_nan() && !other.is_nan();
        match op {
            Comparison::Equal => ordered && self.rank() == other.rank(),
            Comparison::NotEqual => !(ordered && self.rank() == other.rank()),
            Comparison::Less => ordered && self.rank() < other.rank(),
            Comparison::Greater => ordered && self.rank() > other.rank(),
            Comparison::LessOrEqual => ordered && self.rank() <= other.rank(),
            Comparison::GreaterOrEqual => ordered && self.rank() >= other.rank(),
        }
    }

    /// The number with the opposite sign.
    pub open spec fn negated(self) -> Number {
        if self.bits >= SIGN_BIT {
            Number { bits: (self.bits - SIGN_BIT) as u64 }
        } else {
            Number { bits: (self.bits + SIGN_BIT) as u64 }
        }
    }

    /// The number with the given pattern.
    pub fn from_bits(bits: u64) -> (r: Number)
        ensures
            r.bits == bits,
    {
        Number { bits }
    }

    /// The pattern of the number.
    pub fn to_bits(self) -> (r: u64)
        ensures
            r == self.bits,
    {
        self.bits
    }

    /// The pattern without its sign bit.
    fn magnitude_bits(self) -> (r: u64)
        ensures
            r == self.magnitude(),
            r < SIGN_BIT,
    {
        if self.bits >= SIGN_BIT {
            self.bits - SIGN_BIT
        } else {
            self.bits
        }
    }

    /// Whether the sign bit is set.
    fn sign_negative(self) -> (r: bool)
        ensures
            r == self.is_negative(),
    {
        self.bits >= SIGN_BIT
    }

    /// Decides `self op other`.
    pub fn compare(self, op: Comparison, other: Number) -> (r: bool)
        ensures
            r == self.compares(op, other),
    {
        let a: u64 = self.magnitude_bits();
        let b: u64 = other.magnitude_bits();
        let ordered = a <= INFINITY_BITS && b <= INFINITY_BITS;
        let na = self.sign_negative();
        let nb = other.sign_negative();
        // with both magnitudes zero the signs do not count
        let equal = ordered && a == b && (na == nb || a == 0);
        let less = ordered && !equal && if na {
            !nb || a > b
        } else {
            !nb && a < b
        };
        match op {
            Comparison::Equal => equal,
            Comparison::NotEqual => !equal,
            Comparison::Less => less,
            Comparison::Greater => ordered && !equal && !less,
            Comparison::LessOrEqual => less || equal,
            Comparison::GreaterOrEqual => ordered && !less,
        }
    }

    /// Flips the sign, of a NaN too.
    pub fn negate(self) -> (r: Number)
        ensures
            r == self.negated(),
    {
        if self.bits >= SIGN_BIT {
            Number { bits: self.bits - SIGN_BIT }
        } else {
            Number { bits: self.bits + SIGN_BIT }
        }
    }
}

/// The number of binary digits of `n`.
pub open spec fn bit_length(n: nat) -> nat
    decreases n,
{
    if n == 0 {
        0
    } else {
        1 + bit_length(n / 2)
    }
}

/// `n / d` rounded to the nearest integer, a tie to the even one.
pub open spec fn nearest(n: nat, d: nat) -> nat {
    let q = n / d;
    let r = n % d;
    if 2 * r > d || (2 * r == d && q % 2 == 1) {
        q + 1
    } else {
        q
    }
}

/// The magnitude pattern of `scaled * 2^unit`, for `scaled` up to two to
/// the power 53 and `unit` from -1074 on; infinity where that is too large.
pub open spec fn packed(scaled: nat, unit: int) -> nat {
    if unit + 1074 >= 2047 {
        INFINITY_BITS as nat
    } else {
        let pattern = (unit + 1074) * HIDDEN_BIT + scaled;
        if pattern >= INFINITY_BITS {
            INFINITY_BITS as nat
        } else {
            pattern as nat
        }
    }
}

/// The exponent of the last binary place that a number with `digits`
/// binary digits above the exponent `e` keeps: 53 places, and no place
/// below the smallest.
pub open spec fn unit_exponent(digits: nat, e: int) -> int {
    if e + digits - 53 < -1074 {
        -1074
    } else {
        e + digits - 53
    }
}

/// The magnitude pattern nearest to `n * 2^e`, a tie to the even pattern.
pub open spec fn rounded(n: nat, e: int) -> nat {
    if n == 0 {
        0
    } else {
        let unit = unit_exponent(bit_length(n), e);
        if unit >= e {
            packed(nearest(n, pow2((unit - e) as nat)), unit)
        } else {
            packed(n * pow2((e - unit) as nat), unit)
        }
    }
}

/// A number with digits has at least the lowest and less than the next
/// power of two.
pub proof fn lemma_bit_length_bounds(n: nat)
    requires
        n > 0,
    ensures
        bit_length(n) > 0,
        pow2((bit_length(n) - 1) as nat) <= n < pow2(bit_length(n)),
    decreases n,
{
    lemma2_to64();
    if n == 1 {
        assert(bit_length(1) == 1 + bit_length(0));
    } else {
        let half = n / 2;
        lemma_bit_length_bounds(half);
        lemma_pow2_unfold(bit_length(half));
        lemma_pow2_unfold(bit_length(n));
    }
}

/// A number below a power of two has no more digits than the power says.
pub proof fn lemma_bit_length_le(n: nat, k: nat)
    requires
        n < pow2(k),
    ensures
        bit_length(n) <= k,
{
    if n > 0 && bit_length(n) > k {
        lemma_bit_length_bounds(n);
        let top = (bit_length(n) - 1) as nat;
        if top > k {
            lemma_pow2_strictly_increases(k, top);
        }
    }
}

/// Powers of two grow, weakly.
pub proof fn lemma_pow2_le(a: nat, b: nat)
    requires
        a <= b,
    ensures
        pow2(a) <= pow2(b),
{
    if a < b {
        lemma_pow2_strictly_increases(a, b);
    }
}

/// The powers of two that bound the values of this module.
pub proof fn lemma_pow2_values()
    ensures
        pow2(52) == 0x10_0000_0000_0000,
        pow2(53) == 0x20_0000_0000_0000,
        pow2(64) == 0x1_0000_0000_0000_0000,
        pow2(120) == 0x100_0000_0000_0000_0000_0000_0000_0000,
        pow2(126) == 0x4000_0000_0000_0000_0000_0000_0000_0000,
{
    lemma2_to64();
    lemma2_to64_rest();
    lemma_pow2_adds(60, 60);
    lemma_pow2_adds(63, 63);
}

/// Two to the power `k`.
fn pow2_of(k: u32) -> (r: u128)
    requires
        k <= 126,
    ensures
        r == pow2(k as nat),
        r >= 1,
{
    let mut r: u128 = 1;
    let mut i: u32 = 0;
    proof {
        lemma2_to64();
    }
    while i < k
        invariant
            i <= k <= 126,
            r == pow2(i as nat),
            r >= 1,
        decreases k - i,
    {
        proof {
            lemma_pow2_unfold((i + 1) as nat);
            lemma_pow2_le((i + 1) as nat, 126);
            lemma_pow2_values();
        }
        r = r * 2;
        i += 1;
    }
    r
}

/// The number of binary digits of `n`.
fn bit_length_of(n: u128) -> (r: u32)
    requires
        n < 0x100_0000_0000_0000_0000_0000_0000_0000,
    ensures
        r == bit_length(n as nat),
        r <= 120,
{
    proof {
        lemma_pow2_values();
        lemma_bit_length_le(n as nat, 120);
    }
    let mut m: u128 = n;
    let mut r: u32 = 0;
    while m > 0
        invariant
            r + bit_length(m as nat) == bit_length(n as nat),
            bit_length(n as nat) <= 120,
        decreases m,
    {
        m = m / 2;
        r += 1;
    }
    r
}

/// `n / d` rounded to the nearest integer, a tie to the even one.
fn nearest_of(n: u128, d: u128) -> (r: u128)
    requires
        d > 0,
        d <= 0x4000_0000_0000_0000_0000_0000_0000_0000,
        n < 0x4000_0000_0000_0000_0000_0000_0000_0000,
    ensures
        r == nearest(n as nat, d as nat),
        r <= n / d + 1,
        r >= n / d,
{
    let q: u128 = n / d;
    let r: u128 = n % d;
    if 2 * r > d || (2 * r == d && q % 2 == 1) {
        q + 1
    } else {
        q
    }
}

/// The magnitude pattern of `scaled * 2^unit`.
fn pack(scaled: u64, unit: i64) -> (r: u64)
    requires
        scaled <= 0x20_0000_0000_0000,
        -1074 <= unit <= 8192,
    ensures
        r == packed(scaled as nat, unit as int),
        r <= INFINITY_BITS,
{
    if unit + 1074 >= 2047 {
        INFINITY_BITS
    } else {
        let high: u64 = (unit + 1074) as u64;
        let pattern: u64 = high * HIDDEN_BIT + scaled;
        if pattern >= INFINITY_BITS {
            INFINITY_BITS
        } else {
            pattern
        }
    }
}

/// Below a product of two factors, the quotient by one is below the other.
proof fn lemma_quotient_below(n: nat, a: nat, b: nat)
    requires
        a > 0,
        n < a * b,
    ensures
        n / a < b,
{
    if n / a >= b {
        assert(n >= a * (n / a)) by (nonlinear_arith)
            requires
                a > 0,
        ;
        assert(a * (n / a) >= a * b) by (nonlinear_arith)
            requires
                n / a >= b,
        ;
    }
}

/// The number of digits of a number between two neighbouring powers of
/// two.
pub proof fn lemma_bit_length_is(x: nat, digits: nat)
    requires
        digits >= 1,
        pow2((digits - 1) as nat) <= x < pow2(digits),
    ensures
        bit_length(x) == digits,
{
    lemma_pow2_pos((digits - 1) as nat);
    lemma_bit_length_bounds(x);
    let found = bit_length(x);
    if found < digits {
        lemma_pow2_le(found, (digits - 1) as nat);
    }
    if found > digits {
        lemma_pow2_le(digits, (found - 1) as nat);
    }
}

/// The sum of a number of 53 digits at exponent `e` and one more than 64
/// places below rounds to the first: what is added or taken away lies under
/// a quarter of its last place.
proof fn lemma_far_addend(m: nat, e: int, n: nat, f: int, subtract: bool)
    requires
        0x10_0000_0000_0000 <= m < 0x20_0000_0000_0000,
        n < 0x20_0000_0000_0000,
        -1074 <= f,
        e - f > 64,
        e <= 971,
    ensures
        ({
            let aligned = m * pow2((e - f) as nat);
            let exact: int = if subtract {
                aligned - n
            } else {
                (aligned + n) as int
            };
            exact > 0 && rounded(exact as nat, f) == (e + 1074) * 0x10_0000_0000_0000 + m
        }),
{
    let g = (e - f) as nat;
    let whole = pow2(g);
    let half = pow2((g - 1) as nat);
    lemma_pow2_values();
    lemma_pow2_unfold(g);
    lemma_pow2_le(55, (g - 1) as nat);
    lemma_pow2_adds(53, 2);
    lemma2_to64();
    lemma_pow2_adds(52, g);
    lemma_pow2_adds(53, g);
    lemma_pow2_adds(52, (g - 1) as nat);
    lemma_pow2_adds(53, (g - 1) as nat);
    let aligned = m * whole;
    assert(aligned >= 0x10_0000_0000_0000 * whole) by (nonlinear_arith)
        requires
            aligned == m * whole,
            m >= 0x10_0000_0000_0000,
            whole > 0,
    ;
    assert(aligned + whole <= 0x20_0000_0000_0000 * whole) by (nonlinear_arith)
        requires
            aligned == m * whole,
            m < 0x20_0000_0000_0000,
            whole > 0,
    ;
    if !subtract || n == 0 {
        let exact = (aligned + (if subtract { 0 } else { n })) as nat;
        let r = (exact - aligned) as nat;
        lemma_bit_length_is(exact, 53 + g);
        vstd::arithmetic::div_mod::lemma_fundamental_div_mod_converse(
            exact as int,
            whole as int,
            m as int,
            r as int,
        );
    } else if m > 0x10_0000_0000_0000 {
        let exact = (aligned - n) as nat;
        let r = (whole - n) as nat;
        assert(aligned - whole >= 0x10_0000_0000_0000 * whole) by (nonlinear_arith)
            requires
                aligned == m * whole,
                m > 0x10_0000_0000_0000,
                whole > 0,
        ;
        assert(exact == (m - 1) * whole + r) by (nonlinear_arith)
            requires
                exact == m * whole - n,
                r == whole - n,
        ;
        lemma_bit_length_is(exact, 53 + g);
        vstd::arithmetic::div_mod::lemma_fundamental_div_mod_converse(
            exact as int,
            whole as int,
            m - 1,
            r as int,
        );
    } else {
        let exact = (aligned - n) as nat;
        let r = (half - n) as nat;
        assert(aligned == 0x20_0000_0000_0000 * half) by (nonlinear_arith)
            requires
                aligned == m * whole,
                m == 0x10_0000_0000_0000,
                whole == 2 * half,
        ;
        assert(exact == (0x20_0000_0000_0000 - 1) * half + r) by (nonlinear_arith)
            requires
                exact == 0x20_0000_0000_0000 * half - n,
                r == half - n,
        ;
        assert(exact >= 0x10_0000_0000_0000 * half) by (nonlinear_arith)
            requires
                exact == (0x20_0000_0000_0000 - 1) * half + r,
                r >= 0,
                half > 0,
        ;
        lemma_bit_length_is(exact, 52 + g);
        vstd::arithmetic::div_mod::lemma_fundamental_div_mod_converse(
            exact as int,
            half as int,
            0x20_0000_0000_0000 - 1,
            r as int,
        );
    }
}

/// The magnitude pattern nearest to `n * 2^e`.
fn round_pack(n: u128, e: i64) -> (r: u64)
    requires
        n < 0x100_0000_0000_0000_0000_0000_0000_0000,
        -4096 <= e <= 4096,
    ensures
        r == rounded(n as nat, e as int),
        r <= INFINITY_BITS,
{
    if n == 0 {
        return 0;
    }
    let digits: u32 = bit_length_of(n);
    proof {
        lemma_bit_length_bounds(n as nat);
        lemma_pow2_values();
    }
    let unit: i64 = if e + (digits as i64) - 53 < -1074 {
        -1074
    } else {
        e + (digits as i64) - 53
    };
    if unit >= e {
        let k: i64 = unit - e;
        if k > 122 {
            // every digit lies more than one place below the last place kept
            proof {
                let d = pow2(k as nat);
                lemma_pow2_le(122, k as nat);
                lemma_pow2_adds(120, 2);
                lemma2_to64();
                assert(n as nat / d == 0 && n as nat % d == n) by {
                    vstd::arithmetic::div_mod::lemma_small_mod(n as nat, d);
                    vstd::arithmetic::div_mod::lemma_basic_div(n as int, d as int);
                }
            }
            return 0;
        }
        let d: u128 = pow2_of(k as u32);
        proof {
            lemma_pow2_le(k as nat, 126);
        }
        let scaled: u128 = nearest_of(n, d);
        proof {
            // the quotient has at most 53 digits
            if digits as int >= k {
                lemma_pow2_adds(k as nat, (digits - k) as nat);
                lemma_quotient_below(n as nat, d as nat, pow2((digits - k) as nat));
                lemma_pow2_le((digits - k) as nat, 53);
            } else {
                lemma_pow2_le(digits as nat, k as nat);
                vstd::arithmetic::div_mod::lemma_basic_div(n as int, d as int);
            }
        }
        pack(scaled as u64, unit)
    } else {
        let k: i64 = e - unit;
        let d: u128 = pow2_of(k as u32);
        proof {
            lemma_pow2_adds(digits as nat, k as nat);
            lemma_pow2_le((digits + k) as nat, 53);
            assert(n * d < pow2(digits as nat) * d) by (nonlinear_arith)
                requires
                    n < pow2(digits as nat),
                    d > 0,
            ;
        }
        let scaled: u128 = n * d;
        pack(scaled as u64, unit)
    }
}

/// The number with the given magnitude pattern and sign.
pub open spec fn signed(magnitude: nat, negative: bool) -> Number {
    Number {
        bits: (if negative {
            magnitude + SIGN_BIT
        } else {
            magnitude as int
        }) as u64,
    }
}

/// The NaN that arithmetic returns.
pub open spec fn nan() -> Number {
    Number { bits: NAN_BITS }
}

/// The sum of two finite numbers, the first with the magnitude that is not
/// the smaller one: both are aligned at the smaller exponent and added or
/// subtracted exactly, and the result is rounded once. An exact zero is
/// negative only if both are.
pub open spec fn finite_sum(big: Number, small: Number) -> Number {
    let gap = big.exponent() - small.exponent();
    let aligned = big.significand() * pow2(gap as nat);
    let exact: int = if big.is_negative() == small.is_negative() {
        (aligned + small.significand()) as int
    } else {
        aligned - small.significand()
    };
    if exact == 0 {
        signed(0, big.is_negative() && small.is_negative())
    } else {
        signed(rounded(exact as nat, small.exponent()), big.is_negative())
    }
}

/// A significand shifted up until it has 53 binary digits.
pub open spec fn normal_significand(m: nat) -> nat {
    m * pow2((53 - bit_length(m)) as nat)
}

/// The magnitude pattern nearest to `(n / d) * 2^e`, for `n` and `d` of 53
/// binary digits each, a tie to the even pattern. The quotient lies
/// between a half and two, so its first digit stands at `e` or just below.
pub open spec fn rounded_ratio(n: nat, d: nat, e: int) -> nat {
    let top = if n >= d {
        e
    } else {
        e - 1
    };
    let unit = if top - 52 < -1074 {
        -1074
    } else {
        top - 52
    };
    if e >= unit {
        packed(nearest(n * pow2((e - unit) as nat), d), unit)
    } else {
        packed(nearest(n, d * pow2((unit - e) as nat)), unit)
    }
}

impl Number {
    /// The exponent field of the pattern.
    pub open spec fn exponent_field(self) -> nat {
        self.magnitude() / (HIDDEN_BIT as nat)
    }

    /// The fraction field of the pattern.
    pub open spec fn fraction_field(self) -> nat {
        self.magnitude() % (HIDDEN_BIT as nat)
    }

    /// The significand of a finite number, which is
    /// `significand * 2^exponent` up to its sign.
    pub open spec fn significand(self) -> nat {
        if self.exponent_field() == 0 {
            self.fraction_field()
        } else {
            self.fraction_field() + (HIDDEN_BIT as nat)
        }
    }

    /// The exponent of a finite number.
    pub open spec fn exponent(self) -> int {
        if self.exponent_field() == 0 {
            -1074
        } else {
            self.exponent_field() - 1075
        }
    }

    /// The sum of two numbers.
    #[verifier::opaque]
    pub open spec fn plus(self, other: Number) -> Number {
        if self.is_nan() || other.is_nan() {
            nan()
        } else if self.is_infinite() {
            if other.is_infinite() && self.is_negative() != other.is_negative() {
                nan()
            } else {
                self
            }
        } else if other.is_infinite() {
            other
        } else if self.magnitude() >= other.magnitude() {
            finite_sum(self, other)
        } else {
            finite_sum(other, self)
        }
    }

    /// The difference of two numbers: the sum with the opposite.
    pub open spec fn minus(self, other: Number) -> Number {
        self.plus(other.negated())
    }

    /// The product of two numbers.
    #[verifier::opaque]
    pub open spec fn times(self, other: Number) -> Number {
        let negative = self.is_negative() != other.is_negative();
        if self.is_nan() || other.is_nan() {
            nan()
        } else if self.is_infinite() || other.is_infinite() {
            if self.is_zero() || other.is_zero() {
                nan()
            } else {
                signed(INFINITY_BITS as nat, negative)
            }
        } else {
            signed(
                rounded(
                    self.significand() * other.significand(),
                    self.exponent() + other.exponent(),
                ),
                negative,
            )
        }
    }

    /// The quotient of two numbers. A finite number over zero is infinite;
    /// zero over zero and infinity over infinity are undefined.
    #[verifier::opaque]
    pub open spec fn over(self, other: Number) -> Number {
        let negative = self.is_negative() != other.is_negative();
        if self.is_nan() || other.is_nan() {
            nan()
        } else if self.is_infinite() {
            if other.is_infinite() {
                nan()
            } else {
                signed(INFINITY_BITS as nat, negative)
            }
        } else if other.is_infinite() {
            signed(0, negative)
        } else if other.is_zero() {
            if self.is_zero() {
                nan()
            } else {
                signed(INFINITY_BITS as nat, negative)
            }
        } else if self.is_zero() {
            signed(0, negative)
        } else {
            let up = 53 - bit_length(self.significand());
            let down = 53 - bit_length(other.significand());
            signed(
                rounded_ratio(
                    normal_significand(self.significand()),
                    normal_significand(other.significand()),
                    (self.exponent() - up) - (other.exponent() - down),
                ),
                negative,
            )
        }
    }

    /// The number nearest to a count.
    #[verifier::opaque]
    pub open spec fn of_count(n: nat) -> Number {
        Number { bits: rounded(n, 0) as u64 }
    }

    /// The number zero.
    pub open spec fn zero() -> Number {
        Number { bits: 0 }
    }

    /// The number one.
    pub open spec fn one() -> Number {
        Number { bits: 0x3FF0_0000_0000_0000 }
    }

    /// The significand and the exponent of a finite number.
    fn decode(self) -> (r: (u64, i64))
        requires
            self.is_finite(),
        ensures
            r.0 == self.significand(),
            r.1 == self.exponent(),
            r.0 < 0x20_0000_0000_0000,
            -1074 <= r.1 <= 971,
            self.exponent_field() > 0 ==> r.0 >= HIDDEN_BIT,
            (r.0 == 0) == self.is_zero(),
    {
        let magnitude = self.magnitude_bits();
        let field: u64 = magnitude / HIDDEN_BIT;
        let fraction: u64 = magnitude % HIDDEN_BIT;
        if field == 0 {
            (fraction, -1074)
        } else {
            (fraction + HIDDEN_BIT, (field as i64) - 1075)
        }
    }

    /// The number with the given magnitude pattern and sign.
    fn with_sign(magnitude: u64, negative: bool) -> (r: Number)
        requires
            magnitude < SIGN_BIT,
        ensures
            r == signed(magnitude as nat, negative),
    {
        if negative {
            Number { bits: magnitude + SIGN_BIT }
        } else {
            Number { bits: magnitude }
        }
    }

    /// The sum of two finite numbers, the first with the magnitude that is
    /// not the smaller one.
    fn add_finite(big: Number, small: Number) -> (r: Number)
        requires
            big.is_finite(),
            small.is_finite(),
            big.magnitude() >= small.magnitude(),
        ensures
            r == finite_sum(big, small),
    {
        let (m, e) = big.decode();
        let (n, f) = small.decode();
        let gap: i64 = e - f;
        if gap > 64 {
            // the small addend lies under a quarter of the last place
            proof {
                lemma_far_addend(
                    m as nat,
                    e as int,
                    n as nat,
                    f as int,
                    big.is_negative() != small.is_negative(),
                );
            }
            return big;
        }
        let scale: u128 = pow2_of(gap as u32);
        proof {
            lemma_pow2_le(gap as nat, 64);
            lemma_pow2_values();
            lemma2_to64();
            if gap > 0 {
                lemma_pow2_le(1, gap as nat);
            }
            assert((m as u128) * scale <= 0x20_0000_0000_0000 * 0x1_0000_0000_0000_0000)
                by (nonlinear_arith)
                requires
                    m < 0x20_0000_0000_0000,
                    scale <= 0x1_0000_0000_0000_0000,
            ;
            if gap == 0 {
                assert((m as u128) * scale == m) by (nonlinear_arith)
                    requires
                        scale == 1,
                ;
            } else {
                assert((m as u128) * scale >= 0x10_0000_0000_0000 * 2) by (nonlinear_arith)
                    requires
                        m >= 0x10_0000_0000_0000,
                        scale >= 2,
                ;
            }
        }
        let aligned: u128 = (m as u128) * scale;
        let exact: u128 = if big.sign_negative() == small.sign_negative() {
            aligned + (n as u128)
        } else {
            aligned - (n as u128)
        };
        if exact == 0 {
            Number::with_sign(0, big.sign_negative() && small.sign_negative())
        } else {
            Number::with_sign(round_pack(exact, f), big.sign_negative())
        }
    }

    /// Adds two numbers.
    pub fn add(self, other: Number) -> (r: Number)
        ensures
            r == self.plus(other),
    {
        reveal(Number::plus);
        let a: u64 = self.magnitude_bits();
        let b: u64 = other.magnitude_bits();
        if a > INFINITY_BITS || b > INFINITY_BITS {
            Number { bits: NAN_BITS }
        } else if a == INFINITY_BITS {
            if b == INFINITY_BITS && self.sign_negative() != other.sign_negative() {
                Number { bits: NAN_BITS }
            } else {
                self
            }
        } else if b == INFINITY_BITS {
            other
        } else if a >= b {
            Number::add_finite(self, other)
        } else {
            Number::add_finite(other, self)
        }
    }

    /// Subtracts a number from another.
    pub fn sub(self, other: Number) -> (r: Number)
        ensures
            r == self.minus(other),
    {
        self.add(other.negate())
    }

    /// Multiplies two numbers.
    pub fn mul(self, other: Number) -> (r: Number)
        ensures
            r == self.times(other),
    {
        reveal(Number::times);
        let a: u64 = self.magnitude_bits();
        let b: u64 = other.magnitude_bits();
        let negative = self.sign_negative() != other.sign_negative();
        if a > INFINITY_BITS || b > INFINITY_BITS {
            Number { bits: NAN_BITS }
        } else if a == INFINITY_BITS || b == INFINITY_BITS {
            if a == 0 || b == 0 {
                Number { bits: NAN_BITS }
            } else {
                Number::with_sign(INFINITY_BITS, negative)
            }
        } else {
            let (m, e) = self.decode();
            let (n, f) = other.decode();
            proof {
                assert((m as u128) * (n as u128) < 0x20_0000_0000_0000 * 0x20_0000_0000_0000)
                    by (nonlinear_arith)
                    requires
                        m < 0x20_0000_0000_0000,
                        n < 0x20_0000_0000_0000,
                ;
            }
            let exact: u128 = (m as u128) * (n as u128);
            Number::with_sign(round_pack(exact, e + f), negative)
        }
    }

    /// A significand shifted up until it has 53 binary digits, and by how
    /// many places it was shifted.
    fn normalize(m: u64) -> (r: (u64, i64))
        requires
            0 < m < 0x20_0000_0000_0000,
        ensures
            r.0 == normal_significand(m as nat),
            r.1 == 53 - bit_length(m as nat),
            0 <= r.1 <= 52,
            0x10_0000_0000_0000 <= r.0 < 0x20_0000_0000_0000,
    {
        proof {
            lemma_pow2_values();
            lemma_bit_length_le(m as nat, 53);
            lemma_bit_length_bounds(m as nat);
        }
        let digits: u32 = bit_length_of(m as u128);
        let up: i64 = 53 - (digits as i64);
        let scale: u128 = pow2_of(up as u32);
        proof {
            lemma_pow2_adds(digits as nat, up as nat);
            lemma_pow2_adds((digits - 1) as nat, up as nat);
            assert((m as u128) * scale < pow2(digits as nat) * scale) by (nonlinear_arith)
                requires
                    m < pow2(digits as nat),
                    scale > 0,
            ;
            assert((m as u128) * scale >= pow2((digits - 1) as nat) * scale) by (nonlinear_arith)
                requires
                    m >= pow2((digits - 1) as nat),
                    scale > 0,
            ;
        }
        let n: u128 = (m as u128) * scale;
        (n as u64, up)
    }

    /// The magnitude pattern nearest to `(n / d) * 2^e`.
    fn round_ratio(n: u64, d: u64, e: i64) -> (r: u64)
        requires
            0x10_0000_0000_0000 <= n < 0x20_0000_0000_0000,
            0x10_0000_0000_0000 <= d < 0x20_0000_0000_0000,
            -4096 <= e <= 4096,
        ensures
            r == rounded_ratio(n as nat, d as nat, e as int),
            r <= INFINITY_BITS,
    {
        let top: i64 = if n >= d {
            e
        } else {
            e - 1
        };
        let unit: i64 = if top - 52 < -1074 {
            -1074
        } else {
            top - 52
        };
        proof {
            lemma_pow2_values();
        }
        if e >= unit {
            let k: i64 = e - unit;
            let scale: u128 = pow2_of(k as u32);
            proof {
                lemma_pow2_le(k as nat, 53);
                if n >= d {
                    lemma_pow2_le(k as nat, 52);
                    assert((n as u128) * scale < (d as u128) * 0x20_0000_0000_0000)
                        by (nonlinear_arith)
                        requires
                            scale <= 0x10_0000_0000_0000,
                            n < 2 * d,
                            d > 0,
                    ;
                } else {
                    assert((n as u128) * scale < (d as u128) * 0x20_0000_0000_0000)
                        by (nonlinear_arith)
                        requires
                            scale <= 0x20_0000_0000_0000,
                            n < d,
                    ;
                }
                assert((d as u128) * 0x20_0000_0000_0000 < 0x20_0000_0000_0000
                    * 0x20_0000_0000_0000) by (nonlinear_arith)
                    requires
                        d < 0x20_0000_0000_0000,
                ;
                lemma_quotient_below(
                    (n as nat) * (scale as nat),
                    d as nat,
                    0x20_0000_0000_0000,
                );
            }
            let scaled: u128 = nearest_of((n as u128) * scale, d as u128);
            pack(scaled as u64, unit)
        } else {
            let k: i64 = unit - e;
            if k >= 2 {
                // the quotient lies below half of the smallest place
                proof {
                    let whole = (d as nat) * pow2(k as nat);
                    lemma_pow2_le(2, k as nat);
                    lemma2_to64();
                    assert(whole >= (d as nat) * 4) by (nonlinear_arith)
                        requires
                            whole == (d as nat) * pow2(k as nat),
                            pow2(k as nat) >= 4,
                    ;
                    vstd::arithmetic::div_mod::lemma_small_mod(n as nat, whole);
                    vstd::arithmetic::div_mod::lemma_basic_div(n as int, whole as int);
                }
                return 0;
            }
            proof {
                lemma2_to64();
                assert((d as nat) * pow2(1) == 2 * d) by (nonlinear_arith)
                    requires
                        pow2(1) == 2,
                ;
                vstd::arithmetic::div_mod::lemma_basic_div(n as int, (2 * d) as int);
            }
            let scaled: u128 = nearest_of(n as u128, 2 * (d as u128));
            pack(scaled as u64, unit)
        }
    }

    /// Divides a number by another.
    pub fn div(self, other: Number) -> (r: Number)
        ensures
            r == self.over(other),
    {
        reveal(Number::over);
        let a: u64 = self.magnitude_bits();
        let b: u64 = other.magnitude_bits();
        let negative = self.sign_negative() != other.sign_negative();
        if a > INFINITY_BITS || b > INFINITY_BITS {
            Number { bits: NAN_BITS }
        } else if a == INFINITY_BITS {
            if b == INFINITY_BITS {
                Number { bits: NAN_BITS }
            } else {
                Number::with_sign(INFINITY_BITS, negative)
            }
        } else if b == INFINITY_BITS {
            Number::with_sign(0, negative)
        } else if b == 0 {
            if a == 0 {
                Number { bits: NAN_BITS }
            } else {
                Number::with_sign(INFINITY_BITS, negative)
            }
        } else if a == 0 {
            Number::with_sign(0, negative)
        } else {
            let (m, e) = self.decode();
            let (n, f) = other.decode();
            let (top, up) = Number::normalize(m);
            let (bottom, down) = Number::normalize(n);
            Number::with_sign(Number::round_ratio(top, bottom, (e - up) - (f - down)), negative)
        }
    }

    /// Converts a count to the nearest number.
    pub fn from_usize(n: usize) -> (r: Number)
        ensures
            r == Number::of_count(n as nat),
    {
        reveal(Number::of_count);
        Number { bits: round_pack(n as u128, 0) }
    }
}

} // verus!
