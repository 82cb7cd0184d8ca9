//! Double-precision numbers as their IEEE 754 bits, with the operations on
//! them that are exact: comparison, truncation and rendering with a fixed
//! number of decimals. Every finite value is a whole number of units, where a
//! unit is the smallest positive double.
use crate::text;
use vstd::arithmetic::div_mod::{
    lemma_fundamental_div_mod, lemma_fundamental_div_mod_converse,
};
use vstd::arithmetic::power2::{
    lemma_pow2_adds, lemma_pow2_pos, lemma_pow2_strictly_increases, lemma_pow2_unfold, pow2,
};
use vstd::prelude::*;
use vstd::std_specs::cmp::PartialEqSpecImpl;

verus! {

/// A double, as its bits.
#[derive(Clone, Copy, Debug)]
pub struct Binary64 {
    pub bits: u64,
}

/// How many units make 1.
pub open spec fn one() -> nat {
    pow2(1074)
}

/// The magnitude of the double with biased exponent `e` and fraction `f`, in
/// units. For the exponent of the infinities it exceeds every finite one.
pub open spec fn magnitude_of(e: nat, f: nat) -> nat {
    if e == 0 {
        f
    } else {
        (0x10_0000_0000_0000 + f) * pow2((e - 1) as nat)
    }
}

/// The magnitude of the double with the bits `b`, sign bit left out, in units.
pub open spec fn magnitude_at(b: nat) -> nat {
    magnitude_of(b / 0x10_0000_0000_0000, b % 0x10_0000_0000_0000)
}

impl Binary64 {
    /// The bits without the sign bit.
    pub open spec fn abs_bits(self) -> nat {
        (self.bits % 0x8000_0000_0000_0000) as nat
    }

    /// The biased exponent.
    pub open spec fn exponent(self) -> nat {
        self.abs_bits() / 0x10_0000_0000_0000
    }

    /// The fraction field.
    pub open spec fn fraction(self) -> nat {
        self.abs_bits() % 0x10_0000_0000_0000
    }

    /// Whether the sign bit is set.
    pub open spec fn negative(self) -> bool {
        self.bits >= 0x8000_0000_0000_0000
    }

    /// Whether this is not a number.
    pub open spec fn is_nan(self) -> bool {
        self.exponent() == 2047 && self.fraction() != 0
    }

    /// Whether this is an infinity.
    pub open spec fn is_infinite(self) -> bool {
        self.exponent() == 2047 && self.fraction() == 0
    }

    /// The magnitude in units.
    pub open spec fn magnitude(self) -> nat {
        magnitude_of(self.exponent(), self.fraction())
    }

    /// The value in units; it orders the infinities too.
    pub open spec fn value(self) -> int {
        if self.negative() {
            -(self.magnitude() as int)
        } else {
            self.magnitude() as int
        }
    }

    /// Whether this is greater than zero.
    pub open spec fn spec_positive(self) -> bool {
        !self.is_nan() && self.value() > 0
    }

    /// Whether `self` is less than `other`. Nothing is less than, or greater
    /// than, a value that is not a number.
    pub open spec fn spec_less(self, other: Binary64) -> bool {
        !self.is_nan() && !other.is_nan() && self.value() < other.value()
    }

    /// Whether `self` and `other` are the same number.
    pub open spec fn spec_equal(self, other: Binary64) -> bool {
        !self.is_nan() && !other.is_nan() && self.value() == other.value()
    }

    /// The double with the given bits.
    pub fn from_bits(bits: u64) -> (r: Binary64)
        ensures
            r.bits == bits,
    {
        Binary64 { bits }
    }

    /// Whether this is not a number.
    pub fn not_a_number(self) -> (r: bool)
        ensures
            r == self.is_nan(),
    {
        let abs: u64 = self.bits % 0x8000_0000_0000_0000;
        abs / 0x10_0000_0000_0000 == 2047 && abs % 0x10_0000_0000_0000 != 0
    }

    /// Whether this is zero, of either sign.
    pub fn is_zero(self) -> (r: bool)
        ensures
            r == (self.magnitude() == 0),
    {
        proof {
            lemma_magnitude_zero(self);
        }
        self.bits % 0x8000_0000_0000_0000 == 0
    }

    /// Whether this is greater than zero.
    pub fn is_positive(self) -> (r: bool)
        ensures
            r == self.spec_positive(),
    {
        proof {
            lemma_magnitude_zero(self);
        }
        !self.not_a_number() && self.bits < 0x8000_0000_0000_0000 && !self.is_zero()
    }

    /// Whether `self` is less than `other`.
    pub fn less(self, other: Binary64) -> (r: bool)
        ensures
            r == self.spec_less(other),
    {
        if self.not_a_number() || other.not_a_number() {
            return false;
        }
        let a: u64 = self.bits % 0x8000_0000_0000_0000;
        let b: u64 = other.bits % 0x8000_0000_0000_0000;
        let a_neg: bool = self.bits >= 0x8000_0000_0000_0000;
        let b_neg: bool = other.bits >= 0x8000_0000_0000_0000;
        proof {
            if a < b {
                lemma_magnitude_order(self, other);
            }
            if b < a {
                lemma_magnitude_order(other, self);
            }
            lemma_magnitude_zero(self);
            lemma_magnitude_zero(other);
        }
        if a_neg {
            if b_neg {
                b < a
            } else {
                a > 0 || b > 0
            }
        } else {
            !b_neg && a < b
        }
    }
}

/// Doubles are compared by value: the two zeros are equal, and what is not a
/// number equals nothing.
impl PartialEq for Binary64 {
    fn eq(&self, other: &Binary64) -> (r: bool) {
        let a: u64 = self.bits % 0x8000_0000_0000_0000;
        let b: u64 = other.bits % 0x8000_0000_0000_0000;
        proof {
            if a < b {
                lemma_magnitude_order(*self, *other);
            }
            if b < a {
                lemma_magnitude_order(*other, *self);
            }
            lemma_magnitude_zero(*self);
            lemma_magnitude_zero(*other);
        }
        !self.not_a_number() && !other.not_a_number() && (self.bits == other.bits || (a == 0 && b
            == 0))
    }
}

impl PartialEqSpecImpl for Binary64 {
    open spec fn obeys_eq_spec() -> bool {
        true
    }

    open spec fn eq_spec(&self, other: &Binary64) -> bool {
        self.spec_equal(*other)
    }
}

/// Magnitudes are ordered as the bits without the sign are.
pub proof fn lemma_magnitude_order(a: Binary64, b: Binary64)
    requires
        a.abs_bits() < b.abs_bits(),
    ensures
        a.magnitude() < b.magnitude(),
{
    lemma_bits_order(a.abs_bits(), b.abs_bits());
}

/// Magnitudes are ordered as the bits are.
pub proof fn lemma_bits_order(a: nat, b: nat)
    requires
        a < b,
    ensures
        magnitude_at(a) < magnitude_at(b),
{
    let (ea, fa) = (a / 0x10_0000_0000_0000, a % 0x10_0000_0000_0000);
    let (eb, fb) = (b / 0x10_0000_0000_0000, b % 0x10_0000_0000_0000);
    if ea == eb {
        if ea > 0 {
            let p = pow2((ea - 1) as nat);
            lemma_pow2_pos((ea - 1) as nat);
            assert((0x10_0000_0000_0000 + fa) * p < (0x10_0000_0000_0000 + fb) * p)
                by (nonlinear_arith)
                requires
                    fa < fb,
                    p > 0,
            ;
        }
    } else {
        assert(ea < eb);
        let pb = pow2((eb - 1) as nat);
        lemma_pow2_pos((eb - 1) as nat);
        assert((0x10_0000_0000_0000 + fb) * pb >= 0x10_0000_0000_0000 * pb) by (nonlinear_arith)
            requires
                pb > 0,
        ;
        if ea == 0 {
            assert(0x10_0000_0000_0000 * pb >= 0x10_0000_0000_0000) by (nonlinear_arith)
                requires
                    pb > 0,
            ;
        } else {
            let pa = pow2((ea - 1) as nat);
            lemma_pow2_pos((ea - 1) as nat);
            lemma_pow2_unfold(ea);
            if ea < eb - 1 {
                lemma_pow2_strictly_increases(ea, (eb - 1) as nat);
            }
            assert((0x10_0000_0000_0000 + fa) * pa < 0x10_0000_0000_0000 * (2 * pa))
                by (nonlinear_arith)
                requires
                    fa < 0x10_0000_0000_0000,
                    pa > 0,
            ;
            assert(0x10_0000_0000_0000 * (2 * pa) <= 0x10_0000_0000_0000 * pb) by (nonlinear_arith)
                requires
                    2 * pa <= pb,
            ;
        }
    }
}

/// The magnitude is zero for zero bits alone.
pub proof fn lemma_magnitude_zero(a: Binary64)
    ensures
        a.magnitude() == 0 <==> a.abs_bits() == 0,
{
    let zero = Binary64 { bits: 0 };
    assert(zero.magnitude() == 0);
    if a.abs_bits() > 0 {
        lemma_magnitude_order(zero, a);
    }
}

/// A magnitude below 60 has an exponent far below the largest.
pub proof fn lemma_below_sixty(s: Binary64)
    requires
        s.magnitude() < 60 * one(),
    ensures
        s.exponent() < 1075,
{
    if s.exponent() >= 1075 {
        let big = Binary64 { bits: 0x4330_0000_0000_0000 };
        assert(big.exponent() == 1075 && big.fraction() == 0);
        if s.abs_bits() > big.abs_bits() {
            lemma_magnitude_order(big, s);
        }
        lemma_pow2_pos(1074);
        assert(big.magnitude() == 0x10_0000_0000_0000 * one());
        assert(s.abs_bits() == s.exponent() * 0x10_0000_0000_0000 + s.fraction());
        assert(s.magnitude() >= big.magnitude());
        assert(0x10_0000_0000_0000 * one() >= 60 * one());
    }
}

/// The whole part of a value in units, kept within the range of a `u64`;
/// nothing for a negative value or one that is not a number.
pub open spec fn spec_truncated(x: Binary64) -> nat {
    if x.is_nan() || x.negative() {
        0
    } else if x.magnitude() / one() > u64::MAX {
        u64::MAX as nat
    } else {
        x.magnitude() / one()
    }
}

/// The whole number closest to `units * scale`, ties going to the even one.
pub open spec fn spec_rounded(units: nat, scale: nat) -> nat {
    let q = units * scale / one();
    let rem = units * scale % one();
    if 2 * rem > one() || (2 * rem == one() && q % 2 == 1) {
        q + 1
    } else {
        q
    }
}

/// `2^k`.
pub fn power_of_two(k: u32) -> (r: u128)
    requires
        k < 127,
    ensures
        r == pow2(k as nat),
{
    let mut r: u128 = 1;
    let mut i: u32 = 0;
    proof {
        vstd::arithmetic::power2::lemma2_to64();
        lemma_small_powers(0);
    }
    while i < k
        invariant
            i <= k < 127,
            r == pow2(i as nat),
        decreases k - i,
    {
        proof {
            lemma_small_powers((i + 1) as nat);
            lemma_pow2_unfold((i + 1) as nat);
        }
        r = r * 2;
        i += 1;
    }
    r
}

/// Powers of two below `2^127` fit in a `u128`.
pub proof fn lemma_small_powers(k: nat)
    requires
        k < 127,
    ensures
        pow2(k) <= 0x4000_0000_0000_0000_0000_0000_0000_0000,
{
    assert(pow2(126) == 0x4000_0000_0000_0000_0000_0000_0000_0000) by {
        vstd::arithmetic::power2::lemma2_to64();
        vstd::arithmetic::power2::lemma2_to64_rest();
        lemma_pow2_adds(63, 63);
        assert(0x8000_0000_0000_0000 * 0x8000_0000_0000_0000
            == 0x4000_0000_0000_0000_0000_0000_0000_0000);
    }
    if k < 126 {
        lemma_pow2_strictly_increases(k, 126);
    }
}

/// A common factor leaves the quotient alone and scales the remainder.
pub proof fn lemma_cancel(x: nat, y: nat, k: nat)
    requires
        y > 0,
        k > 0,
    ensures
        y * k > 0,
        (x * k) / (y * k) == x / y,
        (x * k) % (y * k) == (x % y) * k,
{
    let q = x / y;
    let r = x % y;
    lemma_fundamental_div_mod(x as int, y as int);
    assert(x * k == q * (y * k) + r * k) by (nonlinear_arith)
        requires
            x == y * q + r,
    ;
    assert(0 <= r * k < y * k) by (nonlinear_arith)
        requires
            0 <= r < y,
            k > 0,
    ;
    lemma_fundamental_div_mod_converse((x * k) as int, (y * k) as int, q as int, (r * k) as int);
}

/// The significand of a double with exponent `e` and fraction `f`.
pub open spec fn significand(e: nat, f: nat) -> nat {
    if e == 0 {
        f
    } else {
        0x10_0000_0000_0000 + f
    }
}

/// How many bits of the significand stand behind the binary point.
pub open spec fn point_shift(e: nat) -> int {
    if e == 0 {
        1074
    } else {
        1075 - e
    }
}

/// Dividing a magnitude by 1 is dividing the significand by a power of two.
proof fn lemma_point(e: nat, f: nat, scale: nat)
    requires
        e < 1075,
        f < 0x10_0000_0000_0000,
    ensures
        ({
            let shift = point_shift(e) as nat;
            let x = significand(e, f) * scale;
            let k = pow2((1074 - shift) as nat);
            &&& 1 <= shift <= 1074
            &&& k > 0
            &&& pow2(shift) > 0
            &&& one() == pow2(shift) * k
            &&& magnitude_of(e, f) * scale == x * k
            &&& magnitude_of(e, f) * scale / one() == x / pow2(shift)
            &&& magnitude_of(e, f) * scale % one() == (x % pow2(shift)) * k
        }),
{
    let shift = point_shift(e) as nat;
    let m = significand(e, f);
    let x = m * scale;
    let k = pow2((1074 - shift) as nat);
    lemma_pow2_pos(shift);
    lemma_pow2_pos((1074 - shift) as nat);
    lemma_pow2_adds(shift, (1074 - shift) as nat);
    if e == 0 {
        vstd::arithmetic::power2::lemma2_to64();
        assert(k == 1);
        assert(m * k == m) by (nonlinear_arith)
            requires
                k == 1,
        ;
    } else {
        assert((1074 - shift) as nat == (e - 1) as nat);
    }
    assert(magnitude_of(e, f) == m * k);
    assert((m * k) * scale == x * k) by (nonlinear_arith)
        requires
            x == m * scale,
    ;
    lemma_cancel(x, pow2(shift), k);
}

/// `2^shift` exceeds twice any product of a significand and a decimal scale
/// once `shift` is 100 or more.
proof fn lemma_far_point(x: nat, shift: nat)
    requires
        shift >= 100,
        x < 0x100_0000_0000_0000_0000_0000,
    ensures
        x / pow2(shift) == 0,
        x % pow2(shift) == x,
        2 * x < pow2(shift),
{
    assert(pow2(100) == 0x10_0000_0000_0000_0000_0000_0000) by {
        vstd::arithmetic::power2::lemma2_to64();
        vstd::arithmetic::power2::lemma2_to64_rest();
        lemma_pow2_adds(50, 50);
        assert(0x4_0000_0000_0000 * 0x4_0000_0000_0000 == 0x10_0000_0000_0000_0000_0000_0000);
    }
    if shift > 100 {
        lemma_pow2_strictly_increases(100, shift);
    }
    lemma_fundamental_div_mod_converse(x as int, pow2(shift) as int, 0, x as int);
}

/// The whole number closest to `scale` times the double with exponent `e` and
/// fraction `f`, ties going to the even one.
pub fn rounded(e: u64, f: u64, scale: u64) -> (r: u128)
    requires
        e < 1075,
        f < 0x10_0000_0000_0000,
        scale <= 100_000_000,
    ensures
        r == spec_rounded(magnitude_of(e as nat, f as nat), scale as nat),
{
    let m: u64 = if e == 0 {
        f
    } else {
        0x10_0000_0000_0000 + f
    };
    let shift: u64 = if e == 0 {
        1074
    } else {
        1075 - e
    };
    assert(m * scale <= 0x20_0000_0000_0000 * 100_000_000) by (nonlinear_arith)
        requires
            m <= 0x20_0000_0000_0000,
            scale <= 100_000_000,
    ;
    let x: u128 = (m as u128) * (scale as u128);
    let ghost k = pow2((1074 - shift) as nat);
    let ghost d = pow2(shift as nat);
    proof {
        lemma_point(e as nat, f as nat, scale as nat);
    }
    if shift >= 100 {
        proof {
            lemma_far_point(x as nat, shift as nat);
            assert(2 * (x * k) < d * k) by (nonlinear_arith)
                requires
                    2 * x < d,
                    k > 0,
            ;
        }
        return 0;
    }
    let p: u128 = power_of_two(shift as u32);
    let q: u128 = x / p;
    let rem: u128 = x % p;
    proof {
        assert(2 * (rem * k) > d * k <==> 2 * rem > d) by (nonlinear_arith)
            requires
                k > 0,
        ;
        assert(2 * (rem * k) == d * k <==> 2 * rem == d) by (nonlinear_arith)
            requires
                k > 0,
        ;
    }
    if rem > p - rem || (rem == p - rem && q % 2 == 1) {
        q + 1
    } else {
        q
    }
}

impl Binary64 {
    /// The whole part, kept within the range of a `u64`; 0 for a negative
    /// value and for one that is not a number.
    pub fn truncated(self) -> (r: u64)
        ensures
            r == spec_truncated(self),
    {
        let abs: u64 = self.bits % 0x8000_0000_0000_0000;
        let e: u64 = abs / 0x10_0000_0000_0000;
        let f: u64 = abs % 0x10_0000_0000_0000;
        if self.not_a_number() || self.bits >= 0x8000_0000_0000_0000 {
            return 0;
        }
        if e < 1075 {
            let m: u64 = if e == 0 {
                f
            } else {
                0x10_0000_0000_0000 + f
            };
            let shift: u64 = if e == 0 {
                1074
            } else {
                1075 - e
            };
            proof {
                lemma_point(e as nat, f as nat, 1);
            }
            if shift >= 100 {
                proof {
                    lemma_far_point(m as nat, shift as nat);
                }
                return 0;
            }
            let p: u128 = power_of_two(shift as u32);
            let q: u128 = (m as u128) / p;
            proof {
                assert(q <= m) by {
                    vstd::arithmetic::div_mod::lemma_div_is_ordered_by_denominator(
                        m as int,
                        1,
                        p as int,
                    );
                }
            }
            return q as u64;
        }
        let m: u64 = 0x10_0000_0000_0000 + f;
        let ghost big = self.magnitude();
        proof {
            lemma_pow2_pos(1074);
            lemma_pow2_adds((e - 1075) as nat, 1074);
            let up = pow2((e - 1075) as nat);
            lemma_pow2_pos((e - 1075) as nat);
            assert(m * (up * one()) == (m * up) * one()) by (nonlinear_arith);
            lemma_fundamental_div_mod_converse(big as int, one() as int, (m * up) as int, 0);
            assert(big / one() == m * up);
        }
        if e >= 1087 {
            proof {
                let up = pow2((e - 1075) as nat);
                vstd::arithmetic::power2::lemma2_to64();
                if e > 1087 {
                    lemma_pow2_strictly_increases(12, (e - 1075) as nat);
                }
                assert(m * up >= 0x10_0000_0000_0000 * 4096) by (nonlinear_arith)
                    requires
                        m >= 0x10_0000_0000_0000,
                        up >= 4096,
                ;
            }
            return u64::MAX;
        }
        let p: u128 = power_of_two((e - 1075) as u32);
        proof {
            vstd::arithmetic::power2::lemma2_to64();
            if e < 1086 {
                lemma_pow2_strictly_increases((e - 1075) as nat, 11);
            }
            assert(m * p <= 0x1F_FFFF_FFFF_FFFF * 2048) by (nonlinear_arith)
                requires
                    m <= 0x1F_FFFF_FFFF_FFFF,
                    p <= 2048,
            ;
        }
        ((m as u128) * p) as u64
    }
}

/// `n` parts of `1/scale` in decimal, with `width` digits behind the point.
pub open spec fn fixed_text(n: nat, scale: nat, width: nat) -> Seq<char> {
    text::digits(n / scale) + "."@ + text::padded_digits(n % scale, width)
}

/// `n` parts of `1/scale` in decimal, with `width` digits behind the point.
pub fn fixed(n: u128, scale: u64, width: usize) -> (r: String)
    requires
        scale > 0,
    ensures
        r@ == fixed_text(n as nat, scale as nat, width as nat),
{
    let mut out = text::decimal(n / (scale as u128));
    out.append(".");
    out.append(text::padded(n % (scale as u128), width).as_str());
    out
}

/// Rounding to a whole number gives the closest one: it is off by half at most,
/// and by exactly half only where it is even.
pub proof fn law_rounded_is_closest(units: nat, scale: nat)
    ensures
        ({
            let r = spec_rounded(units, scale);
            let error = r * one() - units * scale;
            &&& -(one() as int) <= 2 * error <= one()
            &&& (2 * error == one() || 2 * error == -(one() as int)) ==> r % 2 == 0
        }),
{
    lemma_pow2_pos(1074);
    let x = units * scale;
    let q = x / one();
    lemma_fundamental_div_mod(x as int, one() as int);
    vstd::arithmetic::div_mod::lemma_mod_bound(x as int, one() as int);
    assert(q * one() == one() * q) by (nonlinear_arith);
    assert((q + 1) * one() == one() * q + one()) by (nonlinear_arith);
}

/// Truncation leaves the whole part: at most the value, and more than the
/// value less one, within the range of a `u64`.
pub proof fn law_truncated_is_the_whole_part(x: Binary64)
    requires
        !x.is_nan(),
        !x.negative(),
    ensures
        ({
            let t = spec_truncated(x);
            &&& t <= u64::MAX
            &&& t * one() <= x.value()
            &&& t < u64::MAX ==> x.value() < (t + 1) * one()
        }),
{
    lemma_pow2_pos(1074);
    let m = x.magnitude();
    let q = m / one();
    let t = spec_truncated(x);
    lemma_fundamental_div_mod(m as int, one() as int);
    vstd::arithmetic::div_mod::lemma_mod_bound(m as int, one() as int);
    assert(q * one() == one() * q) by (nonlinear_arith);
    assert((q + 1) * one() == one() * q + one()) by (nonlinear_arith);
    assert(t * one() <= q * one()) by (nonlinear_arith)
        requires
            t <= q,
    ;
}

/// Numbers are ordered by value: of two of them exactly one of less, equal and
/// greater holds. Nothing compares with what is not a number.
pub proof fn law_numbers_are_ordered(a: Binary64, b: Binary64)
    ensures
        !a.is_nan() && !b.is_nan() ==> {
            &&& a.spec_less(b) || b.spec_less(a) || a.spec_equal(b)
            &&& !(a.spec_less(b) && b.spec_less(a))
            &&& a.spec_equal(b) ==> !a.spec_less(b) && !b.spec_less(a)
            &&& a.spec_positive() <==> (Binary64 { bits: 0 }).spec_less(a)
        },
        a.is_nan() || b.is_nan() ==> !a.spec_less(b) && !a.spec_equal(b),
        a.is_nan() ==> !a.spec_positive(),
{
    lemma_magnitude_zero(Binary64 { bits: 0 });
}

/// A number with decimals reads back: the last `width` characters are the
/// decimals, a point stands before them, and the rest is the whole part.
pub proof fn law_fixed_text_reads_back(n: nat, width: nat)
    requires
        width > 0,
    ensures
        text::reads_as(fixed_text(n, text::tens(width), width), width, n),
{
    let scale = text::tens(width);
    lemma_tens_pos(width);
    let (a, b) = (n / scale, n % scale);
    reveal_strlit(".");
    text::law_decimal_reads_back(a);
    text::law_decimal_reads_back(b);
    text::law_padded_reads_back(b, width);
    vstd::arithmetic::div_mod::lemma_mod_bound(n as int, scale as int);
    text::law_decimal_is_short(b, width);
    lemma_fundamental_div_mod(n as int, scale as int);
    let t = fixed_text(n, scale, width);
    let point = t.len() - width - 1;
    assert(point == text::digits(a).len());
    assert(t.take(point) =~= text::digits(a));
    assert(t.skip(point + 1) =~= text::padded_digits(b, width));
    assert(a * scale == scale * a) by (nonlinear_arith);
}

/// Powers of ten are positive.
pub proof fn lemma_tens_pos(w: nat)
    ensures
        text::tens(w) > 0,
    decreases w,
{
    if w > 0 {
        lemma_tens_pos((w - 1) as nat);
    }
}

/// Numbers are compared by their values. What is negative or not a number has
/// no whole part.
pub proof fn law_compared_by_value(a: Binary64, b: Binary64)
    requires
        !a.is_nan(),
        !b.is_nan(),
    ensures
        a.spec_less(b) <==> a.value() < b.value(),
        a.spec_equal(b) <==> a.value() == b.value(),
        a.spec_positive() <==> a.value() > 0,
        a.negative() ==> a.value() <= 0 && spec_truncated(a) == 0,
        !a.negative() ==> a.value() >= 0,
{
}

} // verus!
