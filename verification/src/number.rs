//! The numbers of the language: IEEE 754 binary64, held as their 64 bits.
//!
//! What is computed here is exact: the order of two numbers, the floor of
//! a number, and the number that an integer is. The four operations that
//! round are the host's.

use vstd::prelude::*;
use vstd::arithmetic::div_mod::{
    lemma_basic_div,
    lemma_div_multiples_vanish,
    lemma_mod_multiples_basic,
    lemma_small_mod,
};
use vstd::arithmetic::mul::lemma_mul_inequality;
use vstd::arithmetic::power2::{
    lemma2_to64,
    lemma2_to64_rest,
    lemma_pow2_pos,
    lemma_pow2_strictly_increases,
    lemma_pow2_unfold,
    pow2,
};

verus! {

/// Two to the 52nd: one more than the largest fraction field.
pub const FRACTION_LIMIT: u64 = 0x10_0000_0000_0000;

/// Two to the 53rd: up to here every integer is a number.
pub const EXACT_LIMIT: u64 = 0x20_0000_0000_0000;

/// Two to the 63rd: the sign bit.
pub const SIGN_BIT: u64 = 0x8000_0000_0000_0000;

/// A binary64 number. `bits` is the word that `to_bits` gives for it: the
/// sign, eleven bits of exponent, fifty-two bits of fraction.
#[derive(Clone, Copy, Debug)]
pub struct Number {
    pub bits: u64,
}

impl Number {
    pub open spec fn is_negative(self) -> bool {
        self.bits >= SIGN_BIT
    }

    pub open spec fn exponent_field(self) -> nat {
        ((self.bits / FRACTION_LIMIT) % 2048) as nat
    }

    pub open spec fn fraction(self) -> nat {
        (self.bits % FRACTION_LIMIT) as nat
    }

    pub open spec fn is_nan(self) -> bool {
        self.exponent_field() == 2047 && self.fraction() != 0
    }

    pub open spec fn is_infinite(self) -> bool {
        self.exponent_field() == 2047 && self.fraction() == 0
    }

    pub open spec fn is_finite(self) -> bool {
        self.exponent_field() < 2047
    }

    /// The magnitude of a finite number is `significand()` times two to
    /// the power `scale()`.
    pub open spec fn significand(self) -> nat {
        if self.exponent_field() == 0 {
            self.fraction()
        } else {
            FRACTION_LIMIT as nat + self.fraction()
        }
    }

    pub open spec fn scale(self) -> int {
        if self.exponent_field() == 0 {
            -1074
        } else {
            self.exponent_field() - 1075
        }
    }

    /// The largest integer that is at most the magnitude of a finite
    /// number.
    pub open spec fn magnitude_floor(self) -> nat {
        if self.scale() >= 0 {
            self.significand() * pow2(self.scale() as nat)
        } else {
            self.significand() / pow2((-self.scale()) as nat)
        }
    }

    /// Whether a finite number is an integer.
    pub open spec fn is_integral(self) -> bool {
        self.scale() >= 0 || self.significand() % pow2((-self.scale()) as nat) == 0
    }

    /// The largest integer that is at most a finite number.
    pub open spec fn floor(self) -> int {
        if !self.is_negative() {
            self.magnitude_floor() as int
        } else if self.is_integral() {
            -(self.magnitude_floor() as int)
        } else {
            -(self.magnitude_floor() as int) - 1
        }
    }

    /// The floor as a count: nothing for what is not a number or lies
    /// below zero, the largest count for what lies above every count.
    pub open spec fn floor_count(self) -> nat {
        if self.is_nan() || self.is_negative() {
            0
        } else if self.is_infinite() || self.magnitude_floor() > u64::MAX {
            u64::MAX as nat
        } else {
            self.magnitude_floor()
        }
    }

    /// Where a number stands among the others: numbers that are not NaN
    /// are ordered as their keys are. Both zeros have the key 0.
    pub open spec fn order_key(self) -> int {
        if self.is_negative() {
            -((self.bits - SIGN_BIT) as int)
        } else {
            self.bits as int
        }
    }

    /// `self < other`, as IEEE 754 has it.
    pub open spec fn spec_lt(self, other: Number) -> bool {
        !self.is_nan() && !other.is_nan() && self.order_key() < other.order_key()
    }

    /// `self == other`, as IEEE 754 has it: NaN equals nothing, and the
    /// two zeros are equal.
    pub open spec fn spec_eq(self, other: Number) -> bool {
        !self.is_nan() && !other.is_nan() && self.order_key() == other.order_key()
    }

    pub fn from_bits(bits: u64) -> (n: Self)
        ensures
            n.bits == bits,
    {
        Number { bits }
    }

    pub fn to_bits(self) -> (bits: u64)
        ensures
            bits == self.bits,
    {
        self.bits
    }

    pub fn is_nan_value(self) -> (r: bool)
        ensures
            r == self.is_nan(),
    {
        (self.bits / FRACTION_LIMIT) % 2048 == 2047 && self.bits % FRACTION_LIMIT != 0
    }

    fn key(self) -> (k: i64)
        ensures
            k == self.order_key(),
    {
        if self.bits >= SIGN_BIT {
            let magnitude: u64 = self.bits - SIGN_BIT;
            -(magnitude as i64)
        } else {
            self.bits as i64
        }
    }

    /// Whether `self` is less than `other`.
    pub fn lt(self, other: Number) -> (r: bool)
        ensures
            r == self.spec_lt(other),
    {
        !self.is_nan_value() && !other.is_nan_value() && self.key() < other.key()
    }

    /// Whether `self` equals `other` as a number.
    pub fn eq_value(self, other: Number) -> (r: bool)
        ensures
            r == self.spec_eq(other),
    {
        !self.is_nan_value() && !other.is_nan_value() && self.key() == other.key()
    }

    /// The same number without its sign.
    pub open spec fn magnitude(self) -> Number {
        if self.bits >= SIGN_BIT {
            Number { bits: (self.bits - SIGN_BIT) as u64 }
        } else {
            self
        }
    }

    /// Whether the number is the integer `i`. Zero is the zero without a
    /// sign.
    pub open spec fn is_integer(self, i: int) -> bool {
        self.is_finite() && self.is_integral() && self.floor() == i && (i == 0 ==> self.bits == 0)
    }

    /// The same number without its sign.
    pub fn abs(self) -> (r: Number)
        ensures
            r == self.magnitude(),
            !r.is_negative(),
            r.exponent_field() == self.exponent_field(),
            r.fraction() == self.fraction(),
    {
        if self.bits >= SIGN_BIT {
            Number { bits: self.bits - SIGN_BIT }
        } else {
            self
        }
    }

    /// The floor of the magnitude of a finite number, whether the number is
    /// an integer, and whether that floor is too large for the word; then
    /// the word holds its largest value.
    fn magnitude_parts(self) -> (r: (u64, bool, bool))
        requires
            self.is_finite(),
        ensures
            r.1 == self.is_integral(),
            r.2 == (self.magnitude_floor() > u64::MAX),
            !r.2 ==> r.0 == self.magnitude_floor(),
            r.2 ==> r.0 == u64::MAX,
    {
        let e: u64 = (self.bits / FRACTION_LIMIT) % 2048;
        let f: u64 = self.bits % FRACTION_LIMIT;
        let sig: u64 = if e == 0 {
            f
        } else {
            FRACTION_LIMIT + f
        };
        if e >= 1075 {
            let s: u64 = e - 1075;
            if s <= 11 {
                let p = pow2_u64(s);
                proof {
                    lemma2_to64();
                    if s < 11 {
                        lemma_pow2_strictly_increases(s as nat, 11);
                    }
                    assert(p <= 2048);
                    lemma_mul_inequality(p as int, 2048, sig as int);
                    assert(sig * p <= sig * 2048) by (nonlinear_arith)
                        requires
                            p <= 2048,
                            sig >= 0,
                    ;
                }
                (sig * p, true, false)
            } else {
                proof {
                    lemma2_to64();
                    if s > 12 {
                        lemma_pow2_strictly_increases(12, s as nat);
                    }
                    let p = pow2(s as nat);
                    assert(p >= 4096);
                    assert(sig * p >= FRACTION_LIMIT * 4096) by (nonlinear_arith)
                        requires
                            p >= 4096,
                            sig >= FRACTION_LIMIT,
                    ;
                }
                (u64::MAX, true, true)
            }
        } else {
            let k: u64 = if e == 0 {
                1074
            } else {
                1075 - e
            };
            if k >= 53 {
                proof {
                    lemma2_to64_rest();
                    if k > 53 {
                        lemma_pow2_strictly_increases(53, k as nat);
                    }
                    let d = pow2(k as nat);
                    assert(sig < d);
                    lemma_basic_div(sig as int, d as int);
                    lemma_small_mod(sig as nat, d);
                }
                (0, sig == 0, false)
            } else {
                let d = pow2_u64(k);
                proof {
                    lemma_pow2_pos(k as nat);
                }
                (sig / d, sig % d == 0, false)
            }
        }
    }

    /// The floor as a count.
    pub fn floor_clamped(self) -> (r: u64)
        ensures
            r == self.floor_count(),
    {
        let e: u64 = (self.bits / FRACTION_LIMIT) % 2048;
        if self.bits >= SIGN_BIT {
            0
        } else if e == 2047 {
            if self.bits % FRACTION_LIMIT != 0 {
                0
            } else {
                u64::MAX
            }
        } else {
            let parts = self.magnitude_parts();
            parts.0
        }
    }

    /// The floor of the number as an integer, where the number is finite
    /// and its floor lies within the integers that are numbers.
    pub fn floor_to_int(self) -> (r: Option<i64>)
        ensures
            r is Some <==> self.is_finite() && -(EXACT_LIMIT as int) <= self.floor()
                <= EXACT_LIMIT as int,
            r matches Some(i) ==> i == self.floor(),
    {
        let e: u64 = (self.bits / FRACTION_LIMIT) % 2048;
        if e == 2047 {
            return None;
        }
        let parts = self.magnitude_parts();
        if parts.2 || parts.0 > EXACT_LIMIT {
            return None;
        }
        let magnitude: i64 = parts.0 as i64;
        if self.bits < SIGN_BIT {
            Some(magnitude)
        } else if parts.1 {
            Some(-magnitude)
        } else if magnitude < EXACT_LIMIT as i64 {
            Some(-magnitude - 1)
        } else {
            None
        }
    }

    /// The number that the integer `i` is, where it is one: the integers up
    /// to two to the 53rd, and their negatives.
    pub fn from_int(i: i64) -> (r: Option<Number>)
        ensures
            r is Some <==> -(EXACT_LIMIT as int) <= i <= EXACT_LIMIT as int,
            r matches Some(n) ==> n.is_integer(i as int),
    {
        if i < -(EXACT_LIMIT as i64) || i > EXACT_LIMIT as i64 {
            return None;
        }
        if i == 0 {
            let zero = Number { bits: 0 };
            proof {
                lemma_pow2_pos(1074);
                lemma_basic_div(0, pow2(1074) as int);
                lemma_small_mod(0, pow2(1074));
            }
            return Some(zero);
        }
        let negative = i < 0;
        let n: u64 = if negative {
            (-i) as u64
        } else {
            i as u64
        };
        let mut sig: u64 = n;
        let mut shift: u64 = 0;
        let field: u64;
        if n == EXACT_LIMIT {
            sig = FRACTION_LIMIT;
            field = 1076;
        } else {
            proof {
                lemma2_to64();
            }
            while sig < FRACTION_LIMIT
                invariant
                    1 <= n < EXACT_LIMIT,
                    sig == n * pow2(shift as nat),
                    1 <= sig < EXACT_LIMIT,
                    shift <= 52,
                decreases 53 - shift,
            {
                proof {
                    lemma_pow2_unfold((shift + 1) as nat);
                    lemma2_to64_rest();
                    if shift >= 52 {
                        assert(n * pow2(52) >= pow2(52)) by (nonlinear_arith)
                            requires
                                n >= 1,
                        ;
                    }
                    assert(n * (2 * pow2(shift as nat)) == 2 * (n * pow2(shift as nat)))
                        by (nonlinear_arith);
                }
                sig = sig * 2;
                shift = shift + 1;
            }
            field = 1075 - shift;
        }
        let sign: u64 = if negative {
            SIGN_BIT
        } else {
            0
        };
        let bits: u64 = sign + field * FRACTION_LIMIT + (sig - FRACTION_LIMIT);
        let r = Number { bits };
        proof {
            let frac = (sig - FRACTION_LIMIT) as int;
            assert(0 <= frac < FRACTION_LIMIT);
            assert(1023 <= field <= 1076);
            assert(bits % FRACTION_LIMIT == frac);
            assert((bits / FRACTION_LIMIT) % 2048 == field);
            assert(r.exponent_field() == field);
            assert(r.fraction() == frac);
            assert(r.significand() == sig);
            assert(r.is_negative() == negative);
            if n == EXACT_LIMIT {
                lemma2_to64();
                assert(r.scale() == 1);
                assert(r.magnitude_floor() == n);
            } else {
                assert(r.scale() == -(shift as int));
                let d = pow2(shift as nat);
                lemma_pow2_pos(shift as nat);
                if shift == 0 {
                    lemma2_to64();
                    assert(r.magnitude_floor() == n);
                } else {
                    assert(n * d == d * n) by (nonlinear_arith);
                    lemma_div_multiples_vanish(n as int, d as int);
                    lemma_mod_multiples_basic(n as int, d as int);
                    assert(r.magnitude_floor() == n);
                    assert(r.is_integral());
                }
            }
        }
        Some(r)
    }
}

/// Two to the power `k`.
fn pow2_u64(k: u64) -> (r: u64)
    requires
        k <= 63,
    ensures
        r == pow2(k as nat),
{
    let mut r: u64 = 1;
    let mut i: u64 = 0;
    proof {
        lemma2_to64();
    }
    while i < k
        invariant
            i <= k <= 63,
            r == pow2(i as nat),
        decreases k - i,
    {
        proof {
            lemma_pow2_unfold((i + 1) as nat);
            lemma2_to64_rest();
            if i + 1 < 63 {
                lemma_pow2_strictly_increases((i + 1) as nat, 63);
            }
        }
        r = r * 2;
        i = i + 1;
    }
    r
}

} // verus!
