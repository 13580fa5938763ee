//! Decimal numbers as an unscaled integer and a power-of-ten scale, and the
//! primality answer for a decimal.
use vstd::prelude::*;
use vstd::arithmetic::div_mod::{
    lemma_fundamental_div_mod,
    lemma_fundamental_div_mod_converse,
    lemma_mod_multiples_basic,
};
use crate::bignum::{Integer, nat_of, big_div, big_le, big_rem, lemma_nat_of_small};
use crate::prime::{is_prime, is_prime_int};

verus! {

pub open spec fn pow10(k: nat) -> nat
    decreases k,
{
    if k == 0 {
        1
    } else {
        10 * pow10((k - 1) as nat)
    }
}

proof fn lemma_pow10_positive(k: nat)
    ensures
        pow10(k) >= 1,
    decreases k,
{
    if k > 0 {
        lemma_pow10_positive((k - 1) as nat);
    }
}

/// The number `unscaled * 10^(-scale)`: `scale` counts the digits after the point.
pub struct Decimal {
    pub unscaled: Integer,
    pub scale: i64,
}

/// Whether `unscaled * 10^(-scale)` has no fractional part.
pub open spec fn whole_at(unscaled: int, scale: int) -> bool {
    scale <= 0 || unscaled % (pow10(scale as nat) as int) == 0
}

/// The integer part of `unscaled * 10^(-scale)` (the number itself when it is whole).
pub open spec fn int_part_at(unscaled: int, scale: int) -> int {
    if scale <= 0 {
        unscaled * pow10((-scale) as nat)
    } else {
        unscaled / (pow10(scale as nat) as int)
    }
}

/// Whether `unscaled * 10^(-scale)` is a prime integer.
pub open spec fn prime_at(unscaled: int, scale: int) -> bool {
    whole_at(unscaled, scale) && is_prime_int(int_part_at(unscaled, scale))
}

/// What `BigDecimal::from_str` makes of a text: the unscaled integer and the
/// scale, or nothing where the text is no decimal number.
pub uninterp spec fn parsed_decimal(text: Seq<char>) -> Option<(int, int)>;

impl Decimal {
    /// Whether the number has no fractional part.
    pub open spec fn is_whole(&self) -> bool {
        whole_at(self.unscaled.value(), self.scale as int)
    }

    /// The integer part of the number (exact when it is whole).
    pub open spec fn int_value(&self) -> int {
        int_part_at(self.unscaled.value(), self.scale as int)
    }

    /// The unscaled integer and the scale, as plain integers.
    pub open spec fn model(&self) -> (int, int) {
        (self.unscaled.value(), self.scale as int)
    }
}

/// Relies on `BigDecimal::from_str` of bigdecimal to parse a decimal number,
/// taken apart by `into_bigint_and_scale`, `BigInt::into_parts` and
/// `BigUint::to_u32_digits`.
#[verifier::external_body]
pub(crate) fn parse_decimal(text: &str) -> (r: Option<Decimal>)
    ensures
        (r is Some) == (parsed_decimal(text@) is Some),
        r matches Some(d) ==> parsed_decimal(text@) == Some(d.model()),
{
    let (n, scale) = text.parse::<bigdecimal::BigDecimal>().ok()?.into_bigint_and_scale();
    let (sign, magnitude) = n.into_parts();
    let negative = sign == num_bigint::Sign::Minus;
    Some(Decimal { unscaled: Integer { negative, magnitude: magnitude.to_u32_digits() }, scale })
}

/// Dropping a trailing zero digit from `m` and one digit of scale keeps
/// both wholeness and the integer part.
proof fn lemma_drop_trailing_zero(m: int, q: int, k: nat)
    requires
        m == 10 * q,
        k >= 1,
    ensures
        (m % (pow10(k) as int) == 0) == (q % (pow10((k - 1) as nat) as int) == 0),
        m / (pow10(k) as int) == q / (pow10((k - 1) as nat) as int),
{
    let p = pow10((k - 1) as nat) as int;
    lemma_pow10_positive((k - 1) as nat);
    lemma_fundamental_div_mod(q, p);
    let a = q / p;
    let b = q % p;
    assert(m == a * (10 * p) + 10 * b) by (nonlinear_arith)
        requires
            m == 10 * q,
            q == p * a + b,
    ;
    lemma_fundamental_div_mod_converse(m, 10 * p, a, 10 * b);
}

/// A whole number at a positive scale has zero as its last digit.
proof fn lemma_whole_ends_in_zero(m: int, k: nat)
    requires
        k >= 1,
        m % (pow10(k) as int) == 0,
    ensures
        m % 10 == 0,
{
    let p = pow10((k - 1) as nat) as int;
    lemma_pow10_positive(k);
    lemma_fundamental_div_mod(m, pow10(k) as int);
    let t = m / (pow10(k) as int);
    assert(m == (t * p) * 10) by (nonlinear_arith)
        requires
            m == (10 * p) * t + 0,
    ;
    lemma_mod_multiples_basic(t * p, 10);
}

/// Answers whether a decimal number is a prime integer: a number with a
/// fractional part never is.
pub fn is_prime_decimal(d: Decimal) -> (r: bool)
    ensures
        r == (d.is_whole() && is_prime_int(d.int_value())),
{
    let ghost m0 = d.unscaled.value();
    let ghost s0 = d.scale;
    proof {
        if s0 <= 0 {
            lemma_pow10_positive((-s0) as nat);
        } else {
            lemma_pow10_positive(s0 as nat);
        }
    }
    if d.unscaled.negative {
        proof {
            if s0 <= 0 {
                let p = pow10((-s0) as nat) as int;
                assert(m0 * p <= 0) by (nonlinear_arith)
                    requires
                        m0 <= 0,
                        p >= 1,
                ;
            } else {
                let p = pow10(s0 as nat) as int;
                lemma_fundamental_div_mod(m0, p);
                let q = m0 / p;
                assert(q <= 0) by (nonlinear_arith)
                    requires
                        m0 <= 0,
                        p >= 1,
                        m0 == p * q + m0 % p,
                        0 <= m0 % p < p,
                ;
            }
        }
        return false;
    }
    if d.scale == 0 {
        return is_prime(d.unscaled);
    }
    if d.scale < 0 {
        proof {
            let j = (-s0) as nat;
            let v = d.int_value();
            lemma_pow10_positive((j - 1) as nat);
            assert(v == 2 * (m0 * 5 * pow10((j - 1) as nat))) by (nonlinear_arith)
                requires
                    v == m0 * pow10(j),
                    pow10(j) == 10 * pow10((j - 1) as nat),
            ;
            lemma_mod_multiples_basic(m0 * 5 * pow10((j - 1) as nat), 2);
            if v > 2 {
                assert(v % 2 == 0);
            } else {
                assert(m0 == 0) by (nonlinear_arith)
                    requires
                        v == m0 * pow10(j),
                        v <= 2,
                        m0 >= 0,
                        pow10(j) == 10 * pow10((j - 1) as nat),
                        pow10((j - 1) as nat) >= 1,
                ;
            }
        }
        return false;
    }
    let ten: Vec<u32> = vec![10u32];
    let zero: Vec<u32> = Vec::new();
    proof {
        lemma_nat_of_small(10, 0);
        assert(ten@ =~= seq![10u32]);
        assert(zero@ =~= Seq::<u32>::empty());
    }
    let mut mag: Vec<u32> = d.unscaled.magnitude;
    let mut k: i64 = d.scale;
    let mut more = big_le(&big_rem(&mag, &ten), &zero);
    while k > 0 && more
        invariant
            0 <= k <= s0,
            s0 > 0,
            m0 >= 0,
            nat_of(ten@) == 10,
            nat_of(zero@) == 0,
            more == (nat_of(mag@) % 10 == 0),
            (m0 % (pow10(s0 as nat) as int) == 0) == ((nat_of(mag@) as int) % (pow10(k as nat) as int) == 0),
            m0 / (pow10(s0 as nat) as int) == (nat_of(mag@) as int) / (pow10(k as nat) as int),
        decreases k,
    {
        let ghost before = nat_of(mag@) as int;
        mag = big_div(&mag, &ten);
        proof {
            lemma_fundamental_div_mod(before, 10);
            lemma_drop_trailing_zero(before, nat_of(mag@) as int, k as nat);
        }
        k = k - 1;
        more = big_le(&big_rem(&mag, &ten), &zero);
    }
    if k > 0 {
        proof {
            if m0 % (pow10(s0 as nat) as int) == 0 {
                lemma_whole_ends_in_zero(nat_of(mag@) as int, k as nat);
            }
        }
        return false;
    }
    proof {
        let n = nat_of(mag@) as int;
        assert(pow10(0) == 1);
        assert(n % 1 == 0 && n / 1 == n);
    }
    is_prime(Integer { negative: false, magnitude: mag })
}

} // verus!
