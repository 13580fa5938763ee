//! Natural numbers of any size as little-endian base-2^32 digit vectors,
//! with arithmetic delegated to `num_bigint::BigUint`.
use vstd::prelude::*;

verus! {

/// The base of one digit.
pub open spec fn base() -> int {
    0x1_0000_0000int
}

/// The value of a little-endian digit sequence.
pub open spec fn nat_of(d: Seq<u32>) -> nat
    decreases d.len(),
{
    if d.len() == 0 {
        0
    } else {
        (d[0] as nat + base() * nat_of(d.subrange(1, d.len() as int))) as nat
    }
}

pub proof fn lemma_nat_of_small(a: u32, b: u32)
    ensures
        nat_of(seq![a]) == a as nat,
        nat_of(seq![a, b]) == a as nat + base() * (b as nat),
        nat_of(Seq::<u32>::empty()) == 0,
{
    reveal_with_fuel(nat_of, 3);
    assert(seq![a].subrange(1, 1) =~= Seq::<u32>::empty());
    assert(seq![a, b].subrange(1, 2) =~= seq![b]);
}

/// Relies on `BigUint::new`, `to_u32_digits` and `Mul` of num-bigint: the product.
#[verifier::external_body]
pub(crate) fn big_mul(a: &Vec<u32>, b: &Vec<u32>) -> (r: Vec<u32>)
    ensures
        nat_of(r@) == nat_of(a@) * nat_of(b@),
{
    (num_bigint::BigUint::new(a.clone()) * num_bigint::BigUint::new(b.clone())).to_u32_digits()
}

/// Relies on `Add` of num-bigint: the sum.
#[verifier::external_body]
pub(crate) fn big_add(a: &Vec<u32>, b: &Vec<u32>) -> (r: Vec<u32>)
    ensures
        nat_of(r@) == nat_of(a@) + nat_of(b@),
{
    (num_bigint::BigUint::new(a.clone()) + num_bigint::BigUint::new(b.clone())).to_u32_digits()
}

/// Relies on `Rem` of num-bigint, which panics on a zero divisor: the remainder.
#[verifier::external_body]
pub(crate) fn big_rem(a: &Vec<u32>, b: &Vec<u32>) -> (r: Vec<u32>)
    requires
        nat_of(b@) != 0,
    ensures
        nat_of(r@) == nat_of(a@) % nat_of(b@),
{
    (num_bigint::BigUint::new(a.clone()) % num_bigint::BigUint::new(b.clone())).to_u32_digits()
}

/// Relies on `Div` of num-bigint, which panics on a zero divisor: the quotient.
#[verifier::external_body]
pub(crate) fn big_div(a: &Vec<u32>, b: &Vec<u32>) -> (r: Vec<u32>)
    requires
        nat_of(b@) != 0,
    ensures
        nat_of(r@) == nat_of(a@) / nat_of(b@),
{
    (num_bigint::BigUint::new(a.clone()) / num_bigint::BigUint::new(b.clone())).to_u32_digits()
}

/// Relies on `PartialOrd` of num-bigint: compares the two values.
#[verifier::external_body]
pub(crate) fn big_le(a: &Vec<u32>, b: &Vec<u32>) -> (r: bool)
    ensures
        r == (nat_of(a@) <= nat_of(b@)),
{
    num_bigint::BigUint::new(a.clone()) <= num_bigint::BigUint::new(b.clone())
}

/// A signed integer of any size: a sign and the digits of its magnitude.
pub struct Integer {
    pub negative: bool,
    pub magnitude: Vec<u32>,
}

impl Integer {
    /// The value this integer stands for.
    pub open spec fn value(&self) -> int {
        if self.negative {
            -(nat_of(self.magnitude@) as int)
        } else {
            nat_of(self.magnitude@) as int
        }
    }

    /// An integer from its sign and little-endian base-2^32 digits.
    pub fn new(negative: bool, magnitude: Vec<u32>) -> (r: Integer)
        ensures
            r.value() == (if negative { -(nat_of(magnitude@) as int) } else { nat_of(magnitude@) as int }),
    {
        Integer { negative, magnitude }
    }

    /// The integer equal to a machine integer.
    pub fn from_i64(v: i64) -> (r: Integer)
        ensures
            r.value() == v as int,
    {
        let abs: u64 = if v < 0 { ((-(v + 1)) as u64) + 1 } else { v as u64 };
        let lo: u32 = (abs % 0x1_0000_0000u64) as u32;
        let hi: u32 = (abs / 0x1_0000_0000u64) as u32;
        proof {
            lemma_nat_of_small(lo, hi);
        }
        Integer { negative: v < 0, magnitude: vec![lo, hi] }
    }
}

} // verus!
