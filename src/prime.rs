//! The primality predicate over integers of any size.
use vstd::prelude::*;
use vstd::arithmetic::div_mod::{lemma_fundamental_div_mod, lemma_mod_multiples_basic};
use crate::bignum::{Integer, nat_of, big_add, big_le, big_mul, big_rem, lemma_nat_of_small};

verus! {

/// `n` is prime: greater than one, with no divisor strictly between one and itself.
pub open spec fn is_prime_int(n: int) -> bool {
    n > 1 && forall|d: int| 1 < d < n ==> #[trigger] (n % d) != 0
}

/// Once every candidate below `i` has been ruled out and `i * i` exceeds `m`,
/// `m` is prime: a divisor at or above `i` would pair with one below it.
proof fn lemma_no_divisor_past_root(m: int, i: int)
    requires
        m > 1,
        i >= 2,
        i * i > m,
        forall|d: int| 1 < d < i ==> #[trigger] (m % d) != 0,
    ensures
        is_prime_int(m),
{
    assert forall|d: int| 1 < d < m implies #[trigger] (m % d) != 0 by {
        if d >= i && m % d == 0 {
            let q = m / d;
            lemma_fundamental_div_mod(m, d);
            assert(m == d * q);
            assert(q >= 2) by (nonlinear_arith)
                requires
                    m == d * q,
                    1 < d < m,
            ;
            assert(q < i) by (nonlinear_arith)
                requires
                    m == d * q,
                    d >= i,
                    i * i > m,
                    q >= 2,
                    i >= 2,
            ;
            lemma_mod_multiples_basic(d, q);
            assert(m % q == 0);
        }
    }
}

/// Decides primality by trial division: candidates from two upward while
/// their square does not exceed `n`.
pub fn is_prime(n: Integer) -> (r: bool)
    ensures
        r == is_prime_int(n.value()),
        n.value() <= 1 ==> !r,
{
    let one: Vec<u32> = vec![1u32];
    let zero: Vec<u32> = Vec::new();
    proof {
        lemma_nat_of_small(1, 0);
        lemma_nat_of_small(2, 0);
        assert(one@ =~= seq![1u32]);
        assert(zero@ =~= Seq::<u32>::empty());
    }
    if n.negative || big_le(&n.magnitude, &one) {
        return false;
    }
    let ghost m = nat_of(n.magnitude@) as int;
    let mut i: Vec<u32> = vec![2u32];
    assert(i@ =~= seq![2u32]);
    let mut sq = big_mul(&i, &i);
    let mut more = big_le(&sq, &n.magnitude);
    while more
        invariant
            m == n.value(),
            m == nat_of(n.magnitude@),
            m > 1,
            nat_of(one@) == 1,
            nat_of(zero@) == 0,
            2 <= nat_of(i@),
            nat_of(sq@) == nat_of(i@) * nat_of(i@),
            more == (nat_of(sq@) <= m),
            forall|d: int| 1 < d < nat_of(i@) ==> #[trigger] (m % d) != 0,
        decreases m - nat_of(i@),
    {
        let ghost k = nat_of(i@) as int;
        assert(k < m) by (nonlinear_arith)
            requires
                k * k <= m,
                k >= 2,
        ;
        let rest = big_rem(&n.magnitude, &i);
        if big_le(&rest, &zero) {
            assert(m % k == 0);
            return false;
        }
        i = big_add(&i, &one);
        sq = big_mul(&i, &i);
        more = big_le(&sq, &n.magnitude);
    }
    proof {
        lemma_no_divisor_past_root(m, nat_of(i@) as int);
    }
    true
}

} // verus!
