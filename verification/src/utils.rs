use vstd::prelude::*;
use vstd::arithmetic::div_mod::lemma_div_by_multiple;

verus! {

/// The number of `k`-element subsets of an `n`-element set, by Pascal's rule.
pub open spec fn binomial(n: nat, k: nat) -> nat
    decreases n,
{
    if k == 0 {
        1
    } else if k > n {
        0
    } else {
        binomial((n - 1) as nat, (k - 1) as nat) + binomial((n - 1) as nat, k)
    }
}

/// The product `n * (n - 1) * ... * (n - k + 1)`.
pub open spec fn falling_product(n: int, k: nat) -> int
    decreases k,
{
    if k == 0 {
        1
    } else {
        falling_product(n, (k - 1) as nat) * (n - (k - 1))
    }
}

/// The product `1 * 2 * ... * k`.
pub open spec fn factorial(k: nat) -> nat
    decreases k,
{
    if k == 0 {
        1
    } else {
        factorial((k - 1) as nat) * k
    }
}

/// Taking every element is the one way to take them all.
pub proof fn lemma_binomial_full(n: nat)
    ensures
        binomial(n, n) == 1,
    decreases n,
{
    if n > 0 {
        lemma_binomial_full((n - 1) as nat);
        assert(binomial((n - 1) as nat, n) == 0);
    }
}

/// A set and its complement have as many `k`-subsets as `n - k`-subsets:
/// choosing which elements to take is choosing which to leave.
pub proof fn lemma_binomial_symmetry(n: nat, k: nat)
    requires
        k <= n,
    ensures
        binomial(n, k) == binomial(n, (n - k) as nat),
    decreases n,
{
    if k == 0 || k == n {
        lemma_binomial_full(n);
    } else {
        lemma_binomial_symmetry((n - 1) as nat, (k - 1) as nat);
        lemma_binomial_symmetry((n - 1) as nat, k);
    }
}

proof fn lemma_binomial_committee(n: nat, k: nat)
    requires
        1 <= k <= n,
    ensures
        k * binomial(n, k) == n * binomial((n - 1) as nat, (k - 1) as nat),
    decreases n,
{
    if k == n {
        lemma_binomial_full(n);
        lemma_binomial_full((n - 1) as nat);
    } else {
        let a = binomial((n - 1) as nat, (k - 1) as nat);
        let b = binomial((n - 1) as nat, k);
        let c = binomial((n - 2) as nat, (k - 1) as nat);
        lemma_binomial_committee((n - 1) as nat, k);
        assert(k * b == (n - 1) * c);
        lemma_binomial_symmetry((n - 1) as nat, (k - 1) as nat);
        assert(a == binomial((n - 1) as nat, (n - k) as nat));
        lemma_binomial_committee((n - 1) as nat, (n - k) as nat);
        lemma_binomial_symmetry((n - 2) as nat, (k - 1) as nat);
        assert((n - k) * a == (n - 1) * c);
        assert(k * binomial(n, k) == n * a) by (nonlinear_arith)
            requires
                1 <= k < n,
                binomial(n, k) == a + b,
                k * b == (n - 1) * c,
                (n - k) * a == (n - 1) * c,
        ;
    }
}

proof fn lemma_falling_product_is_binomial(n: nat, k: nat)
    requires
        k <= n,
    ensures
        falling_product(n as int, k) == binomial(n, k) * factorial(k),
    decreases k,
{
    if k > 0 {
        lemma_falling_product_is_binomial(n, (k - 1) as nat);
        let ck1 = binomial(n, (k - 1) as nat);
        let ck = binomial(n, k);
        lemma_binomial_committee(n, k);
        assert(k * ck == n * binomial((n - 1) as nat, (k - 1) as nat));
        lemma_binomial_symmetry(n, (k - 1) as nat);
        assert(ck1 == binomial(n, (n - k + 1) as nat));
        lemma_binomial_committee(n, (n - k + 1) as nat);
        lemma_binomial_symmetry((n - 1) as nat, (k - 1) as nat);
        assert((n - k + 1) * ck1 == n * binomial((n - 1) as nat, (k - 1) as nat));
        assert(falling_product(n as int, k) == ck * factorial(k)) by (nonlinear_arith)
            requires
                1 <= k <= n,
                falling_product(n as int, k) == falling_product(n as int, (k - 1) as nat) * (n - k
                    + 1),
                falling_product(n as int, (k - 1) as nat) == ck1 * factorial((k - 1) as nat),
                factorial(k) == factorial((k - 1) as nat) * k,
                (n - k + 1) * ck1 == k * ck,
        ;
    } else {
        assert(falling_product(n as int, 0) == 1);
        assert(binomial(n, 0) == 1);
        assert(factorial(0) == 1);
    }
}

proof fn lemma_falling_product_pos(n: int, k: nat)
    requires
        k <= n,
    ensures
        falling_product(n, k) >= 1,
    decreases k,
{
    if k > 0 {
        lemma_falling_product_pos(n, (k - 1) as nat);
        assert(falling_product(n, k) >= 1) by (nonlinear_arith)
            requires
                falling_product(n, k) == falling_product(n, (k - 1) as nat) * (n - (k - 1)),
                falling_product(n, (k - 1) as nat) >= 1,
                n - (k - 1) >= 1,
        ;
    }
}

proof fn lemma_falling_product_mono(n: int, k1: nat, k2: nat)
    requires
        k1 <= k2 <= n,
    ensures
        falling_product(n, k1) <= falling_product(n, k2),
    decreases k2,
{
    if k1 < k2 {
        lemma_falling_product_mono(n, k1, (k2 - 1) as nat);
        lemma_falling_product_pos(n, (k2 - 1) as nat);
        assert(falling_product(n, (k2 - 1) as nat) <= falling_product(n, k2))
            by (nonlinear_arith)
            requires
                falling_product(n, k2) == falling_product(n, (k2 - 1) as nat) * (n - (k2 - 1)),
                falling_product(n, (k2 - 1) as nat) >= 1,
                n - (k2 - 1) >= 1,
        ;
    }
}

proof fn lemma_factorial_pos(k: nat)
    ensures
        factorial(k) >= 1,
    decreases k,
{
    if k > 0 {
        lemma_factorial_pos((k - 1) as nat);
        assert(factorial(k) >= 1) by (nonlinear_arith)
            requires
                factorial(k) == factorial((k - 1) as nat) * k,
                factorial((k - 1) as nat) >= 1,
                k >= 1,
        ;
    }
}

proof fn lemma_factorial_mono(k1: nat, k2: nat)
    requires
        k1 <= k2,
    ensures
        factorial(k1) <= factorial(k2),
    decreases k2,
{
    if k1 < k2 {
        lemma_factorial_mono(k1, (k2 - 1) as nat);
        lemma_factorial_pos((k2 - 1) as nat);
        assert(factorial((k2 - 1) as nat) <= factorial(k2)) by (nonlinear_arith)
            requires
                factorial(k2) == factorial((k2 - 1) as nat) * k2,
                factorial((k2 - 1) as nat) >= 1,
                k2 >= 1,
        ;
    }
}

/// Saturating binomial coefficient: `C(n, k)` when the intermediate
/// products fit in a `usize`, `None` when one of them overflows.
/// `k > n` yields 1, a deliberate quirk that cheapens a threshold test.
pub fn combinations(n: usize, k: usize) -> (r: Option<usize>)
    ensures
        k > n ==> r == Some(1usize),
        k <= n ==> ({
            let k2 = if k <= n - k {
                k as nat
            } else {
                (n - k) as nat
            };
            &&& r is Some <==> (falling_product(n as int, k2) <= usize::MAX && factorial(k2)
                <= usize::MAX)
            &&& r is Some ==> r.unwrap() == binomial(n as nat, k as nat)
        }),
{
    if k > n {
        return Some(1);
    }
    let kk = if k <= n - k {
        k
    } else {
        n - k
    };
    let mut numerator: usize = 1;
    let mut denominator: usize = 1;
    let mut i: usize = 0;
    while i < kk
        invariant
            k <= n,
            kk == if k <= n - k {
                k as int
            } else {
                n - k
            },
            i <= kk,
            numerator == falling_product(n as int, i as nat),
            denominator == factorial(i as nat),
        decreases kk - i,
    {
        numerator = match numerator.checked_mul(n - i) {
            Some(v) => v,
            None => {
                proof {
                    assert(falling_product(n as int, (i + 1) as nat) == numerator * (n - i));
                    lemma_falling_product_mono(n as int, (i + 1) as nat, kk as nat);
                }
                return None;
            },
        };
        denominator = match denominator.checked_mul(i + 1) {
            Some(v) => v,
            None => {
                proof {
                    assert(factorial((i + 1) as nat) == factorial(i as nat) * (i + 1));
                    lemma_factorial_mono((i + 1) as nat, kk as nat);
                }
                return None;
            },
        };
        i = i + 1;
    }
    proof {
        lemma_falling_product_is_binomial(n as nat, kk as nat);
        lemma_factorial_pos(kk as nat);
        lemma_div_by_multiple(binomial(n as nat, kk as nat) as int, factorial(kk as nat) as int);
        if kk != k {
            lemma_binomial_symmetry(n as nat, k as nat);
        }
    }
    numerator.checked_div(denominator)
}

} // verus!
