//! The mathematical model of the library: factorials, powers, binomial
//! coefficients and reductions of integer sequences, all over `int`, with the
//! lemmas that the executable layer's proofs rest on.

use vstd::prelude::*;

verus! {

/// The factorial of `n`; by convention `1` for every `n <= 0`.
pub open spec fn fact(n: int) -> int
    decreases n,
{
    if n <= 0 {
        1
    } else {
        n * fact(n - 1)
    }
}

/// `base` raised to the power `exp`.
pub open spec fn ipow(base: int, exp: nat) -> int
    decreases exp,
{
    if exp == 0 {
        1
    } else {
        base * ipow(base, (exp - 1) as nat)
    }
}

/// The binomial coefficient `n` choose `k`, by Pascal's rule;
/// `0` outside the triangle.
pub open spec fn binom(n: int, k: int) -> int
    decreases n,
{
    if k < 0 || k > n {
        0
    } else if k == 0 {
        1
    } else {
        binom(n - 1, k - 1) + binom(n - 1, k)
    }
}

/// The sum of a sequence of integers.
pub open spec fn int_sum(s: Seq<int>) -> int
    decreases s.len(),
{
    if s.len() == 0 {
        0
    } else {
        int_sum(s.drop_last()) + s.last()
    }
}

/// The product of a sequence of integers.
pub open spec fn int_prod(s: Seq<int>) -> int
    decreases s.len(),
{
    if s.len() == 0 {
        1
    } else {
        int_prod(s.drop_last()) * s.last()
    }
}

pub proof fn lemma_int_sum_push(s: Seq<int>, v: int)
    ensures
        int_sum(s.push(v)) == int_sum(s) + v,
{
    assert(s.push(v).drop_last() =~= s);
}

pub proof fn lemma_int_prod_push(s: Seq<int>, v: int)
    ensures
        int_prod(s.push(v)) == int_prod(s) * v,
{
    assert(s.push(v).drop_last() =~= s);
}

pub proof fn lemma_fact_pos(n: int)
    ensures
        fact(n) >= 1,
    decreases n,
{
    if n > 0 {
        lemma_fact_pos(n - 1);
        assert(n * fact(n - 1) >= fact(n - 1)) by (nonlinear_arith)
            requires n >= 1 && fact(n - 1) >= 1;
    }
}

pub proof fn lemma_fact_mono(a: int, b: int)
    requires
        a <= b,
    ensures
        fact(a) <= fact(b),
    decreases b,
{
    if a < b && b > 0 {
        lemma_fact_mono(a, b - 1);
        lemma_fact_pos(b - 1);
        assert(b * fact(b - 1) >= fact(b - 1)) by (nonlinear_arith)
            requires b >= 1 && fact(b - 1) >= 1;
    }
}

pub proof fn lemma_fact_ge_self(n: int)
    requires
        n >= 1,
    ensures
        fact(n) >= n,
{
    lemma_fact_pos(n - 1);
    assert(n * fact(n - 1) >= n) by (nonlinear_arith)
        requires n >= 1 && fact(n - 1) >= 1;
}

pub proof fn lemma_ipow_nonneg(base: int, exp: nat)
    requires
        base >= 0,
    ensures
        ipow(base, exp) >= 0,
    decreases exp,
{
    if exp > 0 {
        lemma_ipow_nonneg(base, (exp - 1) as nat);
        assert(base * ipow(base, (exp - 1) as nat) >= 0) by (nonlinear_arith)
            requires base >= 0 && ipow(base, (exp - 1) as nat) >= 0;
    }
}

pub proof fn lemma_ipow_pos(base: int, exp: nat)
    requires
        base >= 1,
    ensures
        ipow(base, exp) >= 1,
    decreases exp,
{
    if exp > 0 {
        lemma_ipow_pos(base, (exp - 1) as nat);
        assert(base * ipow(base, (exp - 1) as nat) >= 1) by (nonlinear_arith)
            requires base >= 1 && ipow(base, (exp - 1) as nat) >= 1;
    }
}

pub proof fn lemma_ipow_mono_exp(base: int, e1: nat, e2: nat)
    requires
        base >= 1,
        e1 <= e2,
    ensures
        ipow(base, e1) <= ipow(base, e2),
    decreases e2,
{
    if e1 < e2 {
        lemma_ipow_mono_exp(base, e1, (e2 - 1) as nat);
        lemma_ipow_pos(base, (e2 - 1) as nat);
        assert(base * ipow(base, (e2 - 1) as nat) >= ipow(base, (e2 - 1) as nat))
            by (nonlinear_arith)
            requires base >= 1 && ipow(base, (e2 - 1) as nat) >= 1;
    }
}

pub proof fn lemma_ipow_mono_base(b1: int, b2: int, exp: nat)
    requires
        0 <= b1 <= b2,
    ensures
        ipow(b1, exp) <= ipow(b2, exp),
    decreases exp,
{
    if exp > 0 {
        lemma_ipow_mono_base(b1, b2, (exp - 1) as nat);
        lemma_ipow_nonneg(b1, (exp - 1) as nat);
        lemma_ipow_nonneg(b2, (exp - 1) as nat);
        assert(b1 * ipow(b1, (exp - 1) as nat) <= b2 * ipow(b2, (exp - 1) as nat))
            by (nonlinear_arith)
            requires
                0 <= b1 <= b2,
                0 <= ipow(b1, (exp - 1) as nat) <= ipow(b2, (exp - 1) as nat);
    }
}

pub proof fn lemma_ipow_ge_base(base: int, exp: nat)
    requires
        base >= 0,
        exp >= 1,
    ensures
        ipow(base, exp) >= base,
{
    if base >= 1 {
        lemma_ipow_pos(base, (exp - 1) as nat);
        assert(base * ipow(base, (exp - 1) as nat) >= base) by (nonlinear_arith)
            requires base >= 1 && ipow(base, (exp - 1) as nat) >= 1;
    } else {
        lemma_ipow_nonneg(base, exp);
    }
}

pub proof fn lemma_binom_nonneg(n: int, k: int)
    ensures
        binom(n, k) >= 0,
    decreases n,
{
    if !(k < 0 || k > n) && k != 0 {
        lemma_binom_nonneg(n - 1, k - 1);
        lemma_binom_nonneg(n - 1, k);
    }
}

pub proof fn lemma_binom_pos(n: int, k: int)
    requires
        0 <= k <= n,
    ensures
        binom(n, k) >= 1,
    decreases n,
{
    if k != 0 {
        lemma_binom_pos(n - 1, k - 1);
        lemma_binom_nonneg(n - 1, k);
    }
}

pub proof fn lemma_binom_diag(n: int)
    requires
        n >= 0,
    ensures
        binom(n, n) == 1,
    decreases n,
{
    if n > 0 {
        lemma_binom_diag(n - 1);
        assert(binom(n - 1, n) == 0);
    }
}

/// The fundamental factorial form of the binomial coefficient:
/// `binom(n, k) * (k! * (n - k)!) == n!`.
pub proof fn lemma_binom_fact(n: int, k: int)
    requires
        0 <= k <= n,
    ensures
        binom(n, k) * (fact(k) * fact(n - k)) == fact(n),
    decreases n,
{
    if k == 0 {
        lemma_fact_pos(n);
    } else if k == n {
        lemma_binom_diag(n);
        lemma_fact_pos(n);
    } else {
        // 1 <= k <= n - 1, so n >= 2
        lemma_binom_fact(n - 1, k - 1);
        lemma_binom_fact(n - 1, k);
        let c1 = binom(n - 1, k - 1);
        let c2 = binom(n - 1, k);
        assert((c1 + c2) * (fact(k) * fact(n - k))
            == c1 * (fact(k) * fact(n - k)) + c2 * (fact(k) * fact(n - k)))
            by (nonlinear_arith);
        // first summand: fact(k) == k * fact(k - 1)
        assert(c1 * (fact(k) * fact(n - k)) == k * (c1 * (fact(k - 1) * fact(n - k))))
            by (nonlinear_arith)
            requires fact(k) == k * fact(k - 1);
        assert(k * (c1 * (fact(k - 1) * fact(n - k))) == k * fact(n - 1))
            by (nonlinear_arith)
            requires c1 * (fact(k - 1) * fact((n - 1) - (k - 1))) == fact(n - 1)
                && fact((n - 1) - (k - 1)) == fact(n - k);
        // second summand: fact(n - k) == (n - k) * fact(n - k - 1)
        assert(c2 * (fact(k) * fact(n - k)) == (n - k) * (c2 * (fact(k) * fact(n - k - 1))))
            by (nonlinear_arith)
            requires fact(n - k) == (n - k) * fact(n - k - 1);
        assert((n - k) * (c2 * (fact(k) * fact(n - k - 1))) == (n - k) * fact(n - 1))
            by (nonlinear_arith)
            requires c2 * (fact(k) * fact((n - 1) - k)) == fact(n - 1)
                && fact((n - 1) - k) == fact(n - k - 1);
        assert(k * fact(n - 1) + (n - k) * fact(n - 1) == n * fact(n - 1))
            by (nonlinear_arith);
    }
}

/// Symmetry of the binomial coefficient: choosing `k` of `n` is choosing
/// which `n - k` to leave out.
pub proof fn lemma_binom_sym(n: int, k: int)
    requires
        0 <= k <= n,
    ensures
        binom(n, k) == binom(n, n - k),
{
    lemma_binom_fact(n, k);
    lemma_binom_fact(n, n - k);
    lemma_fact_pos(k);
    lemma_fact_pos(n - k);
    assert(binom(n, k) == binom(n, n - k)) by (nonlinear_arith)
        requires
            binom(n, k) * (fact(k) * fact(n - k)) == fact(n),
            binom(n, n - k) * (fact(n - k) * fact(n - (n - k))) == fact(n),
            fact(n - (n - k)) == fact(k),
            fact(k) >= 1,
            fact(n - k) >= 1;
}

/// A concrete cap on the small powers of two, for overflow bounds.
pub proof fn lemma_pow2_bound(exp: nat)
    requires
        exp <= 31,
    ensures
        ipow(2, exp) <= 0x8000_0000,
{
    lemma_ipow_mono_exp(2, exp, 31);
    assert(ipow(2, 31) == 0x8000_0000) by {
        reveal_with_fuel(ipow, 32);
    }
}

/// Every binomial coefficient of row `n` is at most `2^n`.
pub proof fn lemma_binom_le_pow2(n: int, k: int)
    requires
        0 <= k <= n,
    ensures
        binom(n, k) <= ipow(2, n as nat),
    decreases n,
{
    if k == 0 {
        lemma_ipow_pos(2, n as nat);
    } else if n > 0 {
        lemma_binom_le_pow2(n - 1, k - 1);
        if k <= n - 1 {
            lemma_binom_le_pow2(n - 1, k);
        } else {
            assert(binom(n - 1, k) == 0);
        }
        lemma_ipow_pos(2, (n - 1) as nat);
        assert(binom(n, k) == binom(n - 1, k - 1) + binom(n - 1, k));
        assert(ipow(2, n as nat) == 2 * ipow(2, (n - 1) as nat));
    }
}

} // verus!
