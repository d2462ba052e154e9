//! The combinatorial algorithms: factorial, combination, permutation and
//! binomial expansion, each generic over an input kind `T` and a result kind
//! `R` so that a narrow input can be widened into a roomy result.

use vstd::prelude::*;
use vstd::arithmetic::div_mod::lemma_div_multiples_vanish;
use crate::arith::{
    fact, ipow, binom, int_sum, int_prod, lemma_fact_pos, lemma_fact_mono, lemma_fact_ge_self,
    lemma_ipow_nonneg, lemma_ipow_mono_exp, lemma_ipow_mono_base, lemma_ipow_ge_base,
    lemma_binom_nonneg, lemma_binom_pos, lemma_binom_sym,
    lemma_binom_diag, lemma_binom_fact,
};
use crate::nums::{Num, Zero, One, Pow, FromNum};
use crate::reduce::{sigma, product, ivals, produces, maps_range};

verus! {

/// Whether an item may be selected more than once.
#[derive(Clone, Copy)]
pub enum Method {
    Repeat,
    NoRepeat,
}

/// What `combination` returns, as dispatched over its inputs: zero whenever
/// `r > n`, the binomial coefficient for selection without repetition, zero
/// for repetition with `r == 0` (a deliberate deviation kept for
/// compatibility), and the multiset coefficient otherwise.
pub open spec fn combination_spec(n: int, r: int, m: Method) -> int {
    if r > n {
        0
    } else if m is NoRepeat {
        binom(n, r)
    } else if r == 0 {
        0
    } else {
        binom(n + r - 1, r)
    }
}

/// What `permutation` returns: one for `r == 0`, zero for `n == 0`, the
/// falling-factorial quotient without repetition, and `n^r` with repetition.
pub open spec fn permutation_spec(n: int, r: int, m: Method) -> int {
    if r == 0 {
        1
    } else if n == 0 {
        0
    } else if m is NoRepeat {
        fact(n) / fact(n - r)
    } else {
        ipow(n, r as nat)
    }
}

/// The sum of the first `j` terms of the binomial expansion of
/// `(a + b)^n`: terms `binom(n, k) * a^(n-k) * b^k` for `k < j`.
pub open spec fn bsum(a: int, b: int, n: int, j: int) -> int
    decreases j,
{
    if j <= 0 {
        0
    } else {
        bsum(a, b, n, j - 1) + binom(n, j - 1) * ipow(a, (n - (j - 1)) as nat) * ipow(
            b,
            (j - 1) as nat,
        )
    }
}

/// When every output of `func` is pinned to `g` of its input value, the
/// values of a sequence of outputs over consecutive inputs are `g` of the
/// consecutive values.
proof fn lemma_mapped_ivals<T: Num, R: Num, F: Fn(T) -> R>(
    func: F,
    start: int,
    outs: Seq<R>,
    g: spec_fn(int) -> int,
)
    requires
        maps_range(func, start, outs),
        forall|x: T, y: R| #[trigger] call_ensures(func, (x,), y) ==> y.ival() == g(x.ival()),
    ensures
        ivals(outs) =~= Seq::new(outs.len(), |i: int| g(start + i)),
{
    assert forall|i: int| 0 <= i < outs.len() implies ivals(outs)[i] == g(start + i) by {
        assert(produces(func, start + i, outs[i]));
        let x = choose|x: T| x.ival() == start + i && call_ensures(func, (x,), outs[i]);
        assert(outs[i].ival() == g(start + i));
    }
}

/// The product of the consecutive values `1, 2, ..., len` is `len!`.
proof fn lemma_prod_consecutive(s: Seq<int>)
    requires
        forall|i: int| 0 <= i < s.len() ==> s[i] == i + 1,
    ensures
        int_prod(s) == fact(s.len() as int),
    decreases s.len(),
{
    if s.len() > 0 {
        assert(forall|i: int| 0 <= i < s.len() - 1 ==> s.drop_last()[i] == s[i]);
        lemma_prod_consecutive(s.drop_last());
        assert(s.last() == s.len());
        assert(fact(s.len() as int) == s.len() * fact(s.len() - 1));
        assert(int_prod(s) == fact(s.len() - 1) * s.len());
        assert(fact(s.len() - 1) * s.len() == s.len() * fact(s.len() - 1)) by (nonlinear_arith);
    }
}

/// The factorial of `n`, widened into the result kind `R`.
///
/// It is the product over `[1, n]` of each element cast into `R`; for
/// `n == 0` the range is empty and the result is one.
pub fn factorial<T: One, R: One + FromNum<T>>(n: T) -> (r: R)
    requires
        0 <= n.ival(),
        fact(n.ival()) <= R::imax(),
    ensures
        r.ival() == fact(n.ival()),
{
    let cast = |x: T| -> (y: R)
        requires
            R::imin() <= x.ival() <= R::imax(),
        ensures
            y.ival() == x.ival(),
        { R::from_num(x) };
    let one_t = T::one();
    proof {
        n.lemma_num(n);
        T::lemma_bounds();
        R::lemma_bounds();
        lemma_fact_pos(n.ival());
        if n.ival() >= 1 {
            lemma_fact_ge_self(n.ival());
        }
        assert forall|x: T| one_t.ival() <= x.ival() <= n.ival() implies call_requires(
            cast,
            (x,),
        ) by {
            lemma_fact_mono(x.ival(), n.ival());
            lemma_fact_ge_self(x.ival());
        }
        assert forall|outs: Seq<R>|
            maps_range(cast, one_t.ival(), outs) && outs.len() <= n.ival() + 1
                - one_t.ival() implies R::imin() <= int_prod(ivals(outs)) <= R::imax() by {
            lemma_mapped_ivals(cast, 1, outs, |v: int| v);
            lemma_prod_consecutive(ivals(outs));
            lemma_fact_mono(outs.len() as int, n.ival());
            lemma_fact_pos(outs.len() as int);
        }
    }
    let r = product(one_t, n, cast);
    proof {
        let outs = choose|outs: Seq<R>|
            #[trigger] maps_range(cast, 1, outs) && outs.len() == n.ival() + 1 - 1 && r.ival()
                == int_prod(ivals(outs));
        lemma_mapped_ivals(cast, 1, outs, |v: int| v);
        lemma_prod_consecutive(ivals(outs));
    }
    r
}

/// The number of ways to select `r` items out of `n`, with or without
/// repetition, as dispatched by `combination_spec`.
pub fn combination<T: Zero + One, R: Zero + One + FromNum<T>>(n: T, r: T, method: Method) -> (res:
    R)
    requires
        0 <= n.ival(),
        0 <= r.ival(),
        method is NoRepeat && 1 <= r.ival() < n.ival() ==> fact(n.ival()) <= R::imax(),
        method is Repeat && 1 <= r.ival() <= n.ival() ==> n.ival() + r.ival() <= T::imax() && fact(
            n.ival() + r.ival() - 1,
        ) <= R::imax(),
    ensures
        res.ival() == combination_spec(n.ival(), r.ival(), method),
{
    proof {
        n.lemma_num(r);
        T::lemma_bounds();
        R::lemma_bounds();
    }
    if !r.le_val(n) {
        return R::zero();
    }
    match method {
        Method::NoRepeat => {
            if n.eq_val(r) || r.eq_val(T::zero()) {
                proof {
                    if n.ival() == r.ival() {
                        lemma_binom_diag(n.ival());
                    }
                }
                R::one()
            } else {
                let ghost ni = n.ival();
                let ghost ri = r.ival();
                proof {
                    lemma_fact_mono(ri, ni);
                    lemma_fact_mono(ni - ri, ni);
                    lemma_fact_pos(ri);
                    lemma_fact_pos(ni - ri);
                    lemma_fact_pos(ni);
                    lemma_binom_fact(ni, ri);
                    lemma_binom_pos(ni, ri);
                    assert(1 <= fact(ri) * fact(ni - ri) <= fact(ni)) by (nonlinear_arith)
                        requires
                            binom(ni, ri) * (fact(ri) * fact(ni - ri)) == fact(ni),
                            binom(ni, ri) >= 1,
                            fact(ri) >= 1,
                            fact(ni - ri) >= 1,
                    ;
                    assert((fact(ri) * fact(ni - ri)) * binom(ni, ri) == fact(ni))
                        by (nonlinear_arith)
                        requires binom(ni, ri) * (fact(ri) * fact(ni - ri)) == fact(ni);
                    lemma_div_multiples_vanish(binom(ni, ri), fact(ri) * fact(ni - ri));
                }
                let top: R = factorial(n);
                let fact_r: R = factorial(r);
                let fact_nr: R = factorial(n.minus(r));
                top.div_by(fact_r.times(fact_nr))
            }
        },
        Method::Repeat => {
            if r.eq_val(T::zero()) {
                R::zero()
            } else {
                let ghost ni = n.ival();
                let ghost ri = r.ival();
                let ghost mi = ni + ri - 1;
                proof {
                    lemma_fact_mono(ri, mi);
                    lemma_fact_mono(ni - 1, mi);
                    lemma_fact_pos(ri);
                    lemma_fact_pos(ni - 1);
                    lemma_fact_pos(mi);
                    lemma_binom_fact(mi, ri);
                    lemma_binom_pos(mi, ri);
                    assert(1 <= fact(ri) * fact(ni - 1) <= fact(mi)) by (nonlinear_arith)
                        requires
                            binom(mi, ri) * (fact(ri) * fact(mi - ri)) == fact(mi),
                            binom(mi, ri) >= 1,
                            fact(ri) >= 1,
                            fact(ni - 1) >= 1,
                            fact(mi - ri) == fact(ni - 1),
                    ;
                    assert((fact(ri) * fact(ni - 1)) * binom(mi, ri) == fact(mi))
                        by (nonlinear_arith)
                        requires
                            binom(mi, ri) * (fact(ri) * fact(mi - ri)) == fact(mi),
                            fact(mi - ri) == fact(ni - 1),
                    ;
                    lemma_div_multiples_vanish(binom(mi, ri), fact(ri) * fact(ni - 1));
                }
                let top: R = factorial(n.plus(r).minus(T::one()));
                let fact_r: R = factorial(r);
                let fact_n1: R = factorial(n.minus(T::one()));
                top.div_by(fact_r.times(fact_n1))
            }
        },
    }
}

/// The number of ways to arrange `r` items out of `n`, with or without
/// repetition, as dispatched by `permutation_spec`.
pub fn permutation<T: Zero + One, R: Zero + One + Pow + FromNum<T>>(
    n: T,
    r: T,
    method: Method,
) -> (res: R)
    requires
        0 <= n.ival(),
        0 <= r.ival(),
        method is NoRepeat && 1 <= r.ival() && 1 <= n.ival() ==> r.ival() <= n.ival() && fact(
            n.ival(),
        ) <= R::imax(),
        method is Repeat && 1 <= r.ival() && 1 <= n.ival() ==> r.ival() <= u32::MAX && ipow(
            n.ival(),
            r.ival() as nat,
        ) <= R::imax(),
    ensures
        res.ival() == permutation_spec(n.ival(), r.ival(), method),
{
    proof {
        n.lemma_num(r);
        T::lemma_bounds();
        R::lemma_bounds();
    }
    if r.eq_val(T::zero()) {
        R::one()
    } else if n.eq_val(T::zero()) {
        R::zero()
    } else {
        match method {
            Method::NoRepeat => {
                proof {
                    lemma_fact_mono(n.ival() - r.ival(), n.ival());
                    lemma_fact_pos(n.ival() - r.ival());
                    lemma_fact_pos(n.ival());
                }
                let fact_n: R = factorial(n);
                let fact_nr: R = factorial(n.minus(r));
                fact_n.div_by(fact_nr)
            },
            Method::Repeat => {
                proof {
                    lemma_ipow_ge_base(n.ival(), r.ival() as nat);
                }
                R::from_num(n).pow(r.to_u32())
            },
        }
    }
}

/// Every partial sum of the expansion of `(a + b)^n` is non-negative when
/// `a` and `b` are.
proof fn lemma_bsum_nonneg(a: int, b: int, n: int, j: int)
    requires
        0 <= a,
        0 <= b,
    ensures
        bsum(a, b, n, j) >= 0,
    decreases j,
{
    if j > 0 {
        lemma_bsum_nonneg(a, b, n, j - 1);
        lemma_binom_nonneg(n, j - 1);
        lemma_ipow_nonneg(a, (n - (j - 1)) as nat);
        lemma_ipow_nonneg(b, (j - 1) as nat);
        assert(binom(n, j - 1) * ipow(a, (n - (j - 1)) as nat) * ipow(b, (j - 1) as nat) >= 0)
            by (nonlinear_arith)
            requires
                binom(n, j - 1) >= 0,
                ipow(a, (n - (j - 1)) as nat) >= 0,
                ipow(b, (j - 1) as nat) >= 0,
        ;
    }
}

/// The partial sums of the expansion grow with the number of terms when
/// `a` and `b` are non-negative.
proof fn lemma_bsum_mono(a: int, b: int, n: int, j1: int, j2: int)
    requires
        0 <= a,
        0 <= b,
        j1 <= j2,
    ensures
        bsum(a, b, n, j1) <= bsum(a, b, n, j2),
    decreases j2,
{
    if j1 < j2 && j2 > 0 {
        lemma_bsum_mono(a, b, n, j1, j2 - 1);
        lemma_binom_nonneg(n, j2 - 1);
        lemma_ipow_nonneg(a, (n - (j2 - 1)) as nat);
        lemma_ipow_nonneg(b, (j2 - 1) as nat);
        assert(binom(n, j2 - 1) * ipow(a, (n - (j2 - 1)) as nat) * ipow(b, (j2 - 1) as nat) >= 0)
            by (nonlinear_arith)
            requires
                binom(n, j2 - 1) >= 0,
                ipow(a, (n - (j2 - 1)) as nat) >= 0,
                ipow(b, (j2 - 1) as nat) >= 0,
        ;
    }
}

/// The sum of a sequence holding the first `len` expansion terms in order
/// is the corresponding partial sum.
proof fn lemma_sum_terms(s: Seq<int>, a: int, b: int, n: int)
    requires
        forall|i: int| 0 <= i < s.len() ==> s[i] == binom(n, i) * ipow(a, (n - i) as nat) * ipow(
            b,
            i as nat,
        ),
    ensures
        int_sum(s) == bsum(a, b, n, s.len() as int),
    decreases s.len(),
{
    if s.len() > 0 {
        lemma_sum_terms(s.drop_last(), a, b, n);
    }
}

/// One step of Pascal's rule applied to a whole partial sum: a partial sum
/// for exponent `n + 1` splits into `a` and `b` multiples of partial sums
/// for exponent `n`.
proof fn lemma_bsum_split(a: int, b: int, n: int, j: int)
    requires
        0 <= n,
        0 <= j <= n + 2,
    ensures
        bsum(a, b, n + 1, j) == a * bsum(a, b, n, if j <= n + 1 { j } else { n + 1 }) + b * bsum(
            a,
            b,
            n,
            j - 1,
        ),
    decreases j,
{
    if j == 0 {
    } else {
        lemma_bsum_split(a, b, n, j - 1);
        let k = j - 1;
        // Pascal's rule on the newest term
        assert(binom(n + 1, k) == binom(n, k) + binom(n, k - 1));
        let c1 = binom(n, k);
        let c2 = binom(n, k - 1);
        let pa = ipow(a, (n - k) as nat);
        let pa1 = ipow(a, (n + 1 - k) as nat);
        let pb = ipow(b, k as nat);
        let pb1 = ipow(b, (k - 1) as nat);
        let ta = c1 * pa * pb;
        let tb = c2 * ipow(a, (n - (k - 1)) as nat) * pb1;
        // the newest term of the larger expansion splits along Pascal's rule
        if k <= n {
            assert(pa1 == a * pa);
            assert((c1 + c2) * pa1 * pb == a * (c1 * pa * pb) + c2 * pa1 * pb)
                by (nonlinear_arith)
                requires pa1 == a * pa;
        } else {
            // `k == n + 1`: the coefficient `binom(n, k)` vanishes
            assert(c1 == 0);
            assert((c1 + c2) * pa1 * pb == a * (c1 * pa * pb) + c2 * pa1 * pb)
                by (nonlinear_arith)
                requires c1 == 0;
            assert(a * ta == 0) by (nonlinear_arith)
                requires c1 == 0 && ta == c1 * pa * pb;
        }
        // the `b`-side piece is `b` times term `k - 1` of the smaller expansion
        if k == 0 {
            assert(c2 == 0);
            assert(tb == 0) by (nonlinear_arith)
                requires c2 == 0 && tb == c2 * ipow(a, (n - (k - 1)) as nat) * pb1;
            assert(c2 * pa1 * pb == b * tb) by (nonlinear_arith)
                requires c2 == 0 && tb == 0;
        } else {
            assert(pb == b * pb1);
            assert(ipow(a, (n - (k - 1)) as nat) == pa1);
            assert(c2 * pa1 * pb == b * tb) by (nonlinear_arith)
                requires pb == b * pb1 && tb == c2 * pa1 * pb1;
        }
        // reassemble: distribute `a` and `b` over the grown partial sums
        if k <= n {
            assert(a * bsum(a, b, n, k + 1) == a * bsum(a, b, n, k) + a * ta)
                by (nonlinear_arith)
                requires bsum(a, b, n, k + 1) == bsum(a, b, n, k) + ta;
        }
        if k >= 1 {
            assert(b * bsum(a, b, n, k) == b * bsum(a, b, n, k - 1) + b * tb)
                by (nonlinear_arith)
                requires bsum(a, b, n, k) == bsum(a, b, n, k - 1) + tb;
        }
    }
}

/// The binomial theorem: the full expansion sum equals `(a + b)^n`.
pub proof fn lemma_binomial_theorem(a: int, b: int, n: int)
    requires
        0 <= n,
    ensures
        bsum(a, b, n, n + 1) == ipow(a + b, n as nat),
    decreases n,
{
    if n == 0 {
        assert(binom(0, 0) == 1);
        assert(ipow(a, 0) == 1);
        assert(ipow(b, 0) == 1);
        assert(bsum(a, b, 0, 0) == 0);
        assert(bsum(a, b, 0, 1) == bsum(a, b, 0, 0) + binom(0, 0) * ipow(a, (0 - 0) as nat)
            * ipow(b, 0 as nat));
    } else {
        lemma_binomial_theorem(a, b, n - 1);
        lemma_bsum_split(a, b, n - 1, n + 1);
        assert(bsum(a, b, n, n + 1) == a * bsum(a, b, n - 1, n) + b * bsum(a, b, n - 1, n));
        assert(ipow(a + b, n as nat) == (a + b) * ipow(a + b, (n - 1) as nat));
        assert(a * bsum(a, b, n - 1, n) + b * bsum(a, b, n - 1, n) == (a + b) * ipow(
            a + b,
            (n - 1) as nat,
        )) by (nonlinear_arith)
            requires bsum(a, b, n - 1, n) == ipow(a + b, (n - 1) as nat);
    }
}

/// Choosing without repetition is symmetric: selecting `r` of `n` items
/// counts the same as selecting the `n - r` items left behind.
pub proof fn lemma_combination_symmetric(n: int, r: int)
    requires
        0 <= r <= n,
    ensures
        combination_spec(n, r, Method::NoRepeat) == combination_spec(n, n - r, Method::NoRepeat),
{
    lemma_binom_sym(n, r);
}

/// There is exactly one way to choose nothing from `n` items without
/// repetition, for every `n`.
pub proof fn lemma_combination_choose_none(n: int)
    requires
        0 <= n,
    ensures
        combination_spec(n, 0, Method::NoRepeat) == 1,
{
}

/// There is no way to choose `r > 0` items from an empty collection
/// without repetition.
pub proof fn lemma_combination_from_none(r: int)
    requires
        1 <= r,
    ensures
        combination_spec(0, r, Method::NoRepeat) == 0,
{
}

/// The binomial expansion `(a + b)^n`, computed as the sum over
/// `r in [0, n]` of `binom(n, r) * a^(n-r) * b^r`.
pub fn binomial<T: Zero + One, R: Zero + One + Pow + FromNum<T>>(a: T, b: T, n: T) -> (res: R)
    requires
        0 <= a.ival(),
        0 <= b.ival(),
        0 <= n.ival(),
        n.ival() <= u32::MAX,
        a.ival() <= R::imax(),
        b.ival() <= R::imax(),
        1 <= n.ival() ==> fact(n.ival()) <= R::imax(),
        forall|k: int| 0 <= k <= n.ival() ==> binom(n.ival(), k) * ipow(
            a.ival(),
            (n.ival() - k) as nat,
        ) <= R::imax(),
        bsum(a.ival(), b.ival(), n.ival(), n.ival() + 1) <= R::imax(),
    ensures
        res.ival() == bsum(a.ival(), b.ival(), n.ival(), n.ival() + 1),
        res.ival() == ipow(a.ival() + b.ival(), n.ival() as nat),
{
    let ghost ai = a.ival();
    let ghost bi = b.ival();
    let ghost ni = n.ival();
    let term = |k: T| -> (y: R)
        requires
            0 <= k.ival() <= n.ival(),
            0 <= a.ival(),
            0 <= b.ival(),
            n.ival() <= u32::MAX,
            a.ival() <= R::imax(),
            b.ival() <= R::imax(),
            1 <= n.ival() ==> fact(n.ival()) <= R::imax(),
            forall|q: int| 0 <= q <= n.ival() ==> binom(n.ival(), q) * ipow(
                a.ival(),
                (n.ival() - q) as nat,
            ) <= R::imax(),
            bsum(a.ival(), b.ival(), n.ival(), n.ival() + 1) <= R::imax(),
        ensures
            y.ival() == binom(n.ival(), k.ival()) * ipow(a.ival(), (n.ival() - k.ival()) as nat)
                * ipow(b.ival(), k.ival() as nat),
        {
            let ghost ki = k.ival();
            proof {
                T::lemma_bounds();
                R::lemma_bounds();
                n.lemma_num(k);
                // the power of `b` alone fits: it is at most `(a + b)^n`
                lemma_binomial_theorem(ai, bi, ni);
                lemma_bsum_nonneg(ai, bi, ni, ni + 1);
                if bi >= 1 {
                    lemma_ipow_mono_exp(bi, ki as nat, ni as nat);
                    lemma_ipow_mono_base(bi, ai + bi, ni as nat);
                } else {
                    if ki == 0 {
                        assert(ipow(bi, ki as nat) == 1);
                    } else {
                        assert(ipow(bi, ki as nat) == bi * ipow(bi, (ki - 1) as nat));
                        assert(bi * ipow(bi, (ki - 1) as nat) == 0) by (nonlinear_arith)
                            requires bi == 0;
                    }
                }
                assert(ipow(bi, ki as nat) <= R::imax());
                lemma_binom_pos(ni, ki);
                lemma_ipow_nonneg(ai, (ni - ki) as nat);
                lemma_ipow_nonneg(bi, ki as nat);
                // the power of `a` fits under the coefficient-weighted bound
                assert(ipow(ai, (ni - ki) as nat) <= binom(ni, ki) * ipow(ai, (ni - ki) as nat))
                    by (nonlinear_arith)
                    requires binom(ni, ki) >= 1, ipow(ai, (ni - ki) as nat) >= 0;
                // the power of `b` is bounded by the full term via the sum
                lemma_bsum_nonneg(ai, bi, ni, ki);
                lemma_bsum_mono(ai, bi, ni, ki + 1, ni + 1);
                assert(binom(ni, ki) * ipow(ai, (ni - ki) as nat) * ipow(bi, ki as nat) <= bsum(
                    ai,
                    bi,
                    ni,
                    ki + 1,
                ));
                assert(binom(ni, ki) * ipow(ai, (ni - ki) as nat) * ipow(bi, ki as nat) >= 0)
                    by (nonlinear_arith)
                    requires
                        binom(ni, ki) >= 0,
                        ipow(ai, (ni - ki) as nat) >= 0,
                        ipow(bi, ki as nat) >= 0,
                ;
                if ipow(bi, ki as nat) >= 1 {
                    assert(binom(ni, ki) * ipow(ai, (ni - ki) as nat) <= binom(ni, ki) * ipow(
                        ai,
                        (ni - ki) as nat,
                    ) * ipow(bi, ki as nat)) by (nonlinear_arith)
                        requires
                            ipow(bi, ki as nat) >= 1,
                            binom(ni, ki) * ipow(ai, (ni - ki) as nat) >= 0,
                    ;
                } else {
                    assert(ipow(bi, ki as nat) == 0);
                    assert(binom(ni, ki) * ipow(ai, (ni - ki) as nat) * ipow(bi, ki as nat) == 0)
                        by (nonlinear_arith)
                        requires ipow(bi, ki as nat) == 0;
                }
            }
            let comb: R = combination(n, k, Method::NoRepeat);
            let a_pow: R = R::from_num(a).pow(n.minus(k).to_u32());
            let b_pow: R = R::from_num(b).pow(k.to_u32());
            comb.times(a_pow).times(b_pow)
        };
    proof {
        n.lemma_num(n);
        T::lemma_bounds();
        R::lemma_bounds();
        let g = |v: int| binom(ni, v) * ipow(ai, (ni - v) as nat) * ipow(bi, v as nat);
        assert forall|outs: Seq<R>|
            maps_range(term, 0, outs) && outs.len() <= ni + 1 implies R::imin() <= int_sum(
            ivals(outs),
        ) <= R::imax() by {
            lemma_mapped_ivals(term, 0, outs, g);
            lemma_sum_terms(ivals(outs), ai, bi, ni);
            lemma_bsum_nonneg(ai, bi, ni, outs.len() as int);
            lemma_bsum_mono(ai, bi, ni, outs.len() as int, ni + 1);
        }
    }
    let res = sigma(T::zero(), n, term);
    proof {
        let g = |v: int| binom(ni, v) * ipow(ai, (ni - v) as nat) * ipow(bi, v as nat);
        let outs = choose|outs: Seq<R>|
            #[trigger] maps_range(term, 0, outs) && outs.len() == ni + 1 && res.ival() == int_sum(
                ivals(outs),
            );
        lemma_mapped_ivals(term, 0, outs, g);
        lemma_sum_terms(ivals(outs), ai, bi, ni);
        lemma_binomial_theorem(ai, bi, ni);
    }
    res
}

} // verus!
