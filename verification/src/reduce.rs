//! The reduction primitives: summation and product of a mapped inclusive
//! range `[start, end]`.  The mapping function may be any closure; the
//! contracts speak of the sequence of its outputs, one per range element.

use vstd::prelude::*;
use crate::arith::{int_sum, int_prod, lemma_int_sum_push, lemma_int_prod_push};
use crate::nums::{Num, Zero, One};

verus! {

/// The mathematical values of a sequence of numbers.
pub open spec fn ivals<R: Num>(s: Seq<R>) -> Seq<int> {
    s.map_values(|x: R| x.ival())
}

/// `y` is a possible output of `func` on an input of value `v`.
pub open spec fn produces<T: Num, R: Num, F: Fn(T) -> R>(func: F, v: int, y: R) -> bool {
    exists|x: T| x.ival() == v && #[trigger] call_ensures(func, (x,), y)
}

/// Every entry of `outs` is a possible output of `func` on consecutive
/// input values counting up from `start`.
pub open spec fn maps_range<T: Num, R: Num, F: Fn(T) -> R>(func: F, start: int, outs: Seq<R>)
    -> bool
{
    forall|i: int| 0 <= i < outs.len() ==> produces(func, start + i, #[trigger] outs[i])
}

proof fn lemma_ivals_push<R: Num>(s: Seq<R>, y: R)
    ensures
        ivals(s.push(y)) =~= ivals(s).push(y.ival()),
{
}

/// A one-element reduction hands back its element: over a single-element
/// range, the sum and the product both equal the one mapped value.
pub proof fn lemma_singleton_reduction(s: Seq<int>)
    requires
        s.len() == 1,
    ensures
        int_sum(s) == s[0],
        int_prod(s) == s[0],
{
    assert(s.drop_last() =~= Seq::<int>::empty());
    assert(int_sum(Seq::<int>::empty()) == 0);
    assert(int_prod(Seq::<int>::empty()) == 1);
    assert(s.last() == s[0]);
}

/// The sum of `func` over the inclusive range `[start, end]`.
///
/// The range may be empty only in the border form `start == end + 1`, where
/// the sum of no terms is zero; the result of a non-empty range is the sum
/// of one output of `func` per range element.  The caller guarantees that
/// every such partial sum stays within the result kind.
pub fn sigma<T: Num, R: Zero, F: Fn(T) -> R>(start: T, end: T, func: F) -> (r: R)
    requires
        start.ival() <= end.ival() + 1,
        forall|x: T| start.ival() <= x.ival() <= end.ival() ==> #[trigger] call_requires(
            func,
            (x,),
        ),
        forall|outs: Seq<R>|
            #[trigger] maps_range(func, start.ival(), outs) && outs.len() <= end.ival() + 1
                - start.ival() ==> R::imin() <= int_sum(ivals(outs)) <= R::imax(),
    ensures
        exists|outs: Seq<R>|
            #[trigger] maps_range(func, start.ival(), outs) && outs.len() == end.ival() + 1
                - start.ival() && r.ival() == int_sum(ivals(outs)),
{
    if !start.le_val(end) {
        let z = R::zero();
        proof {
            let outs = Seq::<R>::empty();
            assert(maps_range(func, start.ival(), outs));
            assert(ivals::<R>(outs) =~= Seq::<int>::empty());
            assert(z.ival() == int_sum(ivals(outs)));
        }
        return z;
    }
    proof {
        assert(call_requires(func, (start,)));
    }
    let mut x = start;
    let mut acc = func(start);
    let ghost mut outs = Seq::<R>::empty().push(acc);
    proof {
        assert(produces(func, start.ival(), acc));
        assert(ivals::<R>(outs) =~= Seq::<int>::empty().push(acc.ival()));
        lemma_int_sum_push(Seq::<int>::empty(), acc.ival());
        assert(acc.ival() == int_sum(ivals(outs)));
    }
    while x.lt_val(end)
        invariant
            start.ival() <= x.ival() <= end.ival(),
            outs.len() == x.ival() - start.ival() + 1,
            maps_range(func, start.ival(), outs),
            acc.ival() == int_sum(ivals(outs)),
            forall|x2: T| start.ival() <= x2.ival() <= end.ival() ==> #[trigger] call_requires(
                func,
                (x2,),
            ),
            forall|outs2: Seq<R>|
                #[trigger] maps_range(func, start.ival(), outs2) && outs2.len() <= end.ival() + 1
                    - start.ival() ==> R::imin() <= int_sum(ivals(outs2)) <= R::imax(),
        decreases end.ival() - x.ival(),
    {
        proof {
            end.lemma_num(end);
        }
        x = x.succ();
        let y = func(x);
        proof {
            let prev = outs;
            outs = outs.push(y);
            assert(produces(func, start.ival() + prev.len(), y));
            assert(maps_range(func, start.ival(), outs)) by {
                assert(forall|i: int| 0 <= i < prev.len() ==> outs[i] == prev[i]);
            }
            lemma_ivals_push(prev, y);
            lemma_int_sum_push(ivals(prev), y.ival());
            assert(R::imin() <= int_sum(ivals(outs)) <= R::imax());
        }
        acc = acc.plus(y);
    }
    acc
}

/// The product of `func` over the inclusive range `[start, end]`.
///
/// The range may be empty only in the border form `start == end + 1`, where
/// the product of no terms is one; the result of a non-empty range is the
/// product of one output of `func` per range element.  The caller guarantees
/// that every such partial product stays within the result kind.
pub fn product<T: Num, R: One, F: Fn(T) -> R>(start: T, end: T, func: F) -> (r: R)
    requires
        start.ival() <= end.ival() + 1,
        forall|x: T| start.ival() <= x.ival() <= end.ival() ==> #[trigger] call_requires(
            func,
            (x,),
        ),
        forall|outs: Seq<R>|
            #[trigger] maps_range(func, start.ival(), outs) && outs.len() <= end.ival() + 1
                - start.ival() ==> R::imin() <= int_prod(ivals(outs)) <= R::imax(),
    ensures
        exists|outs: Seq<R>|
            #[trigger] maps_range(func, start.ival(), outs) && outs.len() == end.ival() + 1
                - start.ival() && r.ival() == int_prod(ivals(outs)),
{
    if !start.le_val(end) {
        let z = R::one();
        proof {
            let outs = Seq::<R>::empty();
            assert(maps_range(func, start.ival(), outs));
            assert(ivals::<R>(outs) =~= Seq::<int>::empty());
            assert(z.ival() == int_prod(ivals(outs)));
        }
        return z;
    }
    proof {
        assert(call_requires(func, (start,)));
    }
    let mut x = start;
    let mut acc = func(start);
    let ghost mut outs = Seq::<R>::empty().push(acc);
    proof {
        assert(produces(func, start.ival(), acc));
        assert(ivals::<R>(outs) =~= Seq::<int>::empty().push(acc.ival()));
        lemma_int_prod_push(Seq::<int>::empty(), acc.ival());
        assert(acc.ival() == int_prod(ivals(outs)));
    }
    while x.lt_val(end)
        invariant
            start.ival() <= x.ival() <= end.ival(),
            outs.len() == x.ival() - start.ival() + 1,
            maps_range(func, start.ival(), outs),
            acc.ival() == int_prod(ivals(outs)),
            forall|x2: T| start.ival() <= x2.ival() <= end.ival() ==> #[trigger] call_requires(
                func,
                (x2,),
            ),
            forall|outs2: Seq<R>|
                #[trigger] maps_range(func, start.ival(), outs2) && outs2.len() <= end.ival() + 1
                    - start.ival() ==> R::imin() <= int_prod(ivals(outs2)) <= R::imax(),
        decreases end.ival() - x.ival(),
    {
        proof {
            end.lemma_num(end);
        }
        x = x.succ();
        let y = func(x);
        proof {
            let prev = outs;
            outs = outs.push(y);
            assert(produces(func, start.ival() + prev.len(), y));
            assert(maps_range(func, start.ival(), outs)) by {
                assert(forall|i: int| 0 <= i < prev.len() ==> outs[i] == prev[i]);
            }
            lemma_ivals_push(prev, y);
            lemma_int_prod_push(ivals(prev), y.ival());
            assert(R::imin() <= int_prod(ivals(outs)) <= R::imax());
        }
        acc = acc.times(y);
    }
    acc
}

} // verus!
