//! Pascal's triangle, built iteratively row by row: row `k` holds the
//! binomial coefficients `binom(k, 0) ..= binom(k, k)` as unsigned 32-bit
//! values.

use vstd::prelude::*;
use crate::arith::{binom, lemma_binom_nonneg, lemma_binom_diag, lemma_binom_le_pow2,
    lemma_pow2_bound};

verus! {

/// The first rows of Pascal's triangle.
///
/// The result always holds the two seed rows `[1]` and `[1, 1]`, and grows
/// to `n` rows for `n > 2`; row `k` has `k + 1` entries, every entry is the
/// matching binomial coefficient, the edges are one and each interior entry
/// is the sum of the two entries above it.  The bound on `n` keeps every
/// entry within an unsigned 32-bit value.
pub fn pascals(n: u32) -> (result: Vec<Vec<u32>>)
    requires
        n <= 32,
    ensures
        result@.len() == if n <= 2 { 2int } else { n as int },
        forall|k: int| 0 <= k < result@.len() ==> (#[trigger] result@[k])@.len() == k + 1,
        forall|k: int, j: int|
            0 <= k < result@.len() && 0 <= j <= k ==> (#[trigger] result@[k]@[j]) == binom(k, j),
        forall|k: int| 0 <= k < result@.len() ==> result@[k]@[0] == 1 && result@[k]@[k] == 1,
        forall|k: int, j: int|
            0 <= k < result@.len() && 1 <= j < k ==> (#[trigger] result@[k]@[j]) == result@[k
                - 1]@[j - 1] + result@[k - 1]@[j],
{
    let mut result: Vec<Vec<u32>> = Vec::new();
    let mut row0: Vec<u32> = Vec::new();
    row0.push(1);
    let mut row1: Vec<u32> = Vec::new();
    row1.push(1);
    row1.push(1);
    result.push(row0);
    result.push(row1);
    proof {
        assert(binom(0, 0) == 1);
        assert(binom(1, 0) == 1);
        assert(binom(1, 1) == binom(0, 0) + binom(0, 1));
    }
    let mut row: usize = 2;
    while row < n as usize
        invariant
            n <= 32,
            2 <= row,
            row as int <= if n <= 2 { 2int } else { n as int },
            result@.len() == row,
            forall|k: int| 0 <= k < row ==> (#[trigger] result@[k])@.len() == k + 1,
            forall|k: int, j: int|
                0 <= k < row && 0 <= j <= k ==> (#[trigger] result@[k]@[j]) == binom(k, j),
        decreases n as int - row,
    {
        let mut next: Vec<u32> = Vec::new();
        next.push(1);
        proof {
            assert(binom(row as int, 0) == 1);
        }
        let mut col: usize = 1;
        while col < row
            invariant
                n <= 32,
                2 <= row,
                row < n,
                result@.len() == row,
                forall|k: int| 0 <= k < row ==> (#[trigger] result@[k])@.len() == k + 1,
                forall|k: int, j: int|
                    0 <= k < row && 0 <= j <= k ==> (#[trigger] result@[k]@[j]) == binom(k, j),
                1 <= col <= row,
                next@.len() == col,
                forall|j: int| 0 <= j < col ==> (#[trigger] next@[j]) == binom(row as int, j),
            decreases row - col,
        {
            proof {
                lemma_binom_nonneg(row - 1, col - 1);
                lemma_binom_nonneg(row - 1, col as int);
                lemma_binom_le_pow2(row as int, col as int);
                lemma_pow2_bound(row as nat);
                assert(binom(row as int, col as int) == binom(row - 1, col - 1) + binom(
                    row - 1,
                    col as int,
                ));
            }
            let v = result[row - 1][col - 1] + result[row - 1][col];
            next.push(v);
            col = col + 1;
        }
        next.push(1);
        proof {
            lemma_binom_diag(row as int);
        }
        result.push(next);
        row = row + 1;
    }
    proof {
        assert forall|k: int| 0 <= k < result@.len() implies result@[k]@[0] == 1 && result@[k]@[k]
            == 1 by {
            lemma_binom_diag(k);
        }
        assert forall|k: int, j: int|
            0 <= k < result@.len() && 1 <= j < k implies (#[trigger] result@[k]@[j]) == result@[k
            - 1]@[j - 1] + result@[k - 1]@[j] by {
            assert(binom(k, j) == binom(k - 1, j - 1) + binom(k - 1, j));
        }
    }
    result
}

} // verus!
