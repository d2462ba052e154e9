//! A small generic combinatorics library.
//!
//! The library computes factorials, permutations, combinations (with and
//! without repetition), binomial expansions and Pascal's-triangle rows,
//! parameterized over the caller's chosen numeric kinds for both the input
//! domain and the result range.  Every function is pure: its inputs fully
//! determine its output, and each contract pins the result down to a
//! mathematical specification over the integers.

pub mod arith;
pub mod nums;
pub mod reduce;
pub mod combin;
pub mod pascal;

pub use arith::{fact, ipow, binom};
pub use nums::{Num, Zero, One, Pow, FromNum};
pub use reduce::{sigma, product};
pub use combin::{factorial, combination, permutation, binomial, Method};
pub use pascal::pascals;
