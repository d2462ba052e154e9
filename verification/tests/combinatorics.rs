use combinatorics::{binomial, combination, factorial, pascals, permutation, product, sigma,
    Method};

#[test]
fn test_sigma() {
    assert_eq!(sigma(0, 0, |x: i32| x), 0);
    assert_eq!(sigma(1, 1, |x: i32| x), 1);
    assert_eq!(sigma(1, 10, |x: i32| x), 55);
    assert_eq!(sigma(1, 10, |x: u32| u32::pow(x, 2)), 385);
}

#[test]
fn test_product() {
    assert_eq!(product(0, 0, |x: i32| x), 0);
    assert_eq!(product(1, 1, |x: i32| x), 1);
    assert_eq!(product(1, 10, |x: i32| x), 3628800);
    assert_eq!(product(1, 10, |x: u64| u64::pow(x, 2)), 13168189440000);
}

#[test]
fn test_factorial() {
    assert_eq!(factorial::<u8, u8>(0), 1);
    assert_eq!(factorial::<u8, u8>(1), 1);
    assert_eq!(factorial::<u8, u8>(5), 120);
    assert_eq!(factorial::<u8, u16>(6), 720);
    assert_eq!(factorial::<u8, u32>(9), 362880);
    assert_eq!(factorial::<u8, u32>(10), 3628800);
}

#[test]
fn test_combination() {
    assert_eq!(combination::<u8, u8>(0, 0, Method::NoRepeat), 1);
    assert_eq!(combination::<u8, u8>(5, 0, Method::NoRepeat), 1);
    assert_eq!(combination::<u8, u8>(0, 5, Method::NoRepeat), 0);
    assert_eq!(combination::<u8, u8>(5, 3, Method::NoRepeat), 10);

    assert_eq!(combination::<u8, u8>(0, 0, Method::Repeat), 0);
    assert_eq!(combination::<u8, u8>(5, 0, Method::Repeat), 0);
    assert_eq!(combination::<u8, u8>(0, 5, Method::Repeat), 0);
    assert_eq!(combination::<u8, u64>(5, 3, Method::Repeat), 35);
}

#[test]
fn test_permutation() {
    assert_eq!(permutation::<u8, u8>(0, 0, Method::NoRepeat), 1);
    assert_eq!(permutation::<u8, u8>(5, 0, Method::NoRepeat), 1);
    assert_eq!(permutation::<u8, u8>(0, 5, Method::NoRepeat), 0);
    assert_eq!(permutation::<u8, u8>(5, 3, Method::NoRepeat), 60);

    assert_eq!(permutation::<u8, u8>(0, 0, Method::Repeat), 1);
    assert_eq!(permutation::<u8, u8>(5, 0, Method::Repeat), 1);
    assert_eq!(permutation::<u8, u8>(0, 5, Method::Repeat), 0);
    assert_eq!(permutation::<u8, u8>(5, 3, Method::Repeat), 125);
}

#[test]
fn test_binomial() {
    assert_eq!(binomial::<u8, u32>(7, 10, 5), u32::pow(7 + 10, 5));
    assert_eq!(binomial::<u8, u32>(2, 5, 2), u32::pow(2 + 5, 2));
}

#[test]
fn test_pascals() {
    assert_eq!(
        pascals(5),
        vec![
            vec![1],
            vec![1, 1],
            vec![1, 2, 1],
            vec![1, 3, 3, 1],
            vec![1, 4, 6, 4, 1],
        ]
    );
    assert_eq!(
        pascals(10),
        vec![
            vec![1],
            vec![1, 1],
            vec![1, 2, 1],
            vec![1, 3, 3, 1],
            vec![1, 4, 6, 4, 1],
            vec![1, 5, 10, 10, 5, 1],
            vec![1, 6, 15, 20, 15, 6, 1],
            vec![1, 7, 21, 35, 35, 21, 7, 1],
            vec![1, 8, 28, 56, 70, 56, 28, 8, 1],
            vec![1, 9, 36, 84, 126, 126, 84, 36, 9, 1]
        ]
    );
}

#[test]
fn factorial_table() {
    let expect: [u32; 8] = [1, 1, 2, 6, 24, 120, 720, 5040];
    for n in 0..8u8 {
        assert_eq!(factorial::<u8, u32>(n), expect[n as usize]);
    }
}

#[test]
fn combination_symmetry_examples() {
    assert_eq!(
        combination::<u8, u32>(10, 3, Method::NoRepeat),
        combination::<u8, u32>(10, 7, Method::NoRepeat)
    );
    assert_eq!(combination::<u8, u32>(10, 3, Method::NoRepeat), 120);
    assert_eq!(
        combination::<u8, u32>(9, 2, Method::NoRepeat),
        combination::<u8, u32>(9, 7, Method::NoRepeat)
    );
}

#[test]
fn combination_edge_rows() {
    assert_eq!(combination::<u8, u8>(7, 0, Method::NoRepeat), 1);
    assert_eq!(combination::<u8, u8>(200, 0, Method::NoRepeat), 1);
    assert_eq!(combination::<u8, u8>(0, 4, Method::NoRepeat), 0);
    assert_eq!(combination::<u8, u8>(6, 6, Method::NoRepeat), 1);
    assert_eq!(combination::<u8, u16>(6, 2, Method::Repeat), 21);
}

#[test]
fn permutation_matches_factorial_quotient() {
    let p: u32 = permutation(6u8, 2u8, Method::NoRepeat);
    let top: u32 = factorial(6u8);
    let bottom: u32 = factorial(4u8);
    assert_eq!(p, top / bottom);
    assert_eq!(p, 30);
    let whole: u32 = permutation(5u8, 5u8, Method::NoRepeat);
    assert_eq!(whole, 120);
}

#[test]
fn permutation_with_repetition_is_power() {
    assert_eq!(permutation::<u8, u16>(2, 8, Method::Repeat), 256);
    assert_eq!(permutation::<u8, u32>(10, 4, Method::Repeat), 10000);
    assert_eq!(permutation::<u8, u8>(1, 7, Method::Repeat), 1);
}

#[test]
fn binomial_with_zero_summand() {
    assert_eq!(binomial::<u8, u32>(0, 3, 4), 81);
    assert_eq!(binomial::<u8, u32>(3, 0, 4), 81);
    assert_eq!(binomial::<u8, u32>(2, 3, 0), 1);
    assert_eq!(binomial::<u8, u32>(4, 9, 1), 13);
}

#[test]
fn pascals_smallest_inputs_keep_seed_rows() {
    assert_eq!(pascals(0), vec![vec![1], vec![1, 1]]);
    assert_eq!(pascals(1), vec![vec![1], vec![1, 1]]);
    assert_eq!(pascals(2), vec![vec![1], vec![1, 1]]);
}

#[test]
fn pascals_interior_sums() {
    let rows = pascals(12);
    for k in 2..rows.len() {
        assert_eq!(rows[k].len(), k + 1);
        assert_eq!(rows[k][0], 1);
        assert_eq!(rows[k][k], 1);
        for j in 1..k {
            assert_eq!(rows[k][j], rows[k - 1][j - 1] + rows[k - 1][j]);
        }
    }
}

#[test]
fn repeated_calls_agree() {
    assert_eq!(factorial::<u8, u32>(9), factorial::<u8, u32>(9));
    assert_eq!(
        combination::<u8, u32>(8, 3, Method::NoRepeat),
        combination::<u8, u32>(8, 3, Method::NoRepeat)
    );
    assert_eq!(
        permutation::<u8, u32>(8, 3, Method::Repeat),
        permutation::<u8, u32>(8, 3, Method::Repeat)
    );
    assert_eq!(pascals(9), pascals(9));
}

#[test]
fn single_element_range_round_trip() {
    assert_eq!(sigma(7, 7, |x: i32| x), 7);
    assert_eq!(product(7, 7, |x: i32| x), 7);
    assert_eq!(sigma(3, 3, |x: u32| x * 10), 30);
    assert_eq!(product(3, 3, |x: u32| x * 10), 30);
}

#[test]
fn empty_border_range() {
    assert_eq!(sigma(1, 0, |x: i32| x), 0);
    assert_eq!(product(1, 0, |x: i32| x), 1);
}

#[test]
fn wide_results_from_narrow_inputs() {
    assert_eq!(factorial::<u8, u64>(20), 2432902008176640000);
    assert_eq!(combination::<u8, u64>(20, 10, Method::NoRepeat), 184756);
    assert_eq!(binomial::<u8, u64>(1, 1, 20), 1048576);
}
