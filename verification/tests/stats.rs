use ballistic_deposition::sim::stats::{height_sum, mean, square_sum, variance, Fraction};

#[test]
fn mean_of_nothing_is_none() {
    let empty: Vec<u64> = Vec::new();
    assert_eq!(mean(&empty), None);
    assert_eq!(variance(&empty), None);
}

#[test]
fn mean_is_the_sum_over_the_count() {
    assert_eq!(mean(&vec![1, 2, 3, 4]), Some(Fraction { numerator: 10, denominator: 4 }));
    assert_eq!(mean(&vec![7]), Some(Fraction { numerator: 7, denominator: 1 }));
    assert_eq!(mean(&vec![0, 0, 0]), Some(Fraction { numerator: 0, denominator: 3 }));
}

#[test]
fn variance_divides_by_the_count() {
    // heights 1, 2, 3, 4: mean 2.5, population variance 1.25 = 20 / 16
    assert_eq!(variance(&vec![1, 2, 3, 4]), Some(Fraction { numerator: 20, denominator: 16 }));
    let f = variance(&vec![2, 4, 4, 4, 5, 5, 7, 9]).unwrap();
    // the textbook example with standard deviation 2
    assert_eq!(f, Fraction { numerator: 256, denominator: 64 });
    let width = (f.numerator as f64 / f.denominator as f64).sqrt();
    assert_eq!(width, 2.0);
}

#[test]
fn flat_surface_has_no_variance() {
    assert_eq!(variance(&vec![5, 5, 5]), Some(Fraction { numerator: 0, denominator: 9 }));
    assert_eq!(variance(&vec![9]), Some(Fraction { numerator: 0, denominator: 1 }));
}

#[test]
fn sums_of_large_heights() {
    let big = u64::MAX;
    assert_eq!(height_sum(&vec![big, big, big]), 3 * big as u128);
    assert_eq!(square_sum(&vec![big]), big as u128 * big as u128);
    assert_eq!(square_sum(&vec![3, 4]), 25);
    assert_eq!(height_sum(&Vec::new()), 0);
    assert_eq!(square_sum(&Vec::new()), 0);
    let half = 1u64 << 32;
    assert_eq!(
        variance(&vec![0, half]),
        Some(Fraction { numerator: (half as u128) * (half as u128), denominator: 4 })
    );
}
