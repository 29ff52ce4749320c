use ballistic_deposition::sim::random::{RandomStream, FIRST_MODULUS, LARGEST_DRAW};

#[test]
fn first_draws_of_seed_minus_one() {
    let mut rng = RandomStream::new(-1);
    assert_eq!(rng.next(), 612850790);
    assert_eq!(rng.next(), 544082547);
    assert_eq!(rng.next(), 200722134);
    assert_eq!(rng.next(), 1306737071);
    assert_eq!(rng.next(), 1940080159);
}

#[test]
fn first_draws_as_fractions() {
    let mut rng = RandomStream::new(-1);
    let expected = [0.285381, 0.253358, 0.093469, 0.608497, 0.903420];
    for e in expected {
        let value = rng.next() as f64 / FIRST_MODULUS as f64;
        assert!((value - e).abs() < 1e-6);
    }
}

#[test]
fn seed_zero_stands_for_magnitude_one() {
    let mut zero = RandomStream::new(0);
    let mut minus_one = RandomStream::new(-1);
    for _ in 0..100 {
        assert_eq!(zero.next(), minus_one.next());
    }
}

#[test]
fn positive_seed_starts_without_filling_the_table() {
    let mut rng = RandomStream::new(5);
    assert_eq!(rng.next(), 1407495835);
    assert_eq!(rng.next(), 431633857);
    assert_eq!(rng.next(), 1919039389);
    assert_eq!(rng.next(), 605346718);
}

#[test]
fn most_negative_seed() {
    let mut rng = RandomStream::new(i32::MIN);
    assert_eq!(rng.next(), 1753146857);
    assert_eq!(rng.next(), 1022343018);
    assert_eq!(rng.next(), 835067631);
}

#[test]
fn same_seed_gives_the_same_sequence() {
    for seed in [-1, -8, -12345, -2147483647, 0, 17] {
        let mut a = RandomStream::new(seed);
        let mut b = RandomStream::new(seed);
        for _ in 0..5000 {
            assert_eq!(a.next(), b.next());
        }
    }
}

#[test]
fn different_seeds_give_different_sequences() {
    let mut a = RandomStream::new(-8);
    let mut b = RandomStream::new(-9);
    let first: Vec<u32> = (0..10).map(|_| a.next()).collect();
    let second: Vec<u32> = (0..10).map(|_| b.next()).collect();
    assert_ne!(first, second);
}

#[test]
fn draws_lie_strictly_inside_the_unit_interval() {
    let mut rng = RandomStream::new(-12345);
    for _ in 0..100000 {
        let n = rng.next();
        assert!(n >= 1);
        assert!((n as i64) <= LARGEST_DRAW);
        assert!((n as i64) < FIRST_MODULUS);
        let value = n as f64 / FIRST_MODULUS as f64;
        assert!(value > 0.0 && value < 1.0);
    }
}

#[test]
fn sample_mean_is_close_to_one_half() {
    let mut rng = RandomStream::new(-12345);
    let draws = 65535;
    let mut total = 0.0f64;
    for _ in 0..draws {
        total += rng.next() as f64 / FIRST_MODULUS as f64;
    }
    let mean = total / draws as f64;
    assert!((mean - 0.5).abs() < 0.01);
    assert!((mean - 0.5018184592408707).abs() < 1e-9);
}
