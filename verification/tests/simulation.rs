use ballistic_deposition::ini_parser::{ConfigError, InputParams};
use ballistic_deposition::sim::csv_writer::file_name;
use ballistic_deposition::sim::random::RandomStream;
use ballistic_deposition::sim::schedule::{count_time_points, next_batch};
use ballistic_deposition::sim::stats::{mean, variance, Fraction};
use ballistic_deposition::sim::surface::deposit_blocks;
use ballistic_deposition::sim::{
    do_sim, reduce_ensemble, run, time_horizon, zeroed_surface, ConsistencyError, Sample,
    SimulationParams, SimulationResults,
};

fn sweep(periodic_bc: bool, init_seed: u32) -> InputParams {
    InputParams {
        lengths: Vec::new(),
        k_neighbours: Vec::new(),
        seeds: Vec::new(),
        periodic_bc,
        init_seed,
    }
}

fn params(
    length: u32,
    max_time: u32,
    k: u32,
    seeds: u32,
    periodic: bool,
    init_seed: u32,
) -> SimulationParams {
    SimulationParams::new(sweep(periodic, init_seed), (length, max_time), k, seeds).unwrap()
}

fn sample(particles: u64, height_sum: u64, spread: u128) -> Sample {
    Sample { particles, height_sum, spread }
}

#[test]
fn parameters_are_kept_as_given() {
    let p = params(8, 10000, 1, 4, true, 3);
    assert_eq!(p.length(), 8);
    assert_eq!(p.max_time(), 10000);
    assert_eq!(p.k_neighbour(), 1);
    assert_eq!(p.max_seed(), 4);
    assert!(p.periodic_bc());
    assert_eq!(p.init_seed(), 3);
}

#[test]
fn empty_substrate_is_refused() {
    let r = SimulationParams::new(sweep(true, 0), (0, 10), 0, 1);
    assert_eq!(r.err(), Some(ConfigError::EmptySubstrate));
}

#[test]
fn neighbourhood_as_wide_as_the_substrate_is_refused() {
    let r = SimulationParams::new(sweep(true, 0), (8, 10), 8, 1);
    assert_eq!(r.err(), Some(ConfigError::NeighbourRange));
    let r = SimulationParams::new(sweep(true, 0), (8, 10), 9, 1);
    assert_eq!(r.err(), Some(ConfigError::NeighbourRange));
    assert!(SimulationParams::new(sweep(true, 0), (8, 10), 7, 1).is_ok());
}

#[test]
fn ensemble_without_seeds_is_refused() {
    let r = SimulationParams::new(sweep(false, 0), (8, 10), 1, 0);
    assert_eq!(r.err(), Some(ConfigError::NoSeeds));
}

#[test]
fn seeds_beyond_thirty_one_bits_are_refused() {
    let r = SimulationParams::new(sweep(false, 2147483647), (8, 10), 1, 1);
    assert_eq!(r.err(), Some(ConfigError::SeedRange));
    let r = SimulationParams::new(sweep(false, 2147483639), (8, 10), 1, 2);
    assert_eq!(r.err(), Some(ConfigError::SeedRange));
    assert!(SimulationParams::new(sweep(false, 2147483639), (8, 10), 1, 1).is_ok());
}

#[test]
fn workload_beyond_machine_integers_is_refused() {
    let r = SimulationParams::new(sweep(false, 0), (1 << 20, u32::MAX), 1, 1);
    assert_eq!(r.err(), Some(ConfigError::TooManyParticles));
    assert!(SimulationParams::new(sweep(false, 0), (1 << 12, u32::MAX), 1, 1).is_ok());
}

#[test]
fn first_fault_is_reported() {
    let r = SimulationParams::new(sweep(false, u32::MAX), (0, u32::MAX), 5, 0);
    assert_eq!(r.err(), Some(ConfigError::EmptySubstrate));
    let r = SimulationParams::new(sweep(false, u32::MAX), (3, u32::MAX), 5, 0);
    assert_eq!(r.err(), Some(ConfigError::NeighbourRange));
    let r = SimulationParams::new(sweep(false, u32::MAX), (3, u32::MAX), 2, 0);
    assert_eq!(r.err(), Some(ConfigError::NoSeeds));
}

#[test]
fn flat_surface_at_zero() {
    assert_eq!(zeroed_surface(0), Vec::<u64>::new());
    assert_eq!(zeroed_surface(5), vec![0u64; 5]);
}

#[test]
fn short_bounded_realization() {
    let p = params(8, 3, 0, 3, false, 7);
    let series = do_sim(&p, 2, 3).unwrap();
    assert_eq!(series, vec![sample(8, 8, 64), sample(16, 16, 112), sample(24, 24, 48)]);
}

#[test]
fn short_realization_with_two_neighbours() {
    let p = params(5, 2, 2, 1, false, 1);
    let series = do_sim(&p, 0, 2).unwrap();
    assert_eq!(series, vec![sample(5, 12, 106), sample(10, 33, 26)]);
}

#[test]
fn standard_realization_on_eight_columns() {
    let p = params(8, 10000, 1, 4, true, 0);
    let series = do_sim(&p, 0, 640).unwrap();
    assert_eq!(series.len(), 640);
    assert_eq!(series[0], sample(8, 12, 176));
    assert_eq!(series[1], sample(16, 39, 439));
    assert_eq!(series[2], sample(24, 72, 576));
    assert_eq!(series[3], sample(32, 99, 815));
    assert_eq!(series[639], sample(80075, 289662, 156));
}

#[test]
fn realization_is_a_function_of_its_seed() {
    let p = params(16, 40, 2, 5, true, 11);
    for seed in 0..5 {
        let t = count_time_points(16, 40);
        assert_eq!(do_sim(&p, seed, t), do_sim(&p, seed, t));
    }
    let t = count_time_points(16, 40);
    assert_ne!(do_sim(&p, 0, t), do_sim(&p, 1, t));
}

#[test]
fn wrong_number_of_sample_points_is_a_consistency_error() {
    let p = params(8, 3, 0, 3, false, 7);
    assert_eq!(do_sim(&p, 0, 2), Err(ConsistencyError::SeriesLengthMismatch));
    assert_eq!(do_sim(&p, 0, 4), Err(ConsistencyError::SeriesLengthMismatch));
    assert_eq!(do_sim(&p, 0, 0), Err(ConsistencyError::SeriesLengthMismatch));
    assert!(do_sim(&p, 0, 3).is_ok());
}

#[test]
fn run_that_ends_before_it_starts_records_nothing() {
    let p = params(8, 0, 1, 2, true, 0);
    assert_eq!(count_time_points(8, 0), 0);
    assert_eq!(do_sim(&p, 1, 0), Ok(Vec::new()));
    assert_eq!(do_sim(&p, 1, 1), Err(ConsistencyError::SeriesLengthMismatch));
    let results = run(p).unwrap();
    assert!(results.particles.is_empty());
    assert!(results.height_totals.is_empty());
    assert!(results.width_terms.is_empty());
}

#[test]
fn dry_run_counts_what_a_realization_records() {
    for (l, t_max, k, periodic) in
        [(8u32, 100u32, 1u32, true), (3, 77, 0, false), (100, 5, 4, true), (1, 50, 0, false)]
    {
        let p = params(l, t_max, k, 2, periodic, 9);
        let t = count_time_points(l, t_max);
        for seed in 0..2 {
            assert_eq!(do_sim(&p, seed, t).unwrap().len(), t);
        }
    }
}

#[test]
fn elapsed_time_grows_and_is_shared_by_all_seeds() {
    let p = params(8, 200, 1, 3, true, 0);
    let t = count_time_points(8, 200);
    let first = do_sim(&p, 0, t).unwrap();
    let second = do_sim(&p, 1, t).unwrap();
    let third = do_sim(&p, 2, t).unwrap();
    for j in 0..t {
        assert_eq!(first[j].particles, second[j].particles);
        assert_eq!(first[j].particles, third[j].particles);
        if j > 0 {
            assert!(first[j - 1].particles < first[j].particles);
        }
    }
    assert!(first[t - 1].particles >= 8 * 200);
    assert!(first[t - 2].particles < 8 * 200);
}

#[test]
fn mean_height_never_decreases_within_a_realization() {
    let p = params(32, 100, 2, 1, false, 5);
    let t = count_time_points(32, 100);
    let series = do_sim(&p, 0, t).unwrap();
    for j in 1..t {
        assert!(series[j - 1].height_sum <= series[j].height_sum);
    }
}

#[test]
fn without_neighbours_the_height_sum_is_the_particle_count() {
    let p = params(8, 50, 0, 1, true, 0);
    let t = count_time_points(8, 50);
    for s in do_sim(&p, 0, t).unwrap() {
        assert_eq!(s.height_sum, s.particles);
    }
}

#[test]
fn reduction_adds_heights_and_lists_spreads() {
    let data = vec![
        vec![sample(8, 12, 176), sample(16, 39, 439)],
        vec![sample(8, 17, 215), sample(16, 40, 100)],
        vec![sample(8, 13, 239), sample(16, 41, 0)],
    ];
    let r = reduce_ensemble(&data, 2).unwrap();
    assert_eq!(r.particles, vec![8, 16]);
    assert_eq!(r.height_totals, vec![42, 120]);
    assert_eq!(r.width_terms, vec![vec![176, 215, 239], vec![439, 100, 0]]);
}

#[test]
fn reduction_takes_the_elapsed_time_of_the_first_realization() {
    let data = vec![vec![sample(5, 1, 1)], vec![sample(9, 2, 2)]];
    let r = reduce_ensemble(&data, 1).unwrap();
    assert_eq!(r.particles, vec![5]);
}

#[test]
fn reduction_of_large_height_sums() {
    let data = vec![vec![sample(1, u64::MAX, u128::MAX)], vec![sample(1, u64::MAX, 7)]];
    let r = reduce_ensemble(&data, 1).unwrap();
    assert_eq!(r.height_totals, vec![2 * (u64::MAX as u128)]);
    assert_eq!(r.width_terms, vec![vec![u128::MAX, 7]]);
}

#[test]
fn reduction_of_no_realization_is_a_consistency_error() {
    let data: Vec<Vec<Sample>> = Vec::new();
    assert_eq!(reduce_ensemble(&data, 0).err(), Some(ConsistencyError::EmptyEnsemble));
    assert_eq!(reduce_ensemble(&data, 3).err(), Some(ConsistencyError::EmptyEnsemble));
}

#[test]
fn reduction_of_series_of_another_length_is_a_consistency_error() {
    let data = vec![vec![sample(8, 12, 176), sample(16, 39, 439)], vec![sample(8, 17, 215)]];
    assert_eq!(reduce_ensemble(&data, 2).err(), Some(ConsistencyError::SeriesLengthMismatch));
    assert_eq!(reduce_ensemble(&data, 1).err(), Some(ConsistencyError::SeriesLengthMismatch));
    let data = vec![vec![sample(8, 12, 176)]];
    assert_eq!(reduce_ensemble(&data, 2).err(), Some(ConsistencyError::SeriesLengthMismatch));
    assert!(reduce_ensemble(&data, 1).is_ok());
}

#[test]
fn results_hold_the_series_as_given() {
    let r = SimulationResults::new(vec![vec![1, 2], vec![3, 4]], vec![10, 20], vec![8, 16]);
    assert_eq!(r.width_terms, vec![vec![1, 2], vec![3, 4]]);
    assert_eq!(r.height_totals, vec![10, 20]);
    assert_eq!(r.particles, vec![8, 16]);
}

#[test]
fn ensemble_of_one_seed_is_its_realization() {
    let p = params(8, 300, 1, 1, true, 4);
    let t = count_time_points(8, 300);
    let series = do_sim(&p, 0, t).unwrap();
    let results = run(p).unwrap();
    assert_eq!(results.particles.len(), t);
    for j in 0..t {
        assert_eq!(results.particles[j], series[j].particles);
        assert_eq!(results.height_totals[j], series[j].height_sum as u128);
        assert_eq!(results.width_terms[j], vec![series[j].spread]);
        let width_alone = (series[j].spread as f64).sqrt() / 8.0;
        let width_averaged =
            results.width_terms[j].iter().map(|w| (*w as f64).sqrt() / 8.0).sum::<f64>() / 1.0;
        assert_eq!(width_alone, width_averaged);
        let mean_alone = series[j].height_sum as f64 / 8.0;
        let mean_averaged = results.height_totals[j] as f64 / 8.0 / 1.0;
        assert_eq!(mean_alone, mean_averaged);
    }
}

#[test]
fn ensemble_keeps_the_order_of_its_seeds() {
    let p = params(8, 10000, 1, 4, true, 0);
    let results = run(p).unwrap();
    assert_eq!(results.width_terms[0], vec![176, 215, 239, 224]);
    assert_eq!(results.width_terms[639], vec![156, 1196, 624, 720]);
    assert_eq!(results.height_totals[0], 54);
    assert_eq!(results.height_totals[639], 1158224);
    assert_eq!(results.particles[0], 8);
    assert_eq!(results.particles[639], 80075);
    for seed in 0..4u32 {
        let series = do_sim(&p, seed, 640).unwrap();
        for j in 0..640 {
            assert_eq!(results.width_terms[j][seed as usize], series[j].spread);
        }
    }
}

#[test]
fn standard_ensemble_on_eight_columns() {
    let p = params(8, 10000, 1, 4, true, 0);
    assert_eq!(file_name(&p), "L8_k1_seeds4_pbc1_iseed0.csv");
    let t = count_time_points(8, 10000);
    let results = run(p).unwrap();
    assert_eq!(results.particles.len(), t);
    assert_eq!(results.height_totals.len(), t);
    assert_eq!(results.width_terms.len(), t);
    let mut previous = 0.0f64;
    for j in 0..t {
        assert_eq!(results.width_terms[j].len(), 4);
        let width =
            results.width_terms[j].iter().map(|w| (*w as f64).sqrt() / 8.0).sum::<f64>() / 4.0;
        let height = results.height_totals[j] as f64 / 8.0 / 4.0;
        let elapsed = results.particles[j] as f64 / 8.0;
        assert!(width.is_finite() && width >= 0.0);
        assert!(height.is_finite() && height >= 0.0);
        assert!(elapsed.is_finite() && elapsed >= 0.0);
        assert!(elapsed > previous);
        previous = elapsed;
    }
    assert!(previous >= 10000.0);
}

#[test]
fn final_time_is_looked_up_by_length() {
    let table = vec![(8u32, 10000u32), (16, 20000), (8, 5)];
    assert_eq!(time_horizon(&table, 8), Some(10000));
    assert_eq!(time_horizon(&table, 16), Some(20000));
    assert_eq!(time_horizon(&table, 32), None);
    assert_eq!(time_horizon(&Vec::new(), 8), None);
}

#[test]
fn averages_as_fractions() {
    let r = SimulationResults::new(vec![vec![1, 2], vec![3, 4]], vec![10, 20], vec![8, 16]);
    assert_eq!(r.elapsed_time(1, 8), Some(Fraction { numerator: 16, denominator: 8 }));
    assert_eq!(r.elapsed_time(2, 8), None);
    assert_eq!(r.elapsed_time(0, 0), None);
    assert_eq!(r.mean_height(0, 8, 2), Some(Fraction { numerator: 10, denominator: 16 }));
    assert_eq!(r.mean_height(2, 8, 2), None);
    assert_eq!(r.mean_height(0, 0, 2), None);
    assert_eq!(r.mean_height(0, 8, 0), None);
    assert_eq!(r.height_variance(1, 0, 8), Some(Fraction { numerator: 3, denominator: 64 }));
    assert_eq!(r.height_variance(1, 1, 8), Some(Fraction { numerator: 4, denominator: 64 }));
    assert_eq!(r.height_variance(1, 2, 8), None);
    assert_eq!(r.height_variance(2, 0, 8), None);
    assert_eq!(r.height_variance(0, 0, 0), None);
    assert_eq!(
        r.mean_height(1, u32::MAX, u32::MAX),
        Some(Fraction { numerator: 20, denominator: (u32::MAX as u128) * (u32::MAX as u128) })
    );
}

#[test]
fn realization_is_seeded_with_the_negated_sum() {
    let p = params(8, 30, 1, 3, true, 7);
    let t = count_time_points(8, 30);
    let series = do_sim(&p, 2, t).unwrap();

    let mut rng = RandomStream::new(-(8 + 7 + 2));
    let mut s: Vec<u64> = vec![0; 8];
    let mut m = 0u64;
    let mut expected: Vec<Sample> = Vec::new();
    while m < 8 * 30 {
        let n = next_batch(m, 8);
        deposit_blocks(n, 8, &mut s, &mut rng, 1, true);
        m += n;
        expected.push(Sample {
            particles: m,
            height_sum: mean(&s).unwrap().numerator as u64,
            spread: variance(&s).unwrap().numerator,
        });
    }
    assert_eq!(series, expected);
}

#[test]
fn sample_holds_the_sums_of_the_surface() {
    let p = params(4, 1, 0, 1, false, 0);
    let series = do_sim(&p, 0, 1).unwrap();
    let mut rng = RandomStream::new(-4);
    let mut s: Vec<u64> = vec![0; 4];
    deposit_blocks(4, 4, &mut s, &mut rng, 0, false);
    let sum: u64 = s.iter().sum();
    let squares: u64 = s.iter().map(|h| h * h).sum();
    assert_eq!(series, vec![sample(4, sum, (4 * squares - sum * sum) as u128)]);
    assert_eq!(sum, 4);
}
