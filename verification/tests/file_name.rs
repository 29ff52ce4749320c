use ballistic_deposition::ini_parser::InputParams;
use ballistic_deposition::sim::csv_writer::{file_name, push_decimal};
use ballistic_deposition::sim::SimulationParams;

fn named(length: u32, k: u32, seeds: u32, periodic_bc: bool, init_seed: u32) -> String {
    let sweep = InputParams {
        lengths: Vec::new(),
        k_neighbours: Vec::new(),
        seeds: Vec::new(),
        periodic_bc,
        init_seed,
    };
    file_name(&SimulationParams::new(sweep, (length, 10), k, seeds).unwrap())
}

#[test]
fn file_name_holds_every_parameter() {
    assert_eq!(named(8, 1, 4, true, 0), "L8_k1_seeds4_pbc1_iseed0.csv");
    assert_eq!(named(1024, 12, 100, false, 987654), "L1024_k12_seeds100_pbc0_iseed987654.csv");
    assert_eq!(named(1, 0, 1, false, 2147483646), "L1_k0_seeds1_pbc0_iseed2147483646.csv");
}

#[test]
fn numbers_are_written_in_base_ten() {
    for (n, text) in [
        (0u32, "0"),
        (7, "7"),
        (10, "10"),
        (99, "99"),
        (100, "100"),
        (1203, "1203"),
        (4294967295, "4294967295"),
    ] {
        let mut out = String::from("x");
        push_decimal(&mut out, n);
        assert_eq!(out, format!("x{}", text));
    }
}
