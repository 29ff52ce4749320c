use ballistic_deposition::ini_parser::{
    chars_of, is_whitespace, parse_config_array, parse_config_option, parse_config_u32,
    parse_entry, parse_list, parse_number, read_option, spells, ConfigError, InputParams,
};
use configparser::ini::Ini;

fn config(text: &str) -> Ini {
    let mut ini = Ini::new();
    ini.read(String::from(text)).unwrap();
    ini
}

fn standard() -> Ini {
    config(
        "[simulation_params]\n\
         substrate_lengths = 8, 16,32\n\
         k_neighbours = 0, 1\n\
         seeds = 4\n\
         [options]\n\
         periodic_bc = yes\n\
         init_seed = 12\n",
    )
}

fn chars(text: &str) -> Vec<char> {
    text.chars().collect()
}

#[test]
fn sweep_is_read_from_the_configuration() {
    let p = InputParams::new(&standard()).unwrap();
    assert_eq!(p.lengths, vec![8, 16, 32]);
    assert_eq!(p.k_neighbours, vec![0, 1]);
    assert_eq!(p.seeds, vec![4]);
    assert!(p.periodic_bc);
    assert_eq!(p.init_seed, 12);
}

#[test]
fn list_is_read_from_its_section_and_key() {
    let ini = standard();
    assert_eq!(
        parse_config_array(&ini, "simulation_params", "substrate_lengths"),
        Ok(vec![8, 16, 32])
    );
    assert_eq!(parse_config_array(&ini, "simulation_params", "seeds"), Ok(vec![4]));
    assert_eq!(parse_config_array(&ini, "options", "init_seed"), Ok(vec![12]));
}

#[test]
fn missing_entries_are_reported() {
    let ini = standard();
    assert_eq!(
        parse_config_array(&ini, "simulation_params", "widths"),
        Err(ConfigError::MissingEntry)
    );
    assert_eq!(parse_config_array(&ini, "nowhere", "seeds"), Err(ConfigError::MissingEntry));
    assert_eq!(parse_config_option(&ini, "options", "verbose"), Err(ConfigError::MissingEntry));
    assert_eq!(parse_config_u32(&ini, "options", "last_seed"), Err(ConfigError::MissingEntry));
}

#[test]
fn sweep_with_a_missing_entry_is_refused() {
    let ini = config(
        "[simulation_params]\n\
         substrate_lengths = 8\n\
         k_neighbours = 1\n\
         [options]\n\
         periodic_bc = yes\n\
         init_seed = 12\n",
    );
    assert_eq!(InputParams::new(&ini).err(), Some(ConfigError::MissingEntry));
    let ini = config(
        "[simulation_params]\n\
         substrate_lengths = 8\n\
         k_neighbours = 1\n\
         seeds = 2\n\
         [options]\n\
         init_seed = x\n",
    );
    assert_eq!(InputParams::new(&ini).err(), Some(ConfigError::MissingEntry));
}

#[test]
fn sweep_with_a_malformed_seed_is_refused() {
    for seed in ["twelve", "-1", "1.5", "4294967296", "1 2", "0x10"] {
        let ini = config(&format!(
            "[simulation_params]\n\
             substrate_lengths = 8\n\
             k_neighbours = 1\n\
             seeds = 2\n\
             [options]\n\
             periodic_bc = no\n\
             init_seed = {}\n",
            seed
        ));
        assert_eq!(
            parse_config_u32(&ini, "options", "init_seed"),
            Err(ConfigError::MalformedNumber)
        );
        assert_eq!(InputParams::new(&ini).err(), Some(ConfigError::MalformedNumber));
    }
}

#[test]
fn number_is_read_from_its_section_and_key() {
    let ini = config("[options]\ninit_seed = 4294967295\nother = +7\nthird = 007\n");
    assert_eq!(parse_config_u32(&ini, "options", "init_seed"), Ok(4294967295));
    assert_eq!(parse_config_u32(&ini, "options", "other"), Ok(7));
    assert_eq!(parse_config_u32(&ini, "options", "third"), Ok(7));
}

#[test]
fn accepted_spellings_of_true_and_false() {
    for word in ["true", "True", "t", "yes", "Yes", "y"] {
        assert_eq!(read_option(word), Some(true));
        let ini = config(&format!("[options]\nperiodic_bc = {}\n", word));
        assert_eq!(parse_config_option(&ini, "options", "periodic_bc"), Ok(true));
    }
    for word in ["false", "False", "f", "no", "No", "n"] {
        assert_eq!(read_option(word), Some(false));
        let ini = config(&format!("[options]\nperiodic_bc = {}\n", word));
        assert_eq!(parse_config_option(&ini, "options", "periodic_bc"), Ok(false));
    }
}

#[test]
fn other_spellings_count_as_false() {
    for word in ["TRUE", "on", "1", "0", "yes!", "tr", "truee", "", " true", "Y", "N", "nope"] {
        assert_eq!(read_option(word), None);
    }
    for word in ["TRUE", "on", "1", "maybe"] {
        let ini = config(&format!("[options]\nperiodic_bc = {}\n", word));
        assert_eq!(parse_config_option(&ini, "options", "periodic_bc"), Ok(false));
    }
}

#[test]
fn entries_that_are_no_numbers_count_as_zero() {
    assert_eq!(
        parse_list(&chars("8, x, , 16, -3, +4, 4294967296,4294967295, 1 2,3.0")),
        vec![8, 0, 0, 16, 0, 4, 0, 4294967295, 0, 0]
    );
    let ini = config("[simulation_params]\nseeds = 1, two, 3\n");
    assert_eq!(parse_config_array(&ini, "simulation_params", "seeds"), Ok(vec![1, 0, 3]));
}

#[test]
fn commas_separate_the_entries() {
    assert_eq!(parse_list(&chars("")), vec![0]);
    assert_eq!(parse_list(&chars(",")), vec![0, 0]);
    assert_eq!(parse_list(&chars("5")), vec![5]);
    assert_eq!(parse_list(&chars("5,")), vec![5, 0]);
    assert_eq!(parse_list(&chars(",5")), vec![0, 5]);
    assert_eq!(parse_list(&chars("1,2,3")), vec![1, 2, 3]);
    assert_eq!(parse_list(&chars(" 1 ,\t2\t, 3\n")), vec![1, 2, 3]);
}

#[test]
fn list_is_read_as_std_splits_trims_and_parses() {
    for text in ["8, 16,32", "", ",", "a,,b", " 7 , +8 , -9 , 010 ", "1\u{a0},\u{2003}2\u{3000}", "99999999999, 5"] {
        let expected: Vec<u32> = text.split(',').map(|v| v.trim().parse().unwrap_or(0)).collect();
        assert_eq!(parse_list(&chars(text)), expected);
    }
}

#[test]
fn white_space_around_an_entry_is_ignored() {
    assert_eq!(parse_entry(&chars("  42  ")), 42);
    assert_eq!(parse_entry(&chars("\t\n42\r\n")), 42);
    assert_eq!(parse_entry(&chars("\u{a0}42\u{2028}")), 42);
    assert_eq!(parse_entry(&chars("4 2")), 0);
    assert_eq!(parse_entry(&chars("   ")), 0);
    assert_eq!(parse_entry(&chars("")), 0);
    assert_eq!(parse_entry(&chars("+")), 0);
    assert_eq!(parse_entry(&chars("+ 4")), 0);
}

#[test]
fn white_space_is_what_unicode_says() {
    for code in 0..0x3100u32 {
        if let Some(c) = char::from_u32(code) {
            assert_eq!(is_whitespace(c), c.is_whitespace());
        }
    }
    assert!(!is_whitespace('\u{feff}'));
    assert!(!is_whitespace('\u{200b}'));
}

#[test]
fn numbers_are_unsigned_decimals_of_thirty_two_bits() {
    let text = chars("x+123y");
    assert_eq!(parse_number(&text, 1, 5), Some(123));
    assert_eq!(parse_number(&text, 2, 5), Some(123));
    assert_eq!(parse_number(&text, 2, 4), Some(12));
    assert_eq!(parse_number(&text, 0, 5), None);
    assert_eq!(parse_number(&text, 1, 6), None);
    assert_eq!(parse_number(&text, 1, 2), None);
    assert_eq!(parse_number(&text, 3, 3), None);
    for word in ["0", "00", "4294967295", "4294967296", "42949672950", "+0", "++1", "-0", "1_000", "٣"] {
        let expected: Option<u32> = word.parse().ok();
        let letters = chars(word);
        assert_eq!(parse_number(&letters, 0, letters.len()), expected);
    }
}

#[test]
fn characters_of_a_string() {
    assert_eq!(chars_of(""), Vec::<char>::new());
    assert_eq!(chars_of("a,b"), vec!['a', ',', 'b']);
    assert_eq!(chars_of("é∑"), vec!['é', '∑']);
    assert!(spells(&chars("yes"), "yes"));
    assert!(!spells(&chars("yes"), "Yes"));
    assert!(!spells(&chars("yes"), "ye"));
    assert!(!spells(&chars("ye"), "yes"));
    assert!(spells(&chars(""), ""));
}
