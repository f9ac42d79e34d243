use npm_updates::options::{
    parse_concurrency, parse_number, Options, OptionsError, DEFAULT_CONCURRENCY,
};

fn args(list: &[&str]) -> Vec<String> {
    list.iter().map(|s| s.to_string()).collect()
}

#[test]
fn defaults_are_ten_workers_and_no_rewrite() {
    assert_eq!(DEFAULT_CONCURRENCY, 10);
    assert_eq!(Options::new(&args(&["prog"])), Ok(Options { concurrency: 10, write: false }));
    assert_eq!(Options::new(&vec![]), Ok(Options { concurrency: 10, write: false }));
}

#[test]
fn flags_are_read_in_any_order() {
    assert_eq!(Options::new(&args(&["prog", "-c", "4"])), Ok(Options { concurrency: 4, write: false }));
    assert_eq!(Options::new(&args(&["prog", "-w"])), Ok(Options { concurrency: 10, write: true }));
    assert_eq!(Options::new(&args(&["prog", "-w", "-c", "1"])), Ok(Options { concurrency: 1, write: true }));
    assert_eq!(Options::new(&args(&["prog", "-c", "25", "-w"])), Ok(Options { concurrency: 25, write: true }));
}

#[test]
fn the_last_concurrency_decides() {
    assert_eq!(
        Options::new(&args(&["prog", "-c", "4", "-c", "7"])),
        Ok(Options { concurrency: 7, write: false })
    );
}

#[test]
fn a_trailing_flag_without_value_is_ignored() {
    assert_eq!(Options::new(&args(&["prog", "-c"])), Ok(Options { concurrency: 10, write: false }));
    assert_eq!(Options::new(&args(&["prog", "-c", "3", "-c"])), Ok(Options { concurrency: 3, write: false }));
}

#[test]
fn zero_and_negative_concurrency_are_refused() {
    for bad in ["0", "-1", "-0", "00", "+0"] {
        assert_eq!(Options::new(&args(&["prog", "-c", bad])), Err(OptionsError::InvalidConcurrency));
    }
}

#[test]
fn a_concurrency_that_is_no_number_is_refused() {
    for bad in ["", "ten", "1.5", " 3", "3 ", "1_000", "0x10", "-w", "-c", "+", "٣", "99999999999999999999999999"] {
        assert_eq!(Options::new(&args(&["prog", "-c", bad])), Err(OptionsError::InvalidConcurrency));
    }
    assert_eq!(Options::new(&args(&["prog", "-c", "x", "-c", "3"])), Err(OptionsError::InvalidConcurrency));
    assert_eq!(Options::new(&args(&["prog", "-c", "3", "-c", "x"])), Err(OptionsError::InvalidConcurrency));
}

#[test]
fn numbers_are_read_as_the_standard_library_reads_them() {
    for text in [
        "0", "1", "10", "007", "+5", "+0", "+", "", "-", "-5", "++5", "5+", "12a", "a12", " 1", "1 ",
        "18446744073709551615", "18446744073709551616", "4294967295", "4294967296",
        "000000000000000000000000000001", "99999999999999999999", "١٢",
    ] {
        assert_eq!(parse_number(text), text.parse::<usize>().ok());
    }
    assert_eq!(parse_number("42"), Some(42));
    assert_eq!(parse_number(&usize::MAX.to_string()), Some(usize::MAX));
}

#[test]
fn a_number_of_workers_is_positive() {
    assert_eq!(parse_concurrency("1"), Some(1));
    assert_eq!(parse_concurrency("+12"), Some(12));
    assert_eq!(parse_concurrency("0"), None);
    assert_eq!(parse_concurrency("000"), None);
    assert_eq!(parse_concurrency("-3"), None);
    assert_eq!(parse_concurrency(""), None);
}
