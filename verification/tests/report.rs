use npm_updates::report::changes_str;
use npm_updates::version::{Pkg, PkgChange};

fn change(name: &str, declared: &str, to: &str) -> PkgChange {
    PkgChange { to: to.to_string(), pkg: Pkg::parse(name.to_string(), declared).unwrap() }
}

#[test]
fn empty_change_set_renders_as_nothing() {
    assert_eq!(changes_str(&vec![]), "");
}

#[test]
fn left_pad_report_line() {
    assert_eq!(changes_str(&vec![change("left-pad", "^1.0.0", "1.3.0")]), "left-pad: ^1.0.0 => ^1.3.0\n");
}

#[test]
fn columns_are_as_wide_as_the_longest_entry() {
    let changes = vec![
        change("a", "^1.0.0", "1.3.0"),
        change("left-pad", "1.0", "2.0"),
        change("chalk", "~10.11.12", "10.11.13"),
    ];
    let expected = "a:        ^1.0.0    => ^1.3.0\n\
                    left-pad: 1.0       => 2.0\n\
                    chalk:    ~10.11.12 => ~10.11.13\n";
    assert_eq!(changes_str(&changes), expected);
}

#[test]
fn widths_count_characters_not_bytes() {
    let changes = vec![change("né", "^1.0", "1.1"), change("abc", "2", "3")];
    assert_eq!(changes_str(&changes), "né:  ^1.0 => ^1.1\nabc: 2    => 3\n");
}

#[test]
fn the_prefix_is_never_dropped_or_changed() {
    let text = changes_str(&vec![change("x", "~0.1.0", "0.2.0"), change("y", "0.1.0", "0.2.0")]);
    assert_eq!(text, "x: ~0.1.0 => ~0.2.0\ny: 0.1.0  => 0.2.0\n");
}
