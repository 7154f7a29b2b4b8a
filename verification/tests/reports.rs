use ised::instrument::parse_cycles;

#[test]
fn printed_and_deleted_cycles_are_read_back() {
    let stdout = "\u{1}P\u{1}a\u{2}b\n2\n\u{1}H\u{1}\n\u{1}X\u{1}\n10\n\u{1}H\u{1}x\u{2}\u{2}y\n";
    let cycles = parse_cycles(stdout);
    assert_eq!(cycles.len(), 2);
    assert_eq!(cycles[0].pattern_space, "a\nb");
    assert!(cycles[0].printed);
    assert_eq!(cycles[0].end_line, 2);
    assert_eq!(cycles[0].hold_space, "");
    assert_eq!(cycles[1].pattern_space, "");
    assert!(!cycles[1].printed);
    assert_eq!(cycles[1].end_line, 10);
    assert_eq!(cycles[1].hold_space, "x\n\ny");
}

#[test]
fn output_of_the_script_is_passed_over() {
    let stdout = "hello\n\u{1}P\u{1}a\nworld\n\n1\n-7\n\u{1}H\u{1}\nbye";
    let cycles = parse_cycles(stdout);
    assert_eq!(cycles.len(), 1);
    assert_eq!(cycles[0].pattern_space, "a");
    assert_eq!(cycles[0].end_line, 1);
}

#[test]
fn a_number_of_the_script_is_taken_for_a_line_number() {
    let cycles = parse_cycles("\u{1}P\u{1}a\n1\n42\n\u{1}H\u{1}\n");
    assert_eq!(cycles[0].end_line, 42);
    let cycles = parse_cycles("\u{1}P\u{1}a\n+007\n\u{1}H\u{1}\n");
    assert_eq!(cycles[0].end_line, 7);
}

#[test]
fn a_cycle_without_a_line_number_is_left_out() {
    let cycles = parse_cycles("\u{1}P\u{1}a\n\u{1}H\u{1}h\n3\n\u{1}H\u{1}k\n");
    assert_eq!(cycles.len(), 1);
    // the pattern space belonged to the cycle that was left out
    assert_eq!(cycles[0].pattern_space, "");
    assert!(!cycles[0].printed);
    assert_eq!(cycles[0].hold_space, "k");
    assert_eq!(cycles[0].end_line, 3);
}

#[test]
fn numbers_have_to_fit() {
    let largest = usize::MAX.to_string();
    let too_large = format!("{}0", largest);
    for (number, expected) in [
        (largest.as_str(), Some(usize::MAX)),
        (too_large.as_str(), None),
        ("18446744073709551616", None),
        ("0", Some(0)),
        ("+", None),
        ("", None),
        ("1 ", None),
        (" 1", None),
        ("1_0", None),
        ("++1", None),
        ("0000000000000000000000000000009", Some(9)),
    ] {
        let cycles = parse_cycles(&format!("{}\n\u{1}H\u{1}", number));
        assert_eq!(cycles.first().map(|c| c.end_line), expected, "{:?}", number);
    }
}

#[test]
fn nothing_comes_of_nothing() {
    assert!(parse_cycles("").is_empty());
    assert!(parse_cycles("\u{1}P\u{1}a\n1\n").is_empty());
    assert!(parse_cycles("\u{1}P\n\u{1}H\n").is_empty());
}

#[test]
fn a_placeholder_in_the_input_comes_back_as_a_newline() {
    let cycles = parse_cycles("\u{1}P\u{1}a\u{2}b\n1\n\u{1}H\u{1}\n");
    assert_eq!(cycles[0].pattern_space, "a\nb");
}
