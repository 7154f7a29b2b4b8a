use ised::instrument::{parse_cycles, uses_hold_space, wrap_script, Cycle};
use sed_rs::Sed;

fn run_wrapped(script: &str, input: &str) -> Vec<Cycle> {
    let wrapped = wrap_script(script);
    let stdout = Sed::new(&wrapped).unwrap().quiet(true).eval(input).unwrap();
    parse_cycles(&stdout)
}

fn real_sed_output(script: &str, input: &str) -> String {
    sed_rs::eval(script, input).unwrap()
}

#[test]
fn hold_space_detection() {
    assert!(uses_hold_space("H;s/./&&/"));
    assert!(uses_hold_space("1h;2,$G"));
    assert!(!uses_hold_space("s/hello/world/"));
    assert!(!uses_hold_space("s/gone/here/")); // 'g'/'h' inside words, not commands
}

#[test]
fn wrap_and_parse_roundtrip_multiline_hold() {
    let cycles = run_wrapped("H;s/./&&/", "a\nb\nc\n");
    assert_eq!(cycles.len(), 3);
    // H appends pattern space to hold *before* the s/// in this script runs.
    assert_eq!(cycles[0].pattern_space, "aa");
    assert!(cycles[0].printed);
    assert_eq!(cycles[0].end_line, 1);
    assert_eq!(cycles[0].hold_space, "\na");
    assert_eq!(cycles[1].pattern_space, "bb");
    assert_eq!(cycles[1].end_line, 2);
    assert_eq!(cycles[1].hold_space, "\na\nb");
    assert_eq!(cycles[2].pattern_space, "cc");
    assert_eq!(cycles[2].end_line, 3);
    assert_eq!(cycles[2].hold_space, "\na\nb\nc");
}

#[test]
fn delete_suppresses_output_but_hold_still_tracked() {
    // classic "join lines with a comma" idiom
    let script = "1h\n1!H\n$!d\n$ {\n    x\n    s/\\n/, /g\n}\n";
    let cycles = run_wrapped(script, "apple\nbanana\ncherry\n");
    assert_eq!(cycles.len(), 3);

    assert!(!cycles[0].printed);
    assert_eq!(cycles[0].end_line, 1);
    assert_eq!(cycles[0].hold_space, "apple");

    assert!(!cycles[1].printed);
    assert_eq!(cycles[1].end_line, 2);
    assert_eq!(cycles[1].hold_space, "apple\nbanana");

    assert!(cycles[2].printed);
    assert_eq!(cycles[2].end_line, 3);
    assert_eq!(cycles[2].pattern_space, "apple, banana, cherry");

    assert_eq!(
        real_sed_output(script, "apple\nbanana\ncherry\n"),
        "apple, banana, cherry\n"
    );
}

#[test]
fn n_merges_pairs_of_lines_into_one_cycle() {
    // classic "swap adjacent lines" idiom, with groups in extended syntax
    let script = "$!N\ns/(.*)\\n(.*)/\\2\\n\\1/";
    let cycles = run_wrapped(script, "a\nb\nc\nd\n");

    // lines 1-2 merge into one cycle (N), likewise 3-4.
    assert_eq!(cycles.len(), 2);
    assert_eq!(cycles[0].end_line, 2);
    assert_eq!(cycles[0].pattern_space, "b\na");
    assert_eq!(cycles[1].end_line, 4);
    assert_eq!(cycles[1].pattern_space, "d\nc");

    assert_eq!(real_sed_output(script, "a\nb\nc\nd\n"), "b\na\nd\nc\n");
}

#[test]
fn d_upper_loops_without_reading_new_line() {
    // `$!N;D` slides a one-line window across the whole file without ever
    // printing anything: every D starts over without reading, so all three
    // lines end up in a single cycle.
    let script = "$!N\nD";
    let cycles = run_wrapped(script, "a\nb\nc\n");

    assert_eq!(cycles.len(), 1);
    assert!(!cycles[0].printed);
    assert_eq!(cycles[0].end_line, 3);

    assert_eq!(real_sed_output(script, "a\nb\nc\n"), "");
}

#[test]
fn n_at_eof_under_forced_dash_n_is_a_known_gap() {
    // Plain `N;D` relies on sed printing the pattern space and ending when
    // `N` finds no next line, which it does not do in quiet mode. So the last
    // cycle is never reported, though the script alone prints the last line.
    let script = "N\nD";
    let cycles = run_wrapped(script, "a\nb\nc\n");
    assert!(cycles.is_empty());

    assert_eq!(real_sed_output(script, "a\nb\nc\n"), "c\n");
}
