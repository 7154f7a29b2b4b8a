use ised::error::SessionError;
use ised::instrument::{parse_cycles, wrap_script, Cycle};
use ised::runner::run_full;
use ised::session::{group_cycles, open_session, Session};
use ised::state::Block;

fn lines(s: &str) -> Vec<String> {
    s.lines().map(str::to_string).collect()
}

#[test]
fn swap_adjacent_lines_blocks_and_accepts_correctly() {
    let script = r"$!N
s/(.*)\n(.*)/\2\n\1/";
    let mut session = Session::new(lines("a\nb\nc\nd\n"), script, false);

    assert_eq!(session.block_count().unwrap(), 2);

    let b0 = session.get(0).unwrap();
    assert_eq!((b0.start, b0.end), (0, 1));
    assert_eq!(b0.pattern_after, "b\na");
    assert!(b0.printed);

    let b1 = session.get(1).unwrap();
    assert_eq!((b1.start, b1.end), (2, 3));
    assert_eq!(b1.pattern_after, "d\nc");

    // accept everything
    let mut output = String::new();
    for i in 0..session.block_count().unwrap() {
        if !session.printed(i) {
            continue;
        }
        output.push_str(session.cached_pattern(i).unwrap());
        output.push('\n');
    }
    assert_eq!(output, "b\na\nd\nc\n");
}

fn cycle(end_line: usize, hold_space: &str) -> Cycle {
    Cycle {
        pattern_space: format!("p{}", end_line),
        printed: end_line % 2 == 1,
        hold_space: hold_space.to_string(),
        end_line,
    }
}

#[test]
fn cycles_become_blocks() {
    let blocks = group_cycles(vec![cycle(1, "x"), cycle(4, "y"), cycle(5, "")], 5, true).unwrap();
    let ranges: Vec<(usize, usize)> = blocks.iter().map(|b| (b.start, b.end)).collect();
    assert_eq!(ranges, [(0, 0), (1, 3), (4, 4)]);
    assert_eq!(blocks[1].pattern_after, "p4");
    assert!(!blocks[1].printed);
    assert!(blocks[2].printed);
    assert_eq!(blocks[1].hold_after.as_deref(), Some("y"));
    let blocks = group_cycles(vec![cycle(2, "x")], 2, false).unwrap();
    assert_eq!(blocks[0].hold_after, None);
    assert!(group_cycles(vec![], 0, true).unwrap().is_empty());
}

#[test]
fn a_line_number_has_to_advance() {
    let error = group_cycles(vec![cycle(2, ""), cycle(2, ""), cycle(1, "")], 3, false).unwrap_err();
    assert!(matches!(error, SessionError::LineNotAdvanced { prev_end: 2, end_line: 2 }));
    assert_eq!(
        error.message(),
        "sed's reported line number didn't advance (2 -> 2) — malformed instrumentation"
    );
    let error = group_cycles(vec![cycle(0, "")], 0, false).unwrap_err();
    assert!(matches!(error, SessionError::LineNotAdvanced { prev_end: 0, end_line: 0 }));
}

#[test]
fn an_early_exit_is_an_error() {
    let mut session = Session::new(lines("a\nb\nc\n"), "2q", false);
    let error = session.block_count().unwrap_err();
    assert!(matches!(error, SessionError::EarlyExit { consumed: 1, total: 3 }));
    assert_eq!(
        error.message(),
        "script only consumed 1 of 3 input lines — early exit (q/Q) isn't supported yet"
    );
    // a failed run leaves the session as it was
    assert!(session.get(0).is_err());
    assert!(session.printed(0));
    assert_eq!(session.cached_pattern(0), None);
}

#[test]
fn an_exit_code_does_not_end_the_process() {
    for (script, consumed) in [("q5", 0), ("Q5", 0), ("2q 1", 1), ("1{p;2q3};2{p;Q 3}", 1), ("q0", 0), ("2Q", 1)] {
        let mut session = Session::new(lines("a\nb\nc\n"), script, false);
        let error = session.block_count().unwrap_err();
        assert!(matches!(error, SessionError::EarlyExit { consumed: c, total: 3 } if c == consumed), "{}", script);
    }
    // a command that is not reached does not matter
    for script in ["/never/q7", "9Q3", "s/a/A/;/x/{p;q1}"] {
        let mut session = Session::new(lines("a\nb\n"), script, false);
        assert_eq!(session.block_count().unwrap(), 2, "{}", script);
    }
    let mut session = Session::new(lines("a\nb\n"), "s/a/A/;/x/{p;q1}", false);
    assert_eq!(session.get(0).unwrap().pattern_after, "A");
    for script in ["s/q5/x/", "y/q5/Q3/", "a q5", "# q5", "/q5/p"] {
        let mut session = Session::new(lines("a\nb\n"), script, false);
        assert_eq!(session.block_count().unwrap(), 2, "{}", script);
    }
    let mut session = Session::new(lines("a\n"), "q5;s/[/x/", false);
    assert!(matches!(session.block_count(), Err(SessionError::ParseScript(_))));
}

/// Commands of every sort come through as they were read.
#[test]
fn a_run_is_that_of_sed() {
    let input = "one 1\ntwo 2\nthree 3\nfour 4\n";
    for script in [
        "s/o/0/2;s/e/E/gI;s/r/R/p",
        "2,3{s/(t)(.)/\\2\\1/;/3/!y/abcdef/ABCDEF/}",
        ":a;s/^(.{0,8})$/\\1./;ta",
        "1!G;h;$!d",
        "2i before\n3a after\n=;l;P",
        "0~2{N;s/\\n/+/};$!{n;z}",
        "/two/,/four/T;F;x;H;g;s/$/!/w /dev/null",
        "r /dev/null\nR /dev/null\nw /dev/null\nW /dev/null",
        "2e printf hi",
        "3q;4Q",
        "v 4.2;2!b end;D;:end;t;c changed",
    ] {
        let wrapped = wrap_script(script);
        let stdout = sed_rs::Sed::new(&wrapped).unwrap().quiet(true).eval(input).unwrap();
        let want: Vec<String> = parse_cycles(&stdout).iter().map(|c| format!("{:?}", c)).collect();
        let have: Vec<String> =
            run_full(&wrapped, &lines(input)).unwrap().iter().map(|c| format!("{:?}", c)).collect();
        assert_eq!(have, want, "{}", script);
    }
}

#[test]
fn d_upper_on_one_line_deletes_it_whatever_came_before() {
    let cycles = run_full(&wrap_script("H;s/a/b/;D"), &lines("aa\nc\n")).unwrap();
    assert_eq!(cycles.len(), 2);
    assert_eq!(cycles[0].pattern_space, "ba");
    assert!(!cycles[0].printed);
    assert_eq!(cycles[0].hold_space, "\naa");
    assert_eq!(cycles[1].hold_space, "\naa\nc");
    // the substitution succeeds every time
    let cycles = run_full(&wrap_script("s/^/x/;D"), &lines("a\nb\n")).unwrap();
    assert_eq!(cycles.len(), 2);
    assert_eq!(cycles[1].pattern_space, "xb");
    // a `t` behind the restart sees no substitution from before it
    let cycles = run_full(&wrap_script("t end;$!N;/a/D;:end;p"), &lines("a\nb\nc\n")).unwrap();
    assert_eq!(cycles.len(), 1);
    assert_eq!(cycles[0].pattern_space, "b\nc");
    assert!(cycles[0].printed);
}

#[test]
fn files_and_programs_do_not_stand_in_the_way() {
    for script in ["s/foo/bar/", "r /no/such/file", "1!G;h;$!d", "e true"] {
        let mut session = Session::new(lines("a\nb\n"), script, false);
        assert_eq!(session.block_count().unwrap(), 2, "{}", script);
    }
}

#[test]
fn n_at_the_end_of_the_input_loses_the_last_cycle() {
    let mut session = Session::new(lines("a\nb\nc\n"), "N", false);
    assert!(matches!(
        session.block_count().unwrap_err(),
        SessionError::EarlyExit { consumed: 2, total: 3 }
    ));
}

#[test]
fn a_text_that_is_no_script_is_refused() {
    let mut session = Session::new(lines("a\n"), "s/[/x/", false);
    let error = session.block_count().unwrap_err();
    assert!(matches!(error, SessionError::ParseScript(_)));
    assert_eq!(error.message(), "failed to parse sed script");
    assert!(matches!(session.get(0), Err(SessionError::ParseScript(_))));
}

#[test]
fn a_script_can_fail_while_it_runs() {
    let script = "w /no/such/directory/file";
    assert!(sed_rs::Sed::new(&wrap_script(script)).is_ok());
    let error = run_full(&wrap_script(script), &lines("a\n")).unwrap_err();
    assert!(matches!(error, SessionError::RunScript(_)));
    assert_eq!(error.message(), "sed script failed");
}

#[test]
fn there_are_only_so_many_blocks() {
    let mut session = Session::new(lines("a\nb\n"), "s/a/A/", false);
    let error = session.get(2).unwrap_err();
    assert!(matches!(error, SessionError::NoSuchBlock { index: 2, count: 2 }));
    assert_eq!(error.message(), "no block 2 among 2");
    assert_eq!(session.get(1).unwrap().pattern_after, "b");
}

#[test]
fn before_the_run_there_is_nothing_to_see() {
    let mut session = Session::new(lines("a\nb\n"), "2d", false);
    assert_eq!(session.known_blocks(), 0);
    assert!(session.printed(1));
    assert_eq!(session.cached_pattern(0), None);
    assert!(!session.hold_active());
    session.ensure_computed().unwrap();
    assert_eq!(session.known_blocks(), 2);
    assert!(session.printed(0));
    assert!(!session.printed(1));
    assert!(session.printed(2));
    assert_eq!(session.cached_pattern(1), Some("b"));
    assert_eq!(session.cached_pattern(2), None);
}

#[test]
fn the_script_runs_once() {
    let now = std::time::SystemTime::now();
    let stamp = now.duration_since(std::time::UNIX_EPOCH).unwrap().as_nanos();
    let path = format!("/tmp/ised_{}", stamp);
    let mut session = Session::new(lines("a\nb\n"), &format!("w {}", path), false);
    assert_eq!(session.block_count().unwrap(), 2);
    assert_eq!(session.block_count().unwrap(), 2);
    assert_eq!(session.get(1).unwrap().pattern_after, "b");
    // a second run would have written the lines a second time
    assert_eq!(sed_rs::eval(&format!("r {}", path), "x\n").unwrap(), "x\na\nb\n");
}

#[test]
fn the_hold_space_is_kept_where_it_is_in_use() {
    let mut session = open_session("a\nb\n", "H").unwrap();
    assert!(session.hold_active());
    assert_eq!(session.get(0).unwrap().hold_after.as_deref(), Some("\na"));
    assert_eq!(session.get(1).unwrap().hold_after.as_deref(), Some("\na\nb"));
    let mut session = open_session("a\nb\n", "p").unwrap();
    assert!(!session.hold_active());
    assert_eq!(session.get(0).unwrap().hold_after, None);
}

#[test]
fn an_input_without_lines_has_no_session() {
    assert!(open_session("", "p").is_none());
    assert!(open_session("\n", "p").is_some());
}

#[test]
fn addresses_of_the_last_line_see_the_whole_input() {
    let mut session = open_session("a\r\nb\nc", "$!d").unwrap();
    assert_eq!(session.block_count().unwrap(), 3);
    assert!(!session.printed(0));
    assert!(!session.printed(1));
    assert!(session.printed(2));
    assert_eq!(session.cached_pattern(0), Some("a"));
}

#[test]
fn records_show_a_block_before_and_after() {
    let mut session = open_session("a\nb\nc\n", "$!N;s/\\n/+/;h").unwrap();
    session.ensure_computed().unwrap();
    assert_eq!(session.known_blocks(), 2);
    let record = session.record(0);
    assert_eq!(record.input, "a\nb");
    assert_eq!(record.pattern_after, "a+b");
    assert!(record.printed);
    assert_eq!(record.hold_after.as_deref(), Some("a+b"));
    assert_eq!(session.raw_input(0), "a\nb");
    assert_eq!(session.line_range(0), (1, 2));
    assert_eq!(session.raw_input(1), "c");
    assert_eq!(session.line_range(1), (3, 3));
}

#[test]
fn a_block_finds_its_lines() {
    let block = Block {
        start: 1,
        end: 2,
        pattern_after: String::new(),
        printed: true,
        hold_after: None,
    };
    assert_eq!(block.raw_input(&lines("a\nb\nc\nd\n")), "b\nc");
}
