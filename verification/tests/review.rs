use ised::review::{
    advance_past_noops, find_first_diff, is_changed, reconstruct_output, result_text, Key, Review, Step,
};
use ised::session::{open_session, Session};

fn ready(input: &str, script: &str) -> Session {
    let mut session = open_session(input, script).unwrap();
    session.ensure_computed().unwrap();
    session
}

fn started(session: &mut Session) -> Review {
    Review::start(session).unwrap().unwrap()
}

#[test]
fn accepting_the_only_change_ends_the_review() {
    let input = "apple\nbanana\ncherry\n";
    let mut session = open_session(input, "s/^a/A/").unwrap();
    let mut review = started(&mut session);
    assert_eq!(review.cursor(), 0);
    assert_eq!(review.decisions(), [None, None, None]);
    assert_eq!(review.handle_key(&session, Key::Char('y')), Step::Done);
    assert_eq!(review.decisions(), [Some(true), Some(true), Some(true)]);
    assert_eq!(result_text(input, &session, &Some(review)), "Apple\nbanana\ncherry\n");
}

#[test]
fn a_script_that_changes_nothing_is_not_reviewed() {
    let input = "a\r\nb"; // not even what ends the lines is touched
    let mut session = open_session(input, "s/x/y/").unwrap();
    let review = Review::start(&mut session).unwrap();
    assert!(review.is_none());
    assert_eq!(result_text(input, &session, &review), input);
    assert_eq!(reconstruct_output(&session, &[None, Some(true)]), "a\nb\n");
    assert_eq!(reconstruct_output(&session, &[Some(false), None]), "a\nb\n");
}

#[test]
fn the_review_skips_unchanged_blocks() {
    let mut session = open_session("x\na\nx\na\nx\n", "s/a/b/").unwrap();
    let mut review = started(&mut session);
    assert_eq!(review.cursor(), 1);
    assert_eq!(review.decisions(), [Some(true), None, None, None, None]);
    assert_eq!(review.handle_key(&session, Key::Char('n')), Step::GoOn);
    assert_eq!(review.cursor(), 3);
    assert_eq!(review.decisions(), [Some(true), Some(false), Some(true), None, None]);
    assert_eq!(review.handle_key(&session, Key::Char('y')), Step::Done);
    assert_eq!(review.cursor(), 4);
    assert_eq!(review.decisions(), [Some(true), Some(false), Some(true), Some(true), Some(true)]);
    assert_eq!(reconstruct_output(&session, review.decisions()), "x\na\nx\nb\nx\n");
}

#[test]
fn quitting_keeps_the_decisions_so_far() {
    for key in [Key::Char('q'), Key::Esc] {
        let mut session = open_session("a\na\na\n", "s/a/b/").unwrap();
        let mut review = started(&mut session);
        assert_eq!(review.handle_key(&session, Key::Char('y')), Step::GoOn);
        assert_eq!(review.handle_key(&session, key), Step::Done);
        assert_eq!(review.decisions(), [Some(true), None, None]);
        assert_eq!(reconstruct_output(&session, review.decisions()), "b\na\na\n");
    }
}

#[test]
fn keys_move_the_cursor_and_change_no_decision() {
    let mut session = open_session("a\na\na\n", "s/a/b/").unwrap();
    let mut review = started(&mut session);
    review.handle_key(&session, Key::Char('n'));
    review.handle_key(&session, Key::Char('n'));
    assert_eq!(review.cursor(), 2);
    for (key, cursor) in [
        (Key::Up, 1),
        (Key::Char('p'), 0),
        (Key::Up, 0),
        (Key::Other, 0),
        (Key::Char('Y'), 0),
    ] {
        assert_eq!(review.handle_key(&session, key), Step::GoOn);
        assert_eq!(review.cursor(), cursor);
        assert_eq!(review.decisions(), [Some(false), Some(false), None]);
    }
    assert_eq!(review.handle_key(&session, Key::Char('y')), Step::GoOn);
    assert_eq!(review.cursor(), 1);
    assert_eq!(review.handle_key(&session, Key::Char('n')), Step::GoOn);
    assert_eq!(review.cursor(), 2);
    assert_eq!(review.handle_key(&session, Key::Char('g')), Step::GoOn);
    assert_eq!(review.cursor(), 0);
    assert_eq!(review.decisions(), [Some(true), Some(false), None]);
}

#[test]
fn deleted_blocks_give_nothing_whatever_is_decided() {
    let session = ready("a\nb\nc\n", "2d");
    for decision in [None, Some(true), Some(false)] {
        assert_eq!(reconstruct_output(&session, &[None, decision, None]), "a\nc\n");
    }
}

#[test]
fn a_block_comes_out_as_one() {
    let session = ready("a\nb\nc\nd\n", "$!N\ns/(.*)\\n(.*)/\\2\\n\\1/");
    assert_eq!(reconstruct_output(&session, &[Some(true), Some(false)]), "b\na\nc\nd\n");
    assert_eq!(reconstruct_output(&session, &[None, Some(true)]), "a\nb\nd\nc\n");
    assert_eq!(reconstruct_output(&session, &[Some(false), None]), "a\nb\nc\nd\n");
    assert_eq!(reconstruct_output(&session, &[Some(true)]), "b\na\n");
    assert_eq!(reconstruct_output(&session, &[]), "");
}

#[test]
fn accepting_everything_gives_what_the_script_alone_gives() {
    for script in ["s/a/b/", "2d", "$!N;s/\\n/ /", "1!G;h;$!d", "x;$G", "y/abc/xyz/"] {
        let input = "a\nb\nc\n";
        let session = ready(input, script);
        let all = vec![Some(true); session.known_blocks()];
        assert_eq!(reconstruct_output(&session, &all), sed_rs::eval(script, input).unwrap(), "{}", script);
    }
}

#[test]
fn hold_space_and_deletion_count_as_changes() {
    let session = ready("a\nb\n", "1h");
    assert!(is_changed(&session, 0));
    assert!(!is_changed(&session, 1));
    let session = ready("a\nb\n", "2d");
    assert!(!is_changed(&session, 0));
    assert!(is_changed(&session, 1));
    // the hold space is compared with the one before, not with an empty one
    let session = ready("a\na\n", "h");
    assert!(is_changed(&session, 0));
    assert!(!is_changed(&session, 1));
}

#[test]
fn searching_marks_what_it_passes() {
    let session = ready("x\nx\na\nx\nx\n", "s/a/b/");
    let mut decisions = vec![None; 5];
    assert_eq!(find_first_diff(&session, &mut decisions), Some(2));
    assert_eq!(decisions, [Some(true), Some(true), None, None, None]);
    let mut cursor = 0;
    let mut decisions = vec![Some(false); 5];
    assert!(advance_past_noops(&session, &mut cursor, &mut decisions));
    assert_eq!(cursor, 2);
    assert_eq!(decisions, [Some(false), Some(true), Some(false), Some(false), Some(false)]);
    assert!(!advance_past_noops(&session, &mut cursor, &mut decisions));
    assert_eq!(cursor, 4);
    assert_eq!(decisions, [Some(false), Some(true), Some(false), Some(true), Some(true)]);
    assert!(!advance_past_noops(&session, &mut cursor, &mut decisions));
    assert_eq!(cursor, 4);
    let session = ready("x\ny\n", "s/a/b/");
    let mut decisions = vec![None; 2];
    assert_eq!(find_first_diff(&session, &mut decisions), None);
    assert_eq!(decisions, [Some(true), Some(true)]);
}

#[test]
fn a_failed_run_ends_the_review_before_it_begins() {
    let mut session = open_session("a\nb\n", "q").unwrap();
    assert!(Review::start(&mut session).is_err());
}
