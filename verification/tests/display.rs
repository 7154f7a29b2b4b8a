use ised::display::{
    block_panes, block_row, diff_panes, hold_pane, list_rows, list_window, split_changes, visible_rows, Change,
    ChangeKind, RowStyle,
};
use ised::review::{Key, Review};
use ised::session::open_session;

fn texts(changes: &[Change]) -> Vec<(ChangeKind, &str)> {
    changes.iter().map(|c| (c.kind, c.text.as_str())).collect()
}

#[test]
fn words_are_compared() {
    let panes = diff_panes("one two", "one three", true);
    assert_eq!(
        texts(&panes.before),
        [(ChangeKind::Kept, "one\n"), (ChangeKind::Kept, " \n"), (ChangeKind::Removed, "two\n")]
    );
    assert_eq!(
        texts(&panes.after),
        [(ChangeKind::Kept, "one\n"), (ChangeKind::Kept, " \n"), (ChangeKind::Added, "three\n")]
    );
    assert_eq!(panes.after_title, "pattern space: after (printed)");
    let panes = diff_panes("", "", false);
    assert!(panes.before.is_empty() && panes.after.is_empty());
    assert_eq!(panes.after_title, "pattern space: after (deleted — no output for this line)");
}

#[test]
fn the_sides_spell_out_both_texts() {
    for (before, after) in [
        ("", "new words here"),
        ("the quick brown fox", "the slow brown dog jumps"),
        ("a b c d e f", "f e d c b a"),
        ("x  y\tz", "x y\t\tz"),
        ("same", "same"),
        ("a a a b a a", "a b a a a c a"),
    ] {
        let panes = diff_panes(before, after, true);
        let spell = |changes: &[Change]| changes.iter().map(|c| c.text.trim_end_matches('\n')).collect::<String>();
        assert_eq!(spell(&panes.before), before);
        assert_eq!(spell(&panes.after), after);
        assert!(panes.before.iter().all(|c| c.kind != ChangeKind::Added));
        assert!(panes.after.iter().all(|c| c.kind != ChangeKind::Removed));
    }
}

#[test]
fn a_text_does_not_differ_from_itself() {
    let long: String = (0..300).map(|i| format!("w{} ", i % 7)).collect();
    for text in ["", "one two\tone", "a\nb", long.as_str()] {
        let panes = diff_panes(text, text, true);
        assert!(panes.before.iter().all(|c| c.kind == ChangeKind::Kept));
        assert_eq!(texts(&panes.before), texts(&panes.after));
    }
}

#[test]
fn a_change_is_shown_with_a_newline() {
    let changes = [
        Change { kind: ChangeKind::Kept, text: "a".to_string() },
        Change { kind: ChangeKind::Removed, text: "\n".to_string() },
        Change { kind: ChangeKind::Added, text: " \r".to_string() },
        Change { kind: ChangeKind::Added, text: String::new() },
    ];
    let (before, after) = split_changes(&changes);
    assert_eq!(texts(&before), [(ChangeKind::Kept, "a\n"), (ChangeKind::Removed, "\n")]);
    assert_eq!(
        texts(&after),
        [(ChangeKind::Kept, "a\n"), (ChangeKind::Added, " \r"), (ChangeKind::Added, "\n")]
    );
}

#[test]
fn shown_text_is_that_of_the_diff_crate() {
    let diff = similar::TextDiff::from_words("one two\nthree", "one\rtwo three");
    let panes = diff_panes("one two\nthree", "one\rtwo three", true);
    let mut before = Vec::new();
    let mut after = Vec::new();
    for change in diff.iter_all_changes() {
        match change.tag() {
            similar::ChangeTag::Delete => before.push((ChangeKind::Removed, change.to_string())),
            similar::ChangeTag::Insert => after.push((ChangeKind::Added, change.to_string())),
            similar::ChangeTag::Equal => {
                before.push((ChangeKind::Kept, change.to_string()));
                after.push((ChangeKind::Kept, change.to_string()));
            }
        }
    }
    let owned = |changes: Vec<Change>| changes.into_iter().map(|c| (c.kind, c.text)).collect::<Vec<_>>();
    assert_eq!(owned(panes.before), before);
    assert_eq!(owned(panes.after), after);
}

#[test]
fn the_panes_of_a_block() {
    let mut session = open_session("a\nb\n", "2{h;d}").unwrap();
    let review = Review::start(&mut session).unwrap().unwrap();
    assert_eq!(review.cursor(), 1);
    let panes = block_panes(&session, 1);
    assert_eq!(texts(&panes.before), [(ChangeKind::Kept, "b\n")]);
    assert_eq!(panes.after_title, "pattern space: after (deleted — no output for this line)");
    assert_eq!(hold_pane(&session, 0).as_deref(), Some(""));
    assert_eq!(hold_pane(&session, 1).as_deref(), Some("b"));
    let mut session = open_session("a\n", "s/a/b/").unwrap();
    session.ensure_computed().unwrap();
    assert_eq!(hold_pane(&session, 0), None);
    assert_eq!(block_panes(&session, 0).after_title, "pattern space: after (printed)");
}

#[test]
fn borders_take_two_rows() {
    assert_eq!(visible_rows(0), 1);
    assert_eq!(visible_rows(2), 1);
    assert_eq!(visible_rows(3), 1);
    assert_eq!(visible_rows(4), 2);
    assert_eq!(visible_rows(u16::MAX), 65533);
}

#[test]
fn the_window_follows_the_cursor() {
    assert_eq!(list_window(5, 10, 4), (0, 5));
    assert_eq!(list_window(10, 10, 9), (0, 10));
    assert_eq!(list_window(100, 10, 0), (0, 10));
    assert_eq!(list_window(100, 10, 5), (0, 10));
    assert_eq!(list_window(100, 10, 6), (1, 11));
    assert_eq!(list_window(100, 10, 50), (45, 55));
    assert_eq!(list_window(100, 10, 95), (90, 100));
    assert_eq!(list_window(100, 10, 99), (90, 100));
    assert_eq!(list_window(0, 1, 0), (0, 0));
    assert_eq!(list_window(3, 1, 2), (2, 3));
}

#[test]
fn rows_show_mark_lines_and_input() {
    let mut session = open_session("x\na\nb\nc\n", "2{N;s/\\n/+/}").unwrap();
    let mut review = Review::start(&mut session).unwrap().unwrap();
    assert_eq!(review.cursor(), 1);
    let row = block_row(&session, &review, 0);
    assert_eq!(row.text, "y    1  x");
    assert_eq!(row.style, RowStyle::Accepted);
    let row = block_row(&session, &review, 1);
    assert_eq!(row.text, "   2-3  a\nb");
    assert_eq!(row.style, RowStyle::Current);
    let row = block_row(&session, &review, 2);
    assert_eq!(row.text, "     4  c");
    assert_eq!(row.style, RowStyle::Undecided);
    review.handle_key(&session, Key::Char('n'));
    let row = block_row(&session, &review, 1);
    assert_eq!(row.text, "n  2-3  a\nb");
    assert_eq!(row.style, RowStyle::Rejected);
}

#[test]
fn long_lists_are_cut_to_the_window() {
    let input: String = (0..12000).map(|i| format!("l{}\n", i)).collect();
    let mut session = open_session(&input, "12000s/l/L/").unwrap();
    let review = Review::start(&mut session).unwrap().unwrap();
    assert_eq!(review.cursor(), 11999);
    let rows = list_rows(&session, &review, 5);
    let shown: Vec<&str> = rows.iter().map(|r| r.text.as_str()).collect();
    assert_eq!(shown, ["y 11998  l11997", "y 11999  l11998", "  12000  l11999"]);
    assert_eq!(rows[2].style, RowStyle::Current);
}

#[test]
fn the_sides_spell_out_texts_of_any_length() {
    let words = ["a", "b", "c", "dd", " ", "\t ", "\u{e9}"];
    let mut state: u64 = 11;
    let mut next = |below: usize| {
        state = state.wrapping_mul(6364136223846793005).wrapping_add(1442695040888963407);
        (state >> 33) as usize % below
    };
    for round in 0..3000 {
        let longest = if round % 30 == 0 { 260 } else { 14 };
        let (m, n) = (next(longest), next(longest));
        let before: String = (0..m).map(|_| words[next(words.len())]).collect();
        let after: String = (0..n).map(|_| words[next(words.len())]).collect();
        let panes = diff_panes(&before, &after, true);
        let spell = |changes: &[Change]| changes.iter().map(|c| c.text.trim_end_matches('\n')).collect::<String>();
        assert_eq!(spell(&panes.before), before);
        assert_eq!(spell(&panes.after), after);
    }
}
