use ised::text::{decimal_string, input_lines, join_range, parse_number, split_lines};

#[test]
fn input_is_split_as_by_the_standard_library() {
    for input in [
        "", "\n", "a", "a\n", "a\nb", "a\r\nb\r\n", "a\r", "a\r\r\nb\r", "\r\n", "\n\n", "x\n\r", "é\nß\n", "\r",
    ] {
        let expected: Vec<String> = input.lines().map(str::to_string).collect();
        assert_eq!(input_lines(input), expected, "{:?}", input);
    }
}

#[test]
fn pieces_joined_again_are_the_text() {
    for text in ["", "\n", "a\nb\n\nc", "\n\n", "abc"] {
        let pieces: Vec<String> =
            split_lines(text).into_iter().map(|p| p.into_iter().collect()).collect();
        assert_eq!(pieces.len(), text.matches('\n').count() + 1);
        assert_eq!(join_range(&pieces, 0, pieces.len()), text);
    }
    let lines = vec!["a".to_string(), "b".to_string(), "c".to_string()];
    assert_eq!(join_range(&lines, 1, 3), "b\nc");
    assert_eq!(join_range(&lines, 1, 1), "");
}

#[test]
fn numbers_are_read_back_from_decimal() {
    for n in [0, 7, 10, 99, 100, 12345, usize::MAX] {
        let written = decimal_string(n);
        assert_eq!(written, n.to_string());
        let chars: Vec<char> = written.chars().collect();
        assert_eq!(parse_number(&chars), Some(n));
    }
}
