use ised::instrument::{rewrite_d_upper, rewrite_delete, uses_hold_space, wrap_script};
use ised::runner::build_wrapped_script;

const TOP: &str = "{ /\\n/!b ISED_DEL; s/^[^\\n]*\\n//; t ISED_TOP }";

#[test]
fn bare_d_becomes_a_branch() {
    assert_eq!(rewrite_delete("d"), "b ISED_DEL");
    assert_eq!(rewrite_delete("$!d"), "$!b ISED_DEL");
    assert_eq!(rewrite_delete("/x/d;p"), "/x/b ISED_DEL;p");
    assert_eq!(rewrite_delete("1,3d\np"), "1,3b ISED_DEL\np");
    assert_eq!(rewrite_delete("{d}"), "{b ISED_DEL}");
    assert_eq!(rewrite_delete("p; d }"), "p; b ISED_DEL }");
}

#[test]
fn d_inside_words_stays() {
    assert_eq!(rewrite_delete("s/dad/add/"), "s/dad/add/");
    assert_eq!(rewrite_delete("D"), "D");
    assert_eq!(rewrite_delete(""), "");
    assert_eq!(rewrite_delete("pd"), "pd");
    assert_eq!(rewrite_delete("d{"), "d{");
    // a delimiter other than a slash is not one of the opening characters
    assert_eq!(rewrite_delete("\\%x%d"), "\\%x%d");
}

#[test]
fn commands_may_share_a_separator() {
    assert_eq!(rewrite_delete("1d;d"), "1b ISED_DEL;b ISED_DEL");
    assert_eq!(rewrite_delete("d;d"), "b ISED_DEL;b ISED_DEL");
    assert_eq!(rewrite_delete("d;d;d"), "b ISED_DEL;b ISED_DEL;b ISED_DEL");
    assert_eq!(rewrite_delete("d d\nd}d"), "b ISED_DEL b ISED_DEL\nb ISED_DEL}b ISED_DEL");
    assert_eq!(rewrite_d_upper("D;D"), format!("{};{}", TOP, TOP));
    assert_eq!(rewrite_delete("1d;2d"), "1b ISED_DEL;2b ISED_DEL");
    assert_eq!(rewrite_delete("d; d"), "b ISED_DEL; b ISED_DEL");
}

#[test]
fn white_space_around_commands_is_unicode_white_space() {
    assert_eq!(rewrite_delete("\u{a0}d\u{3000}"), "\u{a0}b ISED_DEL\u{3000}");
    assert_eq!(rewrite_delete("\u{85}d\u{2028}d"), "\u{85}b ISED_DEL\u{2028}b ISED_DEL");
    assert_eq!(rewrite_delete("\u{200b}d"), "\u{200b}d");
    assert_eq!(rewrite_delete("\u{b}d\r"), "\u{b}b ISED_DEL\r");
    assert_eq!(rewrite_delete("\u{1680}d\u{200a}"), "\u{1680}b ISED_DEL\u{200a}");
    assert_eq!(rewrite_delete("\u{202f}d\u{205f}"), "\u{202f}b ISED_DEL\u{205f}");
    assert_eq!(rewrite_delete("\u{661}d"), "\u{661}d"); // a digit, but not 0 to 9
}

#[test]
fn bare_d_upper_becomes_a_group() {
    assert_eq!(rewrite_d_upper("$!N\nD"), format!("$!N\n{}", TOP));
    assert_eq!(rewrite_d_upper("$D"), format!("${}", TOP));
    assert_eq!(rewrite_d_upper("d"), "d");
}

#[test]
fn both_kinds_of_delete_are_rewritten() {
    let wrapped = wrap_script("1d;$D");
    assert!(wrapped.starts_with(&format!(":ISED_TOP\n{{\n1b ISED_DEL;${}\n}}\n", TOP)));
    // the separator between a `d` and a `D` serves both
    let wrapped = wrap_script("d;D");
    assert!(wrapped.starts_with(&format!(":ISED_TOP\n{{\nb ISED_DEL;{}\n}}\n", TOP)));
}

#[test]
fn plain_script_is_embedded_as_it_is() {
    let expected = concat_lines(&[
        ":ISED_TOP",
        "{",
        "s/foo/bar/g",
        "}",
        "s/\\n/\u{2}/g",
        "s/^/\u{1}P\u{1}/",
        "p",
        "b ISED_END",
        ":ISED_DEL",
        "s/\\n/\u{2}/g",
        "s/^/\u{1}X\u{1}/",
        "p",
        ":ISED_END",
        "=",
        "x",
        "s/\\n/\u{2}/g",
        "s/^/\u{1}H\u{1}/",
        "p",
        "s/^\u{1}H\u{1}//",
        "s/\u{2}/\\n/g",
        "x",
    ]);
    assert_eq!(wrap_script("s/foo/bar/g"), expected);
    assert_eq!(build_wrapped_script("s/foo/bar/g"), expected);
}

fn concat_lines(lines: &[&str]) -> String {
    let mut text = String::new();
    for line in lines {
        text.push_str(line);
        text.push('\n');
    }
    text
}

#[test]
fn every_hold_command_is_noticed() {
    for script in ["h", "1!H", "g;p", "{G}", "x"] {
        assert!(uses_hold_space(script));
    }
    for script in ["", "p", "s/a/b/gp", "hg", "d;D", "y/h/x/;p"] {
        assert!(!uses_hold_space(script));
    }
    // a letter right behind a slash passes for a command
    assert!(uses_hold_space("s/a/h /"));
    assert!(uses_hold_space("s/a/b/g"));
}

/// A small generator of numbers, the same in every run.
fn next(state: &mut u64) -> usize {
    *state = state.wrapping_mul(6364136223846793005).wrapping_add(1442695040888963407);
    (*state >> 33) as usize
}

fn opens(c: char) -> bool {
    ";{}$,!/".contains(c) || c.is_ascii_digit() || c.is_whitespace()
}

fn closes(c: char) -> bool {
    ";}".contains(c) || c.is_whitespace()
}

/// The replacement of bare commands, character by character.
fn scanned(script: &[char], letter: char, by: &str) -> String {
    let bare = |j: usize| {
        script[j] == letter
            && (j == 0 || opens(script[j - 1]))
            && (j + 1 == script.len() || closes(script[j + 1]))
    };
    let mut out = String::new();
    for j in 0..script.len() {
        if bare(j) {
            out.push_str(by);
        } else {
            out.push(script[j]);
        }
    }
    out
}

#[test]
fn replacing_agrees_with_a_scan() {
    let alphabet: Vec<char> = "ddDD;;{}\n \t1$,!/xb\u{a0}\u{2003}\u{200b}\u{e9}%_".chars().collect();
    let mut state = 7;
    for _ in 0..400 {
        let length = next(&mut state) % 12;
        let script: Vec<char> = (0..length).map(|_| alphabet[next(&mut state) % alphabet.len()]).collect();
        let text: String = script.iter().collect();
        assert_eq!(rewrite_delete(&text), scanned(&script, 'd', "b ISED_DEL"), "{:?}", text);
        assert_eq!(rewrite_d_upper(&text), scanned(&script, 'D', TOP), "{:?}", text);
        // in either order, and once is enough
        let both = rewrite_d_upper(&rewrite_delete(&text));
        assert_eq!(rewrite_delete(&rewrite_d_upper(&text)), both, "{:?}", text);
        assert_eq!(rewrite_d_upper(&rewrite_delete(&both)), both, "{:?}", text);
        let held: Vec<char> = script.iter().map(|&c| if c == 'd' { 'x' } else { c }).collect();
        let held_text: String = held.iter().collect();
        let finds = scanned(&held, 'x', "") != held_text;
        assert_eq!(uses_hold_space(&held_text), finds, "{:?}", held_text);
    }
}
