//! One-letter commands of a sed script that stand alone as command tokens,
//! found and replaced with the `regex` crate.
//!
//! The characters that may stand around such a command are a heuristic for
//! the common ways in which scripts are written, not a parse of the sed
//! grammar.

use regex::Regex;
use vstd::prelude::*;

verus! {

/// A bare `d`.
pub const DELETE_PATTERN: &'static str = r"(^|[;{}\n\s0-9$,!/])d($|[;}\n\s])";

/// A bare `D`.
pub const DELETE_FIRST_PATTERN: &'static str = r"(^|[;{}\n\s0-9$,!/])D($|[;}\n\s])";

/// A bare command on the hold space.
pub const HOLD_PATTERN: &'static str = r"(^|[;{}\n\s0-9$,!/])[hHgGx]($|[;}\n\s])";

/// The characters of the class `\s`: the Unicode property `White_Space`.
pub open spec fn is_white_space(c: char) -> bool {
    ||| '\t' <= c <= '\r'
    ||| c == ' '
    ||| c == '\u{85}'
    ||| c == '\u{a0}'
    ||| c == '\u{1680}'
    ||| '\u{2000}' <= c <= '\u{200a}'
    ||| '\u{2028}' <= c <= '\u{2029}'
    ||| c == '\u{202f}'
    ||| c == '\u{205f}'
    ||| c == '\u{3000}'
}

/// The characters that may stand right before a bare command.
pub open spec fn opens_command(c: char) -> bool {
    ||| c == ';' || c == '{' || c == '}' || c == '$' || c == ',' || c == '!' || c == '/'
    ||| '0' <= c <= '9'
    ||| is_white_space(c)
}

/// The characters that may stand right after a bare command.
pub open spec fn closes_command(c: char) -> bool {
    c == ';' || c == '}' || is_white_space(c)
}

/// Whether the character at `j` is one of the letters and stands alone as a
/// command token.
pub open spec fn bare_at(s: Seq<char>, letters: Seq<char>, j: int) -> bool {
    &&& 0 <= j < s.len()
    &&& letters.contains(s[j])
    &&& j == 0 || opens_command(s[j - 1])
    &&& j + 1 == s.len() || closes_command(s[j + 1])
}

/// Whether a script holds one of the letters as a bare command.
pub open spec fn has_bare(s: Seq<char>, letters: Seq<char>) -> bool {
    exists|j: int| bare_at(s, letters, j)
}

/// What follows a bare command at `j` and goes with it: the one character
/// after it, or nothing at the end of the script.
pub open spec fn closing(s: Seq<char>, j: int) -> Seq<char> {
    if j + 1 < s.len() {
        seq![s[j + 1]]
    } else {
        Seq::empty()
    }
}

/// The script from `from` on, as one pass of replacing its bare commands from
/// left to right leaves it. Each replaced command takes the characters right
/// before and right after it along, so the search goes on behind the latter:
/// a command that has only that character before it stays as it is.
pub open spec fn replaced(s: Seq<char>, letters: Seq<char>, by: Seq<char>, from: int) -> Seq<char>
    decreases s.len() + 3 - from,
{
    if from < 0 || from >= s.len() {
        Seq::empty()
    } else if from == 0 && bare_at(s, letters, 0) {
        by + closing(s, 0) + replaced(s, letters, by, 2)
    } else if bare_at(s, letters, from + 1) {
        seq![s[from]] + by + closing(s, from + 1) + replaced(s, letters, by, from + 3)
    } else {
        seq![s[from]] + replaced(s, letters, by, from + 1)
    }
}

/// The patterns of this module.
pub open spec fn is_command_pattern(pattern: Seq<char>) -> bool {
    pattern == DELETE_PATTERN@ || pattern == DELETE_FIRST_PATTERN@ || pattern == HOLD_PATTERN@
}

/// The letters that a pattern of this module looks for.
pub open spec fn pattern_letters(pattern: Seq<char>) -> Seq<char> {
    if pattern == DELETE_PATTERN@ {
        seq!['d']
    } else if pattern == DELETE_FIRST_PATTERN@ {
        seq!['D']
    } else {
        seq!['h', 'H', 'g', 'G', 'x']
    }
}

/// The three patterns differ.
pub proof fn lemma_pattern_letters()
    ensures
        pattern_letters(DELETE_PATTERN@) == seq!['d'],
        pattern_letters(DELETE_FIRST_PATTERN@) == seq!['D'],
        pattern_letters(HOLD_PATTERN@) == seq!['h', 'H', 'g', 'G', 'x'],
{
    reveal_strlit(r"(^|[;{}\n\s0-9$,!/])d($|[;}\n\s])");
    reveal_strlit(r"(^|[;{}\n\s0-9$,!/])D($|[;}\n\s])");
    reveal_strlit(r"(^|[;{}\n\s0-9$,!/])[hHgGx]($|[;}\n\s])");
    assert(DELETE_PATTERN@.len() != HOLD_PATTERN@.len());
    assert(DELETE_FIRST_PATTERN@.len() != HOLD_PATTERN@.len());
    assert(DELETE_PATTERN@[20] == 'd');
    assert(DELETE_FIRST_PATTERN@[20] == 'D');
}

/// Letters that are commands on their own: none of them is a character that
/// may stand around a command.
pub open spec fn are_letters(letters: Seq<char>) -> bool {
    forall|c: char| #[trigger] letters.contains(c) ==> !opens_command(c) && !closes_command(c)
}

/// The letters of every pattern of this module are commands on their own.
pub proof fn lemma_are_letters(pattern: Seq<char>)
    ensures
        are_letters(pattern_letters(pattern)),
{
    lemma_one_letter('d');
    lemma_one_letter('D');
}

/// A single letter, as a sequence.
pub proof fn lemma_one_letter(letter: char)
    ensures
        forall|c: char| #[trigger] seq![letter].contains(c) <==> c == letter,
{
    assert(seq![letter][0] == letter);
}

/// The script from `from` on, with every bare command replaced and every
/// other character kept.
pub open spec fn substituted(s: Seq<char>, letters: Seq<char>, by: Seq<char>, from: int) -> Seq<char>
    decreases s.len() - from,
{
    if from < 0 || from >= s.len() {
        Seq::empty()
    } else {
        (if bare_at(s, letters, from) {
            by
        } else {
            seq![s[from]]
        }) + substituted(s, letters, by, from + 1)
    }
}

/// Whether a text holds no bare command, wherever in a script it is put.
pub open spec fn settled(text: Seq<char>, letters: Seq<char>) -> bool {
    &&& text.len() > 0
    &&& forall|j: int|
        0 <= j < text.len() && letters.contains(#[trigger] text[j]) ==> j > 0 && !opens_command(text[j - 1])
}

/// Two texts that hold no bare command hold none when put together.
pub proof fn lemma_settled_concat(a: Seq<char>, b: Seq<char>, letters: Seq<char>)
    requires
        settled(a, letters),
        settled(b, letters),
    ensures
        settled(a + b, letters),
{
    let text = a + b;
    assert forall|j: int| 0 <= j < text.len() && letters.contains(#[trigger] text[j]) implies j > 0 && !opens_command(
        text[j - 1],
    ) by {
        if j < a.len() {
            assert(text[j] == a[j]);
        } else {
            assert(text[j] == b[j - a.len()]);
        }
    }
}

/// A script without a bare command comes out as it went in.
pub proof fn law_nothing_to_replace(s: Seq<char>, letters: Seq<char>, by: Seq<char>)
    requires
        !has_bare(s, letters),
    ensures
        substituted(s, letters, by, 0) == s,
{
    lemma_nothing_to_replace_from(s, letters, by, 0);
    assert(s.skip(0) =~= s);
}

proof fn lemma_nothing_to_replace_from(s: Seq<char>, letters: Seq<char>, by: Seq<char>, from: int)
    requires
        !has_bare(s, letters),
        0 <= from <= s.len(),
    ensures
        substituted(s, letters, by, from) == s.skip(from),
    decreases s.len() - from,
{
    if from < s.len() {
        lemma_nothing_to_replace_from(s, letters, by, from + 1);
        assert(!bare_at(s, letters, from));
        assert(seq![s[from]] + s.skip(from + 1) =~= s.skip(from));
    } else {
        assert(s.skip(from) =~= Seq::empty());
    }
}

/// Whether a command may follow a character, or the start of a script.
pub open spec fn may_open(prev: Option<char>) -> bool {
    match prev {
        None => true,
        Some(c) => opens_command(c),
    }
}

/// Whether the rest of a script behind a character begins with a bare
/// command.
pub open spec fn bare_first(prev: Option<char>, rest: Seq<char>, letters: Seq<char>) -> bool {
    &&& rest.len() > 0
    &&& letters.contains(rest[0])
    &&& may_open(prev)
    &&& rest.len() == 1 || closes_command(rest[1])
}

/// The rest of a script behind a character, with every bare command replaced.
pub open spec fn rest_substituted(prev: Option<char>, rest: Seq<char>, letters: Seq<char>, by: Seq<char>) -> Seq<char>
    decreases rest.len(),
{
    if rest.len() == 0 {
        Seq::empty()
    } else {
        (if bare_first(prev, rest, letters) {
            by
        } else {
            seq![rest[0]]
        }) + rest_substituted(Some(rest[0]), rest.skip(1), letters, by)
    }
}

/// The rest of a script behind a character as one pass leaves it. The pass
/// takes a bare command only where the character before it is free: not the
/// one that it took along with the command before.
spec fn rest_replaced(
    prev: Option<char>,
    rest: Seq<char>,
    letters: Seq<char>,
    by: Seq<char>,
    free: bool,
) -> Seq<char>
    decreases rest.len(),
{
    if rest.len() == 0 {
        Seq::empty()
    } else if free && bare_first(prev, rest, letters) {
        if rest.len() == 1 {
            by
        } else {
            by + seq![rest[1]] + rest_replaced(Some(rest[1]), rest.skip(2), letters, by, false)
        }
    } else {
        seq![rest[0]] + rest_replaced(Some(rest[0]), rest.skip(1), letters, by, true)
    }
}

pub open spec fn char_before(s: Seq<char>, from: int) -> Option<char> {
    if from <= 0 {
        None
    } else {
        Some(s[from - 1])
    }
}

pub proof fn lemma_bare_first(s: Seq<char>, letters: Seq<char>, from: int)
    requires
        0 <= from <= s.len(),
    ensures
        bare_first(char_before(s, from), s.skip(from), letters) == bare_at(s, letters, from),
{
}

pub proof fn lemma_rest_substituted(s: Seq<char>, letters: Seq<char>, by: Seq<char>, from: int)
    requires
        0 <= from <= s.len(),
    ensures
        rest_substituted(char_before(s, from), s.skip(from), letters, by) == substituted(s, letters, by, from),
    decreases s.len() - from,
{
    lemma_bare_first(s, letters, from);
    if from < s.len() {
        lemma_rest_substituted(s, letters, by, from + 1);
        assert(s.skip(from).skip(1) =~= s.skip(from + 1));
    }
}

proof fn lemma_rest_replaced(s: Seq<char>, letters: Seq<char>, by: Seq<char>, from: int)
    requires
        0 <= from <= s.len(),
    ensures
        rest_replaced(char_before(s, from), s.skip(from), letters, by, from == 0) == replaced(s, letters, by, from),
    decreases s.len() - from,
{
    reveal_with_fuel(rest_replaced, 3);
    reveal_with_fuel(replaced, 2);
    if from < s.len() {
        let rest = s.skip(from);
        let next = s.skip(from + 1);
        lemma_bare_first(s, letters, from);
        lemma_bare_first(s, letters, from + 1);
        assert(rest.skip(1) =~= next);
        if from == 0 && bare_at(s, letters, 0) {
            if s.len() > 1 {
                lemma_rest_replaced(s, letters, by, 2);
                assert(rest.skip(2) =~= s.skip(2));
            }
            assert(rest_replaced(None, rest, letters, by, true) =~= replaced(s, letters, by, 0));
        } else if bare_at(s, letters, from + 1) {
            if from + 2 < s.len() {
                lemma_rest_replaced(s, letters, by, from + 3);
                assert(next.skip(2) =~= s.skip(from + 3));
            }
            assert(rest_replaced(char_before(s, from), rest, letters, by, from == 0) =~= replaced(
                s,
                letters,
                by,
                from,
            ));
        } else {
            lemma_rest_replaced(s, letters, by, from + 1);
        }
    }
}

/// A text that holds no bare command is passed over.
proof fn lemma_replaced_behind(
    prev: Option<char>,
    text: Seq<char>,
    tail: Seq<char>,
    letters: Seq<char>,
    by: Seq<char>,
    free: bool,
)
    requires
        text.len() > 0,
        letters.contains(text[0]) ==> !may_open(prev),
        forall|j: int|
            0 < j < text.len() && letters.contains(#[trigger] text[j]) ==> !opens_command(text[j - 1]),
    ensures
        rest_replaced(prev, text + tail, letters, by, free) == text + rest_replaced(
            Some(text.last()),
            tail,
            letters,
            by,
            true,
        ),
    decreases text.len(),
{
    let whole = text + tail;
    let next = text.skip(1);
    assert(whole[0] == text[0]);
    assert(whole.skip(1) =~= next + tail);
    if text.len() > 1 {
        assert forall|j: int| 0 < j < next.len() && letters.contains(#[trigger] next[j]) implies !opens_command(
            next[j - 1],
        ) by {
            assert(next[j] == text[j + 1]);
        }
        assert(next[0] == text[1]);
        lemma_replaced_behind(Some(text[0]), next, tail, letters, by, true);
        assert(next.last() == text.last());
    } else {
        assert(next + tail =~= tail);
    }
    assert(rest_replaced(prev, whole, letters, by, free) =~= text + rest_replaced(
        Some(text.last()),
        tail,
        letters,
        by,
        true,
    ));
}

/// A text that holds no bare command stays as it is.
pub proof fn lemma_substituted_behind(
    prev: Option<char>,
    text: Seq<char>,
    tail: Seq<char>,
    letters: Seq<char>,
    by: Seq<char>,
)
    requires
        text.len() > 0,
        letters.contains(text[0]) ==> !may_open(prev),
        forall|j: int|
            0 < j < text.len() && letters.contains(#[trigger] text[j]) ==> !opens_command(text[j - 1]),
    ensures
        rest_substituted(prev, text + tail, letters, by) == text + rest_substituted(
            Some(text.last()),
            tail,
            letters,
            by,
        ),
    decreases text.len(),
{
    let whole = text + tail;
    let next = text.skip(1);
    assert(whole[0] == text[0]);
    assert(whole.skip(1) =~= next + tail);
    if text.len() > 1 {
        assert forall|j: int| 0 < j < next.len() && letters.contains(#[trigger] next[j]) implies !opens_command(
            next[j - 1],
        ) by {
            assert(next[j] == text[j + 1]);
        }
        assert(next[0] == text[1]);
        lemma_substituted_behind(Some(text[0]), next, tail, letters, by);
        assert(next.last() == text.last());
    } else {
        assert(next + tail =~= tail);
    }
    assert(rest_substituted(prev, whole, letters, by) =~= text + rest_substituted(
        Some(text.last()),
        tail,
        letters,
        by,
    ));
}

/// A second pass takes what the first one left: where the first one was not
/// free to take a command, the second one is.
proof fn lemma_two_passes(
    prev: Option<char>,
    other: Option<char>,
    rest: Seq<char>,
    letters: Seq<char>,
    by: Seq<char>,
    free: bool,
    free_again: bool,
)
    requires
        are_letters(letters),
        settled(by, letters),
        may_open(prev) == may_open(other),
        free || free_again,
    ensures
        rest_replaced(other, rest_replaced(prev, rest, letters, by, free), letters, by, free_again)
            == rest_substituted(prev, rest, letters, by),
    decreases rest.len(),
{
    let once = rest_replaced(prev, rest, letters, by, free);
    let twice = rest_replaced(other, once, letters, by, free_again);
    let want = rest_substituted(prev, rest, letters, by);
    reveal_with_fuel(rest_substituted, 3);
    if rest.len() > 0 {
        let next = Some(rest[0]);
        if bare_first(prev, rest, letters) {
            if rest.len() == 1 {
                assert(rest.skip(1) =~= Seq::empty());
                assert(want =~= by);
                if free {
                    assert(once + Seq::empty() =~= once);
                    lemma_replaced_behind(other, by, Seq::empty(), letters, by, free_again);
                    assert(twice =~= by);
                } else {
                    assert(rest_replaced(next, rest.skip(1), letters, by, true) =~= Seq::empty());
                    assert(once =~= rest);
                }
            } else {
                let c = rest[1];
                let after = rest.skip(2);
                assert(!letters.contains(c));
                assert(rest.skip(1)[0] == c);
                assert(rest.skip(1).skip(1) =~= after);
                assert(want =~= by + seq![c] + rest_substituted(Some(c), after, letters, by));
                if free {
                    let tail = rest_replaced(Some(c), after, letters, by, false);
                    let behind = seq![c] + tail;
                    assert(once =~= by + behind);
                    lemma_replaced_behind(other, by, behind, letters, by, free_again);
                    lemma_replaced_behind(Some(by.last()), seq![c], tail, letters, by, true);
                    lemma_two_passes(Some(c), Some(c), after, letters, by, false, true);
                    assert(twice =~= want);
                } else {
                    let tail = rest_replaced(Some(c), after, letters, by, true);
                    assert(rest_replaced(next, rest.skip(1), letters, by, true) =~= seq![c] + tail);
                    assert(once =~= seq![rest[0], c] + tail);
                    assert(once.skip(2) =~= tail);
                    assert(bare_first(other, once, letters));
                    lemma_two_passes(Some(c), Some(c), after, letters, by, true, false);
                    assert(twice =~= want);
                }
            }
        } else {
            let tail = rest_replaced(next, rest.skip(1), letters, by, true);
            assert(once =~= seq![rest[0]] + tail);
            assert(once.skip(1) =~= tail);
            assert(!bare_first(other, once, letters)) by {
                if letters.contains(rest[0]) && rest.len() > 1 {
                    assert(!bare_first(next, rest.skip(1), letters));
                    assert(tail[0] == rest[1]);
                    assert(once[1] == rest[1]);
                }
            }
            lemma_two_passes(next, next, rest.skip(1), letters, by, true, true);
            assert(twice =~= want);
        }
    }
}

/// Two passes replace every bare command and change nothing else, where what
/// takes its place holds none.
pub proof fn law_two_passes_replace_every(s: Seq<char>, letters: Seq<char>, by: Seq<char>)
    requires
        are_letters(letters),
        settled(by, letters),
    ensures
        replaced(replaced(s, letters, by, 0), letters, by, 0) == substituted(s, letters, by, 0),
{
    let once = replaced(s, letters, by, 0);
    assert(s.skip(0) =~= s);
    assert(once.skip(0) =~= once);
    lemma_rest_replaced(s, letters, by, 0);
    lemma_rest_replaced(once, letters, by, 0);
    lemma_rest_substituted(s, letters, by, 0);
    lemma_two_passes(None, None, s, letters, by, true, true);
}

/// Three strings, one after the other.
pub fn surround(before: &str, middle: &str, after: &str) -> (s: String)
    ensures
        s@ == before@ + middle@ + after@,
{
    let mut s = before.to_owned();
    s.append(middle);
    s.append(after);
    s
}

/// `Regex::new` and `Regex::is_match` of the `regex` crate: for a pattern of
/// this module, which compiles, whether some part of the script matches. The
/// pattern asks for one of its letters between the start of the script or an
/// opening character and the end of the script or a closing one.
#[verifier::external_body]
pub(crate) fn is_match(pattern: &str, script: &str) -> (found: bool)
    requires
        is_command_pattern(pattern@),
    ensures
        found == has_bare(script@, pattern_letters(pattern@)),
{
    Regex::new(pattern).unwrap().is_match(script)
}

/// `Regex::new` and `Regex::replace_all` of the `regex` crate: for a pattern
/// of this module, which compiles, every match, taken from left to right
/// without overlap, gives way to what the closure makes of its two groups.
/// The groups are the opening character (nothing at the start of the script)
/// and the closing one (nothing at its end).
#[verifier::external_body]
pub(crate) fn replace_all(pattern: &str, script: &str, by: &str) -> (out: String)
    requires
        is_command_pattern(pattern@),
    ensures
        out@ == replaced(script@, pattern_letters(pattern@), by@, 0),
{
    Regex::new(pattern)
        .unwrap()
        .replace_all(script, |groups: &regex::Captures| surround(&groups[1], by, &groups[2]))
        .into_owned()
}

/// Replaces every bare command that a pattern of this module looks for. One
/// pass leaves a command that has only a separator between itself and the one
/// before, so there is a second one.
pub(crate) fn replace_every(pattern: &str, script: &str, by: &str) -> (out: String)
    requires
        is_command_pattern(pattern@),
        settled(by@, pattern_letters(pattern@)),
    ensures
        out@ == substituted(script@, pattern_letters(pattern@), by@, 0),
{
    let once = replace_all(pattern, script, by);
    proof {
        lemma_are_letters(pattern@);
        law_two_passes_replace_every(script@, pattern_letters(pattern@), by@);
    }
    replace_all(pattern, once.as_str(), by)
}

} // verus!
