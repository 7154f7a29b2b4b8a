//! What instrumenting a script keeps of it, and what it replaces.

use vstd::prelude::*;

use crate::command::{
    are_letters, bare_at, bare_first, char_before, closes_command, has_bare, law_nothing_to_replace, lemma_bare_first,
    lemma_one_letter, lemma_rest_substituted, lemma_substituted_behind, may_open, opens_command, rest_substituted,
    settled, substituted,
};
use crate::instrument::{
    delete_branch, delete_first_branch, lemma_branches_settled, rewritten, without_delete, without_delete_first,
};

verus! {

/// A script without bare `d` and `D` stands in its instrumented form as it
/// is.
pub proof fn law_plain_script_kept(script: Seq<char>)
    requires
        !has_bare(script, seq!['d']),
        !has_bare(script, seq!['D']),
    ensures
        rewritten(script) == script,
{
    law_nothing_to_replace(script, seq!['d'], delete_branch());
    law_nothing_to_replace(script, seq!['D'], delete_first_branch());
}

/// The script from `from` on, with every bare `d` and every bare `D` replaced
/// and every other character kept.
pub open spec fn both_replaced(s: Seq<char>, from: int) -> Seq<char>
    decreases s.len() - from,
{
    if from < 0 || from >= s.len() {
        Seq::empty()
    } else {
        (if bare_at(s, seq!['d'], from) {
            delete_branch()
        } else if bare_at(s, seq!['D'], from) {
            delete_first_branch()
        } else {
            seq![s[from]]
        }) + both_replaced(s, from + 1)
    }
}

/// The rest of a script behind a character, with every bare command of two
/// kinds replaced.
spec fn rest_both(
    prev: Option<char>,
    rest: Seq<char>,
    one: Seq<char>,
    by_one: Seq<char>,
    two: Seq<char>,
    by_two: Seq<char>,
) -> Seq<char>
    decreases rest.len(),
{
    if rest.len() == 0 {
        Seq::empty()
    } else {
        (if bare_first(prev, rest, one) {
            by_one
        } else if bare_first(prev, rest, two) {
            by_two
        } else {
            seq![rest[0]]
        }) + rest_both(Some(rest[0]), rest.skip(1), one, by_one, two, by_two)
    }
}

proof fn lemma_rest_both(s: Seq<char>, from: int)
    requires
        0 <= from <= s.len(),
    ensures
        rest_both(char_before(s, from), s.skip(from), seq!['d'], delete_branch(), seq!['D'], delete_first_branch())
            == both_replaced(s, from),
    decreases s.len() - from,
{
    lemma_bare_first(s, seq!['d'], from);
    lemma_bare_first(s, seq!['D'], from);
    if from < s.len() {
        lemma_rest_both(s, from + 1);
        assert(s.skip(from).skip(1) =~= s.skip(from + 1));
    }
}

/// No letter is one of both kinds, so it makes no difference which is asked
/// for first.
proof fn lemma_rest_both_swapped(
    prev: Option<char>,
    rest: Seq<char>,
    one: Seq<char>,
    by_one: Seq<char>,
    two: Seq<char>,
    by_two: Seq<char>,
)
    requires
        forall|c: char| !(#[trigger] one.contains(c) && two.contains(c)),
    ensures
        rest_both(prev, rest, one, by_one, two, by_two) == rest_both(prev, rest, two, by_two, one, by_one),
    decreases rest.len(),
{
    if rest.len() > 0 {
        assert(!(one.contains(rest[0]) && two.contains(rest[0])));
        lemma_rest_both_swapped(Some(rest[0]), rest.skip(1), one, by_one, two, by_two);
    }
}

/// What the rest of a script begins with once its bare commands are replaced,
/// behind a character that opens no command: what it began with.
proof fn lemma_begins_alike(prev: Option<char>, rest: Seq<char>, letters: Seq<char>, by: Seq<char>)
    requires
        by.len() > 0,
        !may_open(prev),
    ensures
        rest_substituted(prev, rest, letters, by).len() == 0 <==> rest.len() == 0,
        rest.len() > 0 ==> rest_substituted(prev, rest, letters, by)[0] == rest[0],
{
}

/// Replacing commands of a second kind after those of a first is replacing
/// both at once.
proof fn lemma_one_then_two(
    prev: Option<char>,
    other: Option<char>,
    rest: Seq<char>,
    one: Seq<char>,
    by_one: Seq<char>,
    two: Seq<char>,
    by_two: Seq<char>,
)
    requires
        are_letters(one),
        are_letters(two),
        settled(by_one, two),
        may_open(prev) == may_open(other),
    ensures
        rest_substituted(other, rest_substituted(prev, rest, one, by_one), two, by_two) == rest_both(
            prev,
            rest,
            one,
            by_one,
            two,
            by_two,
        ),
    decreases rest.len(),
{
    let out = rest_substituted(prev, rest, one, by_one);
    if rest.len() > 0 {
        let next = Some(rest[0]);
        let tail = rest_substituted(next, rest.skip(1), one, by_one);
        if bare_first(prev, rest, one) {
            assert(one.contains(rest[0]));
            lemma_substituted_behind(other, by_one, tail, two, by_two);
            lemma_no_letter_first(Some(by_one.last()), next, rest.skip(1), one, by_one, two, by_two);
            lemma_one_then_two(next, next, rest.skip(1), one, by_one, two, by_two);
        } else {
            lemma_one_then_two(next, next, rest.skip(1), one, by_one, two, by_two);
            assert(out =~= seq![rest[0]] + tail);
            assert(out.skip(1) =~= tail);
            assert(bare_first(other, out, two) == bare_first(prev, rest, two)) by {
                if two.contains(rest[0]) {
                    lemma_begins_alike(next, rest.skip(1), one, by_one);
                }
            }
            assert(rest_substituted(other, out, two, by_two) =~= rest_both(prev, rest, one, by_one, two, by_two));
        }
    }
}

/// Whether the character before the rest of a script opens a command makes no
/// difference where the rest begins with no letter.
proof fn lemma_no_letter_first(
    before: Option<char>,
    prev: Option<char>,
    rest: Seq<char>,
    one: Seq<char>,
    by_one: Seq<char>,
    two: Seq<char>,
    by_two: Seq<char>,
)
    requires
        are_letters(one),
        are_letters(two),
        by_one.len() > 0,
        rest.len() > 0 ==> closes_command(rest[0]),
    ensures
        rest_substituted(before, rest_substituted(prev, rest, one, by_one), two, by_two) == rest_substituted(
            prev,
            rest_substituted(prev, rest, one, by_one),
            two,
            by_two,
        ),
{
    if rest.len() > 0 {
        assert(!one.contains(rest[0]));
        assert(!two.contains(rest[0]));
        assert(rest_substituted(prev, rest, one, by_one)[0] == rest[0]);
    }
}

/// Both kinds of delete are letters of their own.
proof fn lemma_delete_letters()
    ensures
        are_letters(seq!['d']),
        are_letters(seq!['D']),
        forall|c: char| !(#[trigger] seq!['d'].contains(c) && seq!['D'].contains(c)),
{
    lemma_one_letter('d');
    lemma_one_letter('D');
}

/// Instrumenting a script replaces every bare `d` and every bare `D`, and
/// changes nothing else.
pub proof fn law_every_delete_replaced(script: Seq<char>)
    ensures
        rewritten(script) == both_replaced(script, 0),
{
    let middle = without_delete(script);
    assert(script.skip(0) =~= script);
    assert(middle.skip(0) =~= middle);
    lemma_rest_substituted(script, seq!['d'], delete_branch(), 0);
    lemma_rest_substituted(middle, seq!['D'], delete_first_branch(), 0);
    lemma_delete_letters();
    lemma_branches_settled();
    lemma_one_then_two(None, None, script, seq!['d'], delete_branch(), seq!['D'], delete_first_branch());
    lemma_rest_both(script, 0);
}

/// It makes no difference whether `d` or `D` is replaced first.
pub proof fn law_deletes_replaced_in_either_order(script: Seq<char>)
    ensures
        without_delete_first(without_delete(script)) == without_delete(without_delete_first(script)),
{
    let middle = without_delete_first(script);
    law_every_delete_replaced(script);
    assert(script.skip(0) =~= script);
    assert(middle.skip(0) =~= middle);
    lemma_rest_substituted(script, seq!['D'], delete_first_branch(), 0);
    lemma_rest_substituted(middle, seq!['d'], delete_branch(), 0);
    lemma_delete_letters();
    lemma_branches_settled();
    lemma_one_then_two(None, None, script, seq!['D'], delete_first_branch(), seq!['d'], delete_branch());
    lemma_rest_both_swapped(None, script, seq!['d'], delete_branch(), seq!['D'], delete_first_branch());
    lemma_rest_both(script, 0);
}

/// Whether no command in the rest of a script behind a character is bare.
spec fn none_bare(prev: Option<char>, rest: Seq<char>, letters: Seq<char>) -> bool
    decreases rest.len(),
{
    rest.len() == 0 || (!bare_first(prev, rest, letters) && none_bare(Some(rest[0]), rest.skip(1), letters))
}

proof fn lemma_none_bare(s: Seq<char>, letters: Seq<char>, from: int, j: int)
    requires
        0 <= from <= j,
        from <= s.len(),
        none_bare(char_before(s, from), s.skip(from), letters),
    ensures
        !bare_at(s, letters, j),
    decreases j - from,
{
    if from < s.len() {
        lemma_bare_first(s, letters, from);
        assert(s.skip(from).skip(1) =~= s.skip(from + 1));
        if from < j {
            lemma_none_bare(s, letters, from + 1, j);
        }
    }
}

/// A text that holds no bare command adds none.
proof fn lemma_none_bare_behind(prev: Option<char>, text: Seq<char>, tail: Seq<char>, letters: Seq<char>)
    requires
        text.len() > 0,
        letters.contains(text[0]) ==> !may_open(prev),
        forall|j: int|
            0 < j < text.len() && letters.contains(#[trigger] text[j]) ==> !opens_command(text[j - 1]),
        none_bare(Some(text.last()), tail, letters),
    ensures
        none_bare(prev, text + tail, letters),
    decreases text.len(),
{
    let whole = text + tail;
    let next = text.skip(1);
    assert(whole[0] == text[0]);
    assert(whole.skip(1) =~= next + tail);
    if text.len() > 1 {
        assert forall|j: int| 0 < j < next.len() && letters.contains(#[trigger] next[j]) implies
            !opens_command(next[j - 1]) by {
            assert(next[j] == text[j + 1]);
        }
        assert(next[0] == text[1]);
        assert(next.last() == text.last());
        lemma_none_bare_behind(Some(text[0]), next, tail, letters);
    } else {
        assert(next + tail =~= tail);
    }
}

/// Replacing every bare command leaves none.
proof fn lemma_none_left(
    prev: Option<char>,
    other: Option<char>,
    rest: Seq<char>,
    letters: Seq<char>,
    by: Seq<char>,
)
    requires
        are_letters(letters),
        settled(by, letters),
        may_open(prev) == may_open(other) || (rest.len() > 0 ==> closes_command(rest[0])),
    ensures
        none_bare(other, rest_substituted(prev, rest, letters, by), letters),
    decreases rest.len(),
{
    let out = rest_substituted(prev, rest, letters, by);
    if rest.len() > 0 {
        let next = Some(rest[0]);
        let tail = rest_substituted(next, rest.skip(1), letters, by);
        if bare_first(prev, rest, letters) {
            assert(letters.contains(rest[0]));
            lemma_none_left(next, Some(by.last()), rest.skip(1), letters, by);
            lemma_none_bare_behind(other, by, tail, letters);
        } else {
            lemma_none_left(next, next, rest.skip(1), letters, by);
            assert(out =~= seq![rest[0]] + tail);
            assert(out.skip(1) =~= tail);
            if letters.contains(rest[0]) {
                lemma_begins_alike(next, rest.skip(1), letters, by);
            }
        }
    }
}

proof fn lemma_none_left_in(script: Seq<char>, letter: char, by: Seq<char>)
    requires
        are_letters(seq![letter]),
        settled(by, seq![letter]),
    ensures
        !has_bare(substituted(script, seq![letter], by, 0), seq![letter]),
{
    let letters = seq![letter];
    let out = substituted(script, letters, by, 0);
    assert(script.skip(0) =~= script);
    assert(out.skip(0) =~= out);
    lemma_rest_substituted(script, letters, by, 0);
    lemma_none_left(None, None, script, letters, by);
    assert forall|j: int| !bare_at(out, letters, j) by {
        if j >= 0 {
            lemma_none_bare(out, letters, 0, j);
        }
    }
}

/// Instrumenting a script leaves no bare `d` and no bare `D` in it.
pub proof fn law_no_delete_left(script: Seq<char>)
    ensures
        !has_bare(rewritten(script), seq!['d']),
        !has_bare(rewritten(script), seq!['D']),
{
    lemma_delete_letters();
    lemma_branches_settled();
    law_deletes_replaced_in_either_order(script);
    lemma_none_left_in(without_delete(script), 'D', delete_first_branch());
    lemma_none_left_in(without_delete_first(script), 'd', delete_branch());
}

/// White space, the Unicode property.
pub open spec fn is_blank(c: char) -> bool {
    ||| c == ' ' || c == '\t' || c == '\n' || c == '\r' || c == '\u{b}' || c == '\u{c}'
    ||| c == '\u{85}' || c == '\u{a0}' || c == '\u{1680}' || c == '\u{2028}' || c == '\u{2029}'
    ||| c == '\u{202f}' || c == '\u{205f}' || c == '\u{3000}'
    ||| '\u{2000}' <= c <= '\u{200a}'
}

/// Whether a command may stand behind a text: at the start of a script, or
/// behind a separator, a brace, white space, or the end of an address.
pub open spec fn command_may_follow(text: Seq<char>) -> bool {
    text.len() == 0 || {
        let c = text[text.len() - 1];
        ||| c == ';' || c == '{' || c == '}' || is_blank(c)
        ||| '0' <= c <= '9' || c == '$' || c == ',' || c == '!' || c == '/'
    }
}

/// Whether a command may stand before a text: at the end of a script, or
/// before a separator, a closing brace or white space.
pub open spec fn command_may_precede(text: Seq<char>) -> bool {
    text.len() == 0 || text[0] == ';' || text[0] == '}' || is_blank(text[0])
}

/// Whether a letter at `j` stands alone as a command.
pub open spec fn alone(s: Seq<char>, j: int, letter: char) -> bool {
    &&& 0 <= j < s.len()
    &&& s[j] == letter
    &&& command_may_follow(s.take(j))
    &&& command_may_precede(s.skip(j + 1))
}

proof fn lemma_alone(s: Seq<char>, j: int, letter: char)
    ensures
        alone(s, j, letter) == bare_at(s, seq![letter], j),
{
    lemma_one_letter(letter);
    if 0 <= j < s.len() {
        if j > 0 {
            assert(s.take(j)[j - 1] == s[j - 1]);
        }
        if j + 1 < s.len() {
            assert(s.skip(j + 1)[0] == s[j + 1]);
        }
    }
}

/// A script in which no `d` stands alone keeps every character, and so does
/// one in which no `D` does.
pub proof fn law_only_lone_letters_replaced(script: Seq<char>)
    ensures
        (forall|j: int| !#[trigger] alone(script, j, 'd')) ==> without_delete(script) == script,
        (forall|j: int| !#[trigger] alone(script, j, 'D')) ==> without_delete_first(script) == script,
        (forall|j: int| !#[trigger] alone(script, j, 'd')) && (forall|j: int| !#[trigger] alone(script, j, 'D'))
            ==> rewritten(script) == script,
{
    if forall|j: int| !#[trigger] alone(script, j, 'd') {
        assert forall|j: int| !bare_at(script, seq!['d'], j) by {
            lemma_alone(script, j, 'd');
            assert(!alone(script, j, 'd'));
        }
        law_nothing_to_replace(script, seq!['d'], delete_branch());
    }
    if forall|j: int| !#[trigger] alone(script, j, 'D') {
        assert forall|j: int| !bare_at(script, seq!['D'], j) by {
            lemma_alone(script, j, 'D');
            assert(!alone(script, j, 'D'));
        }
        law_nothing_to_replace(script, seq!['D'], delete_first_branch());
    }
}

/// The hold space is in use exactly where one of its commands stands alone.
pub proof fn law_hold_use(script: Seq<char>)
    ensures
        has_bare(script, seq!['h', 'H', 'g', 'G', 'x']) <==> exists|j: int|
            {
                ||| #[trigger] alone(script, j, 'h')
                ||| alone(script, j, 'H')
                ||| alone(script, j, 'g')
                ||| alone(script, j, 'G')
                ||| alone(script, j, 'x')
            },
{
    let letters = seq!['h', 'H', 'g', 'G', 'x'];
    assert forall|j: int| bare_at(script, letters, j) <==> {
        ||| #[trigger] alone(script, j, 'h')
        ||| alone(script, j, 'H')
        ||| alone(script, j, 'g')
        ||| alone(script, j, 'G')
        ||| alone(script, j, 'x')
    } by {
        lemma_alone(script, j, 'h');
        lemma_alone(script, j, 'H');
        lemma_alone(script, j, 'g');
        lemma_alone(script, j, 'G');
        lemma_alone(script, j, 'x');
        lemma_one_letter('h');
        lemma_one_letter('H');
        lemma_one_letter('g');
        lemma_one_letter('G');
        lemma_one_letter('x');
        assert(letters[0] == 'h' && letters[1] == 'H' && letters[2] == 'g' && letters[3] == 'G' && letters[4] == 'x');
        if 0 <= j < script.len() {
            let c = script[j];
            if letters.contains(c) {
                let k = choose|k: int| 0 <= k < letters.len() && letters[k] == c;
                assert(k == 0 || k == 1 || k == 2 || k == 3 || k == 4);
            }
            assert(letters.contains('h')) by {
                assert(letters[0] == 'h');
            }
            assert(letters.contains('H')) by {
                assert(letters[1] == 'H');
            }
            assert(letters.contains('g')) by {
                assert(letters[2] == 'g');
            }
            assert(letters.contains('G')) by {
                assert(letters[3] == 'G');
            }
            assert(letters.contains('x')) by {
                assert(letters[4] == 'x');
            }
        }
    }
    if has_bare(script, letters) {
        let j = choose|j: int| bare_at(script, letters, j);
        assert(alone(script, j, 'h') || alone(script, j, 'H') || alone(script, j, 'g') || alone(script, j, 'G')
            || alone(script, j, 'x'));
    }
}

/// Around a place where a command stands alone, the two sides are rewritten
/// each on its own.
proof fn lemma_sides(pre: Seq<char>, c: char, post: Seq<char>, letters: Seq<char>, by: Seq<char>)
    requires
        are_letters(letters),
        command_may_follow(pre),
        command_may_precede(post),
    ensures
        ({
            let s = pre + seq![c] + post;
            substituted(s, letters, by, 0) == substituted(pre, letters, by, 0) + (if letters.contains(c) {
                by
            } else {
                seq![c]
            }) + substituted(post, letters, by, 0)
        }),
{
    let s = pre + seq![c] + post;
    let n = pre.len() as int;
    lemma_left_side(pre, c, post, letters, by, 0);
    lemma_right_side(pre, c, post, letters, by, 0);
    assert(s[n] == c);
    assert(n > 0 ==> s[n - 1] == pre[n - 1]);
    assert(post.len() > 0 ==> s[n + 1] == post[0]);
    assert(bare_at(s, letters, n) == letters.contains(c));
    let here = if letters.contains(c) { by } else { seq![c] };
    assert(substituted(s, letters, by, n) == here + substituted(s, letters, by, n + 1));
    assert(substituted(s, letters, by, 0) =~= substituted(pre, letters, by, 0) + here + substituted(
        post,
        letters,
        by,
        0,
    ));
}

proof fn lemma_left_side(pre: Seq<char>, c: char, post: Seq<char>, letters: Seq<char>, by: Seq<char>, from: int)
    requires
        are_letters(letters),
        command_may_follow(pre),
        0 <= from <= pre.len(),
    ensures
        ({
            let s = pre + seq![c] + post;
            substituted(s, letters, by, from) == substituted(pre, letters, by, from) + substituted(
                s,
                letters,
                by,
                pre.len() as int,
            )
        }),
    decreases pre.len() - from,
{
    let s = pre + seq![c] + post;
    if from < pre.len() {
        lemma_left_side(pre, c, post, letters, by, from + 1);
        assert(s[from] == pre[from]);
        if from + 1 < pre.len() {
            assert(s[from + 1] == pre[from + 1]);
        } else {
            assert(!letters.contains(pre[from]));
        }
        assert(bare_at(s, letters, from) == bare_at(pre, letters, from));
        assert(substituted(s, letters, by, from) =~= substituted(pre, letters, by, from) + substituted(
            s,
            letters,
            by,
            pre.len() as int,
        ));
    } else {
        assert(substituted(pre, letters, by, from) =~= Seq::empty());
        assert(Seq::empty() + substituted(s, letters, by, from) =~= substituted(s, letters, by, from));
    }
}

proof fn lemma_right_side(pre: Seq<char>, c: char, post: Seq<char>, letters: Seq<char>, by: Seq<char>, k: int)
    requires
        are_letters(letters),
        command_may_precede(post),
        0 <= k <= post.len(),
    ensures
        substituted(pre + seq![c] + post, letters, by, pre.len() + 1 + k) == substituted(post, letters, by, k),
    decreases post.len() - k,
{
    let s = pre + seq![c] + post;
    let at = pre.len() + 1 + k;
    if k < post.len() {
        lemma_right_side(pre, c, post, letters, by, k + 1);
        assert(s[at] == post[k]);
        if k > 0 {
            assert(s[at - 1] == post[k - 1]);
        } else {
            assert(!letters.contains(post[0]));
        }
        if k + 1 < post.len() {
            assert(s[at + 1] == post[k + 1]);
        }
        assert(bare_at(s, letters, at) == bare_at(post, letters, k));
    }
}

/// What may stand next to a command is no letter, and stays where it is.
proof fn lemma_outer_kept(s: Seq<char>, letters: Seq<char>, by: Seq<char>)
    requires
        are_letters(letters),
    ensures
        command_may_follow(s) ==> command_may_follow(substituted(s, letters, by, 0)),
        command_may_precede(s) ==> command_may_precede(substituted(s, letters, by, 0)),
{
    if s.len() > 0 {
        if command_may_follow(s) {
            assert(!letters.contains(s[s.len() - 1]));
            lemma_last_kept(s, letters, by, 0);
        }
        if command_may_precede(s) {
            assert(!letters.contains(s[0]));
            assert(substituted(s, letters, by, 0)[0] == s[0]);
        }
    }
}

proof fn lemma_last_kept(s: Seq<char>, letters: Seq<char>, by: Seq<char>, from: int)
    requires
        0 <= from < s.len(),
        !letters.contains(s[s.len() - 1]),
    ensures
        substituted(s, letters, by, from).len() > 0,
        substituted(s, letters, by, from).last() == s[s.len() - 1],
    decreases s.len() - from,
{
    if from + 1 < s.len() {
        lemma_last_kept(s, letters, by, from + 1);
    } else {
        assert(substituted(s, letters, by, from + 1) =~= Seq::empty());
    }
}

/// The texts that take the place of `d` and `D`.
proof fn lemma_branch_texts()
    ensures
        delete_branch() == "b ISED_DEL"@,
        delete_first_branch() == "{ /\\n/!b ISED_DEL; s/^[^\\n]*\\n//; t ISED_TOP }"@,
{
    reveal_strlit("b ");
    reveal_strlit("ISED_DEL");
    reveal_strlit("ISED_TOP");
    reveal_strlit("b ISED_DEL");
    reveal_strlit("{ /\\n/!b ");
    reveal_strlit("; s/^[^\\n]*\\n//; t ");
    reveal_strlit(" }");
    reveal_strlit("{ /\\n/!b ISED_DEL; s/^[^\\n]*\\n//; t ISED_TOP }");
    assert(delete_branch() =~= "b ISED_DEL"@);
    assert(delete_first_branch() =~= "{ /\\n/!b ISED_DEL; s/^[^\\n]*\\n//; t ISED_TOP }"@);
}

/// A `d` that stands alone gives way to a branch, wherever in a script it is,
/// and what stands before and behind it is rewritten as if it stood by itself.
pub proof fn law_lone_delete_becomes_branch(pre: Seq<char>, post: Seq<char>)
    requires
        command_may_follow(pre),
        command_may_precede(post),
    ensures
        without_delete(pre + seq!['d'] + post) == without_delete(pre) + "b ISED_DEL"@ + without_delete(post),
        rewritten(pre + seq!['d'] + post) == rewritten(pre) + "b ISED_DEL"@ + rewritten(post),
{
    let by = delete_branch();
    let first_by = delete_first_branch();
    lemma_delete_letters();
    lemma_one_letter('d');
    lemma_one_letter('D');
    lemma_branch_texts();
    lemma_sides(pre, 'd', post, seq!['d'], by);
    lemma_sides(pre, 'd', post, seq!['D'], first_by);
    let s = pre + seq!['d'] + post;
    let left = without_delete_first(pre);
    let right = without_delete_first(post);
    assert(without_delete_first(s) == left + seq!['d'] + right);
    law_deletes_replaced_in_either_order(s);
    law_deletes_replaced_in_either_order(pre);
    law_deletes_replaced_in_either_order(post);
    lemma_outer_kept(pre, seq!['D'], first_by);
    lemma_outer_kept(post, seq!['D'], first_by);
    lemma_sides(left, 'd', right, seq!['d'], by);
}

/// A `D` that stands alone gives way to the group that stands for it, wherever
/// in a script it is, and what stands before and behind it is rewritten as if
/// it stood by itself.
pub proof fn law_lone_delete_first_becomes_group(pre: Seq<char>, post: Seq<char>)
    requires
        command_may_follow(pre),
        command_may_precede(post),
    ensures
        without_delete_first(pre + seq!['D'] + post) == without_delete_first(pre)
            + "{ /\\n/!b ISED_DEL; s/^[^\\n]*\\n//; t ISED_TOP }"@ + without_delete_first(post),
        rewritten(pre + seq!['D'] + post) == rewritten(pre)
            + "{ /\\n/!b ISED_DEL; s/^[^\\n]*\\n//; t ISED_TOP }"@ + rewritten(post),
{
    let by = delete_branch();
    let first_by = delete_first_branch();
    lemma_delete_letters();
    lemma_one_letter('d');
    lemma_one_letter('D');
    lemma_branch_texts();
    lemma_sides(pre, 'D', post, seq!['D'], first_by);
    lemma_sides(pre, 'D', post, seq!['d'], by);
    let s = pre + seq!['D'] + post;
    let left = without_delete(pre);
    let right = without_delete(post);
    assert(without_delete(s) == left + seq!['D'] + right);
    lemma_outer_kept(pre, seq!['d'], by);
    lemma_outer_kept(post, seq!['d'], by);
    lemma_sides(left, 'D', right, seq!['D'], first_by);
}

} // verus!
