//! Text as sequences of characters: lines, and numbers written in decimal.

use vstd::prelude::*;

verus! {

/// `String::push` of the standard library: the character goes to the end of
/// the string, and nothing else changes.
pub assume_specification[ String::push ](s: &mut String, c: char)
    ensures
        final(s)@ == old(s)@.push(c),
;

/// What each string of a sequence holds.
pub open spec fn string_views(strings: Seq<String>) -> Seq<Seq<char>> {
    strings.map_values(|s: String| s@)
}

/// What each character vector of a sequence holds.
pub open spec fn char_views(lines: Seq<Vec<char>>) -> Seq<Seq<char>> {
    lines.map_values(|l: Vec<char>| l@)
}

/// The pieces of a text between its newlines: one more than there are
/// newlines, so an empty text is one empty piece.
pub open spec fn split_newlines(s: Seq<char>) -> Seq<Seq<char>>
    decreases s.len(),
{
    if s.len() == 0 {
        seq![Seq::empty()]
    } else {
        let before = split_newlines(s.drop_last());
        if s.last() == '\n' {
            before.push(Seq::empty())
        } else {
            before.drop_last().push(before.last().push(s.last()))
        }
    }
}

/// Lines put together with a newline between each two of them.
pub open spec fn join_lines(lines: Seq<Seq<char>>) -> Seq<char>
    decreases lines.len(),
{
    if lines.len() == 0 {
        Seq::empty()
    } else if lines.len() == 1 {
        lines[0]
    } else {
        join_lines(lines.drop_last()) + seq!['\n'] + lines.last()
    }
}

/// A line without the carriage return that may end it.
pub open spec fn strip_return(line: Seq<char>) -> Seq<char> {
    if line.len() > 0 && line.last() == '\r' {
        line.drop_last()
    } else {
        line
    }
}

/// The lines of an input text. A line ends with `\n` or `\r\n`, which is no
/// part of it; the end of the last line may be missing, and then a carriage
/// return there belongs to the line.
pub open spec fn lines_of(s: Seq<char>) -> Seq<Seq<char>> {
    let pieces = split_newlines(s);
    let ended = pieces.drop_last().map_values(|p: Seq<char>| strip_return(p));
    if pieces.last().len() == 0 {
        ended
    } else {
        ended.push(pieces.last())
    }
}

pub open spec fn has_newline(s: Seq<char>) -> bool {
    s.contains('\n')
}

pub open spec fn is_digit(c: char) -> bool {
    '0' <= c <= '9'
}

pub open spec fn all_digits(s: Seq<char>) -> bool {
    forall|i: int| 0 <= i < s.len() ==> is_digit(#[trigger] s[i])
}

pub open spec fn digit_value(c: char) -> nat {
    (c as int - '0' as int) as nat
}

/// The number that a sequence of decimal digits stands for.
pub open spec fn digits_value(s: Seq<char>) -> nat
    decreases s.len(),
{
    if s.len() == 0 {
        0
    } else {
        digits_value(s.drop_last()) * 10 + digit_value(s.last())
    }
}

/// The digits of a line that may begin with a plus sign.
pub open spec fn unsigned_part(line: Seq<char>) -> Seq<char> {
    if line.len() > 0 && line[0] == '+' {
        line.skip(1)
    } else {
        line
    }
}

/// The number on a line that holds nothing but an optional plus sign and one
/// or more decimal digits, where the number fits in a `usize`.
pub open spec fn number_on(line: Seq<char>) -> Option<usize> {
    let digits = unsigned_part(line);
    if digits.len() > 0 && all_digits(digits) && digits_value(digits) <= usize::MAX {
        Some(digits_value(digits) as usize)
    } else {
        None
    }
}

pub open spec fn digit_char(n: nat) -> char {
    ('0' as int + n) as char
}

/// A number written in decimal, without leading zeros.
pub open spec fn decimal(n: nat) -> Seq<char>
    decreases n,
{
    if n < 10 {
        seq![digit_char(n)]
    } else {
        decimal(n / 10).push(digit_char(n % 10))
    }
}

/// There is always at least one piece.
pub proof fn lemma_split_nonempty(s: Seq<char>)
    ensures
        split_newlines(s).len() > 0,
    decreases s.len(),
{
    if s.len() > 0 {
        lemma_split_nonempty(s.drop_last());
    }
}

/// No piece holds a newline.
pub proof fn law_pieces_hold_no_newline(s: Seq<char>)
    ensures
        forall|i: int| 0 <= i < split_newlines(s).len() ==> !has_newline(#[trigger] split_newlines(s)[i]),
    decreases s.len(),
{
    if s.len() > 0 {
        let before = split_newlines(s.drop_last());
        law_pieces_hold_no_newline(s.drop_last());
        lemma_split_nonempty(s.drop_last());
        if s.last() != '\n' {
            assert(!has_newline(before[before.len() - 1]));
            let piece = before.last().push(s.last());
            assert(!has_newline(piece)) by {
                if has_newline(piece) {
                    let k = choose|k: int| 0 <= k < piece.len() && piece[k] == '\n';
                    assert(k < before.last().len());
                    assert(before.last()[k] == '\n');
                }
            }
        }
    }
}

/// Splitting a text at its newlines loses nothing: the pieces, joined by
/// newlines, are the text.
pub proof fn law_join_undoes_split(s: Seq<char>)
    ensures
        join_lines(split_newlines(s)) == s,
    decreases s.len(),
{
    if s.len() > 0 {
        let before = split_newlines(s.drop_last());
        law_join_undoes_split(s.drop_last());
        lemma_split_nonempty(s.drop_last());
        let pieces = split_newlines(s);
        if s.last() == '\n' {
            assert(pieces.drop_last() =~= before);
            assert(join_lines(pieces) =~= s.drop_last().push('\n'));
        } else {
            assert(pieces.drop_last() =~= before.drop_last());
            assert(join_lines(pieces) =~= join_lines(before).push(s.last()));
        }
        assert(s =~= s.drop_last().push(s.last()));
    } else {
        assert(join_lines(split_newlines(s)) =~= s);
    }
}

/// A text that goes on after another one without a newline only lengthens the
/// last piece.
proof fn lemma_split_append_free(s: Seq<char>, t: Seq<char>)
    requires
        !has_newline(t),
    ensures
        split_newlines(s + t) == split_newlines(s).drop_last().push(split_newlines(s).last() + t),
    decreases t.len(),
{
    lemma_split_nonempty(s);
    let before = split_newlines(s);
    if t.len() == 0 {
        assert(s + t =~= s);
        assert(before.last() + t =~= before.last());
        assert(before.drop_last().push(before.last()) =~= before);
    } else {
        assert(t.last() != '\n') by {
            assert(t.contains(t[t.len() - 1]));
        }
        assert(!has_newline(t.drop_last())) by {
            if has_newline(t.drop_last()) {
                let k = choose|k: int| 0 <= k < t.drop_last().len() && t.drop_last()[k] == '\n';
                assert(t[k] == '\n');
            }
        }
        lemma_split_append_free(s, t.drop_last());
        assert((s + t).drop_last() =~= s + t.drop_last());
        let shorter = split_newlines(s + t.drop_last());
        assert(shorter.drop_last() =~= before.drop_last());
        assert((before.last() + t.drop_last()).push(t.last()) =~= before.last() + t);
    }
}

/// Joining lines loses nothing either: where no line holds a newline, the
/// pieces of the joined text are the lines.
pub proof fn law_split_undoes_join(lines: Seq<Seq<char>>)
    requires
        lines.len() > 0,
        forall|i: int| 0 <= i < lines.len() ==> !has_newline(#[trigger] lines[i]),
    ensures
        split_newlines(join_lines(lines)) == lines,
    decreases lines.len(),
{
    if lines.len() == 1 {
        let empty = Seq::<char>::empty();
        lemma_split_append_free(empty, lines[0]);
        assert(empty + lines[0] =~= lines[0]);
        assert(split_newlines(empty).drop_last() =~= Seq::<Seq<char>>::empty());
        assert(split_newlines(lines[0]) =~= lines);
    } else {
        let init = lines.drop_last();
        law_split_undoes_join(init);
        let head = join_lines(init).push('\n');
        assert(head.drop_last() =~= join_lines(init));
        assert(split_newlines(head) == init.push(Seq::empty()));
        lemma_split_append_free(head, lines.last());
        assert(join_lines(init) + seq!['\n'] + lines.last() =~= head + lines.last());
        assert(split_newlines(head).drop_last() =~= init);
        assert(Seq::<char>::empty() + lines.last() =~= lines.last());
        assert(init.push(lines.last()) =~= lines);
    }
}

/// Joining two groups of lines and putting a newline between them is joining
/// all the lines.
pub proof fn lemma_join_concat(a: Seq<Seq<char>>, b: Seq<Seq<char>>)
    requires
        a.len() > 0,
        b.len() > 0,
    ensures
        join_lines(a + b) == join_lines(a) + seq!['\n'] + join_lines(b),
    decreases b.len(),
{
    let all = a + b;
    assert(all.last() == b.last());
    assert(all.drop_last() =~= a + b.drop_last());
    if b.len() == 1 {
        assert(a + b.drop_last() =~= a);
    } else {
        lemma_join_concat(a, b.drop_last());
        assert(join_lines(all) =~= join_lines(a) + seq!['\n'] + join_lines(b));
    }
}

/// A prefix of a sequence of digits stands for no larger a number than the
/// whole sequence.
proof fn lemma_digits_value_prefix(s: Seq<char>, n: int)
    requires
        0 <= n <= s.len(),
    ensures
        digits_value(s.take(n)) <= digits_value(s),
    decreases s.len(),
{
    if n == s.len() {
        assert(s.take(n) =~= s);
    } else {
        assert(s.drop_last().take(n) =~= s.take(n));
        lemma_digits_value_prefix(s.drop_last(), n);
    }
}

/// A number written in decimal is one or more digits that stand for it.
pub proof fn lemma_decimal(n: nat)
    ensures
        decimal(n).len() > 0,
        all_digits(decimal(n)),
        digits_value(decimal(n)) == n,
    decreases n,
{
    if n < 10 {
        assert(decimal(n).drop_last() =~= Seq::<char>::empty());
        assert(decimal(n).last() == digit_char(n));
        assert(digits_value(decimal(n)) == digits_value(decimal(n).drop_last()) * 10 + digit_value(digit_char(n)));
    } else {
        lemma_decimal(n / 10);
        assert(decimal(n).drop_last() =~= decimal(n / 10));
    }
}

/// Reading a number back from what is written for it in decimal gives the
/// number.
pub proof fn law_number_on_decimal(n: usize)
    ensures
        number_on(decimal(n as nat)) == Some(n),
{
    lemma_decimal(n as nat);
    assert(is_digit(decimal(n as nat)[0]));
    assert(unsigned_part(decimal(n as nat)) == decimal(n as nat));
}

/// The string that holds the given characters.
pub fn string_of(chars: &[char]) -> (s: String)
    ensures
        s@ == chars@,
{
    let mut s = String::new();
    for i in 0..chars.len()
        invariant
            s@ == chars@.take(i as int),
    {
        s.push(chars[i]);
    }
    s
}

/// The pieces of a text between its newlines.
pub fn split_lines(s: &str) -> (lines: Vec<Vec<char>>)
    ensures
        char_views(lines@) == split_newlines(s@),
{
    let mut lines: Vec<Vec<char>> = Vec::new();
    let mut piece: Vec<char> = Vec::new();
    for c in it: s.chars()
        invariant
            it.seq() == s@,
            char_views(lines@).push(piece@) == split_newlines(s@.take(it.index())),
    {
        proof {
            assert(s@.take(it.index() + 1).drop_last() =~= s@.take(it.index()));
            assert(char_views(lines@).push(piece@).drop_last() =~= char_views(lines@));
            assert(char_views(lines@.push(piece)) =~= char_views(lines@).push(piece@));
        }
        if c == '\n' {
            lines.push(piece);
            piece = Vec::new();
        } else {
            piece.push(c);
        }
    }
    proof {
        assert(s@.take(s@.len() as int) =~= s@);
        assert(char_views(lines@.push(piece)) =~= char_views(lines@).push(piece@));
    }
    lines.push(piece);
    lines
}

/// The lines `from..to` of a text, joined by newlines.
pub fn join_range(lines: &[String], from: usize, to: usize) -> (s: String)
    requires
        from <= to <= lines@.len(),
    ensures
        s@ == join_lines(string_views(lines@).subrange(from as int, to as int)),
{
    let mut s = String::new();
    for i in from..to
        invariant
            from <= to <= lines@.len(),
            s@ == join_lines(string_views(lines@).subrange(from as int, i as int)),
    {
        proof {
            let upto = string_views(lines@).subrange(from as int, i + 1);
            assert(upto.drop_last() =~= string_views(lines@).subrange(from as int, i as int));
            assert(upto.last() == lines@[i as int]@);
        }
        if i > from {
            s.push('\n');
        }
        s.append(lines[i].as_str());
        proof {
            let upto = string_views(lines@).subrange(from as int, i + 1);
            assert(s@ =~= join_lines(upto));
        }
    }
    s
}

/// The lines of an input text, without what ends them.
pub fn input_lines(input: &str) -> (lines: Vec<String>)
    ensures
        string_views(lines@) == lines_of(input@),
{
    let pieces = split_lines(input);
    proof {
        lemma_split_nonempty(input@);
        assert(char_views(pieces@).len() == pieces@.len());
    }
    let last: usize = pieces.len() - 1;
    let mut lines: Vec<String> = Vec::new();
    let ghost ended = char_views(pieces@).drop_last().map_values(|p: Seq<char>| strip_return(p));
    for i in 0..last
        invariant
            last + 1 == pieces@.len(),
            ended == char_views(pieces@).drop_last().map_values(|p: Seq<char>| strip_return(p)),
            string_views(lines@) == ended.take(i as int),
    {
        let mut piece: Vec<char> = pieces[i].clone();
        assert(piece@ =~= pieces@[i as int]@);
        if piece.len() > 0 && piece[piece.len() - 1] == '\r' {
            piece.pop();
        }
        assert(piece@ =~= strip_return(pieces@[i as int]@));
        let ghost before = lines@;
        lines.push(string_of(piece.as_slice()));
        assert(string_views(lines@) =~= string_views(before).push(piece@));
        assert(ended.take(i + 1) =~= ended.take(i as int).push(ended[i as int]));
    }
    assert(ended.take(last as int) =~= ended);
    if pieces[last].len() > 0 {
        let ghost before = lines@;
        lines.push(string_of(pieces[last].as_slice()));
        assert(string_views(lines@) =~= string_views(before).push(pieces@[last as int]@));
    }
    lines
}

/// The number on a line, where the line is an optional plus sign and decimal
/// digits and the number fits in a `usize`.
pub fn parse_number(line: &[char]) -> (n: Option<usize>)
    ensures
        n == number_on(line@),
{
    let mut start: usize = 0;
    if line.len() > 0 && line[0] == '+' {
        start = 1;
    }
    let ghost digits = unsigned_part(line@);
    assert(digits =~= line@.skip(start as int));
    if line.len() == start {
        return None;
    }
    let mut n: usize = 0;
    for i in start..line.len()
        invariant
            start <= line@.len(),
            digits == unsigned_part(line@),
            digits == line@.skip(start as int),
            all_digits(digits.take(i - start)),
            n == digits_value(digits.take(i - start)),
    {
        let c = line[i];
        let ghost taken = digits.take(i - start + 1);
        proof {
            assert(c == digits[i - start]);
            assert(taken.drop_last() =~= digits.take(i - start));
            assert(taken.last() == c);
            lemma_digits_value_prefix(digits, i - start + 1);
        }
        if c < '0' || c > '9' {
            return None;
        }
        let digit: usize = c as usize - '0' as usize;
        assert(digits_value(taken) == n * 10 + digit);
        n = match n.checked_mul(10) {
            Some(tens) => match tens.checked_add(digit) {
                Some(sum) => sum,
                None => {
                    return None;
                },
            },
            None => {
                return None;
            },
        };
    }
    assert(digits.take(line@.len() - start) =~= digits);
    Some(n)
}

/// A number written in decimal.
pub fn decimal_string(n: usize) -> (s: String)
    ensures
        s@ == decimal(n as nat),
    decreases n,
{
    let mut s = if n < 10 {
        String::new()
    } else {
        decimal_string(n / 10)
    };
    let digit: u8 = (n % 10) as u8;
    s.push((48u8 + digit) as char);
    assert(s@ =~= decimal(n as nat));
    s
}

} // verus!
