//! What lines and decimal numbers are.

use vstd::prelude::*;

use crate::text::{
    all_digits, char_views, decimal, digit_char, digit_value, digits_value, is_digit, join_lines,
    law_number_on_decimal, lemma_decimal, lemma_split_nonempty, lines_of, number_on, split_newlines, string_views,
    strip_return, unsigned_part,
};

verus! {

/// Strings and character vectors are seen one by one, in order.
pub proof fn law_views_of_texts(strings: Seq<String>, lines: Seq<Vec<char>>)
    ensures
        string_views(strings).len() == strings.len(),
        forall|i: int| 0 <= i < strings.len() ==> #[trigger] string_views(strings)[i] == strings[i]@,
        char_views(lines).len() == lines.len(),
        forall|i: int| 0 <= i < lines.len() ==> #[trigger] char_views(lines)[i] == lines[i]@,
{
}

/// Joining goes line by line: nothing for no lines, a line for itself, and one
/// more line behind a newline.
pub proof fn law_join_one_more(lines: Seq<Seq<char>>, line: Seq<char>)
    ensures
        join_lines(Seq::empty()) == Seq::<char>::empty(),
        join_lines(seq![line]) == line,
        lines.len() > 0 ==> join_lines(lines.push(line)) == join_lines(lines) + seq!['\n'] + line,
{
    assert(lines.push(line).drop_last() =~= lines);
}

/// A text without a newline is one piece, and a newline ends the first piece:
/// what follows it is split on its own.
pub proof fn law_split_at_first_newline(line: Seq<char>, rest: Seq<char>)
    requires
        !line.contains('\n'),
    ensures
        split_newlines(line) == seq![line],
        split_newlines(line + seq!['\n'] + rest) == seq![line] + split_newlines(rest),
    decreases line.len() + rest.len(),
{
    lemma_one_piece(line);
    let head = line + seq!['\n'];
    assert(head.drop_last() =~= line);
    let empty = Seq::<char>::empty();
    if rest.len() == 0 {
        assert(head + rest =~= head);
        assert(split_newlines(head) == split_newlines(line).push(empty));
        assert(split_newlines(rest) == seq![empty]);
        assert(seq![line].push(empty) =~= seq![line] + seq![empty]);
    } else {
        let init = rest.drop_last();
        law_split_at_first_newline(line, init);
        assert((head + rest).drop_last() =~= head + init);
        assert((head + rest).last() == rest.last());
        let before = split_newlines(head + init);
        let tail = split_newlines(init);
        lemma_split_nonempty(init);
        assert(before.last() == tail.last());
        assert(before.drop_last() =~= seq![line] + tail.drop_last());
        if rest.last() == '\n' {
            assert(before.push(empty) =~= seq![line] + tail.push(empty));
        } else {
            let piece = tail.last().push(rest.last());
            assert(before.drop_last().push(piece) =~= seq![line] + tail.drop_last().push(piece));
        }
    }
}

proof fn lemma_one_piece(line: Seq<char>)
    requires
        !line.contains('\n'),
    ensures
        split_newlines(line) == seq![line],
    decreases line.len(),
{
    if line.len() > 0 {
        let init = line.drop_last();
        assert forall|i: int| 0 <= i < init.len() implies init[i] != '\n' by {
            assert(line.contains(line[i]));
        }
        lemma_one_piece(init);
        assert(line.contains(line[line.len() - 1]));
        assert(init.push(line.last()) =~= line);
        assert(split_newlines(line) =~= seq![line]);
    } else {
        assert(line =~= Seq::empty());
    }
}

/// An input is read line by line: none in an empty text; a line before each
/// newline, without the one carriage return that may stand there; and what is
/// left behind the last newline, as it is.
pub proof fn law_lines_one_by_one(line: Seq<char>, rest: Seq<char>)
    requires
        !line.contains('\n'),
    ensures
        lines_of(Seq::empty()) == Seq::<Seq<char>>::empty(),
        line.len() > 0 ==> lines_of(line) == seq![line],
        lines_of(line + seq!['\n'] + rest) == seq![
            if line.len() > 0 && line[line.len() - 1] == '\r' {
                line.take(line.len() - 1)
            } else {
                line
            },
        ] + lines_of(rest),
{
    law_split_at_first_newline(line, rest);
    let strip = |p: Seq<char>| strip_return(p);
    let empty = Seq::<char>::empty();
    assert(split_newlines(empty) == seq![empty]);
    assert(lines_of(empty) =~= Seq::<Seq<char>>::empty());
    assert(seq![line].drop_last().map_values(strip) =~= Seq::<Seq<char>>::empty());
    if line.len() > 0 {
        assert(lines_of(line) =~= seq![line]);
    }
    let all = split_newlines(line + seq!['\n'] + rest);
    let tail = split_newlines(rest);
    lemma_split_nonempty(rest);
    assert(all.last() == tail.last());
    assert(all.drop_last() =~= seq![line] + tail.drop_last());
    assert(all.drop_last().map_values(strip) =~= seq![strip_return(line)] + tail.drop_last().map_values(strip));
    assert(lines_of(line + seq!['\n'] + rest) =~= seq![strip_return(line)] + lines_of(rest));
    if line.len() > 0 && line[line.len() - 1] == '\r' {
        assert(line.drop_last() =~= line.take(line.len() - 1));
    }
}

/// A line with a number holds digits, and before them at most a plus sign.
pub proof fn law_number_holds_digits(line: Seq<char>)
    requires
        number_on(line) is Some,
    ensures
        line.len() > 0,
        forall|i: int|
            0 <= i < line.len() ==> '0' <= #[trigger] line[i] <= '9' || (i == 0 && line[i] == '+' && line.len() > 1),
{
    let digits = unsigned_part(line);
    assert forall|i: int| 0 <= i < line.len() implies '0' <= #[trigger] line[i] <= '9' || (i == 0 && line[i] == '+'
        && line.len() > 1) by {
        if line[0] == '+' {
            if i > 0 {
                assert(is_digit(digits[i - 1]));
            }
        } else {
            assert(is_digit(digits[i]));
        }
    }
}

/// A number is read digit by digit, as far as it fits; a plus sign before the
/// digits makes no difference.
pub proof fn law_number_digit_by_digit(digits: Seq<char>, c: char)
    requires
        forall|i: int| 0 <= i < digits.len() ==> '0' <= #[trigger] digits[i] <= '9',
        '0' <= c <= '9',
    ensures
        number_on(seq![c]) == Some((c as int - '0' as int) as usize),
        digits.len() > 0 ==> number_on(digits.push(c)) == match number_on(digits) {
            Some(n) => if n * 10 + (c as int - '0' as int) <= usize::MAX {
                Some((n * 10 + (c as int - '0' as int)) as usize)
            } else {
                None
            },
            None => None,
        },
        digits.len() > 0 ==> number_on(seq!['+'] + digits) == number_on(digits),
{
    let one = seq![c];
    assert(one.drop_last() =~= Seq::<char>::empty());
    assert(digits_value(one) == digits_value(one.drop_last()) * 10 + digit_value(c));
    assert(unsigned_part(one) == one);
    assert(digits_value(Seq::<char>::empty()) == 0);
    if digits.len() > 0 {
        let more = digits.push(c);
        assert('0' <= digits[0] <= '9');
        assert(more[0] == digits[0]);
        assert(more.drop_last() =~= digits);
        assert forall|i: int| 0 <= i < more.len() implies is_digit(#[trigger] more[i]) by {
            if i < digits.len() {
                assert(more[i] == digits[i]);
            }
        }
        assert(all_digits(digits));
        assert(digits_value(more) == digits_value(digits) * 10 + digit_value(c));
        let signed = seq!['+'] + digits;
        assert(signed.skip(1) =~= digits);
    }
}

/// A number is written in digits that read as that number, and begin with a
/// zero only for zero itself.
pub proof fn law_decimal(n: usize)
    ensures
        number_on(decimal(n as nat)) == Some(n),
        forall|i: int| 0 <= i < decimal(n as nat).len() ==> '0' <= #[trigger] decimal(n as nat)[i] <= '9',
        decimal(n as nat).len() > 0,
        decimal(n as nat)[0] == '0' ==> n == 0 && decimal(n as nat).len() == 1,
{
    law_number_on_decimal(n);
    lemma_decimal(n as nat);
    assert forall|i: int| 0 <= i < decimal(n as nat).len() implies '0' <= #[trigger] decimal(n as nat)[i] <= '9' by {
        assert(is_digit(decimal(n as nat)[i]));
    }
    lemma_no_leading_zero(n as nat);
}

proof fn lemma_no_leading_zero(n: nat)
    ensures
        decimal(n).len() > 0,
        n > 0 ==> decimal(n)[0] != '0',
        n == 0 ==> decimal(n).len() == 1,
    decreases n,
{
    if n >= 10 {
        lemma_no_leading_zero(n / 10);
        assert(decimal(n)[0] == decimal(n / 10)[0]);
    } else {
        assert(decimal(n) == seq![digit_char(n)]);
    }
}

} // verus!
