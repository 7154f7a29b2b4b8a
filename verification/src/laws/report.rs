//! What an instrumented script prints, and what is read back from it.

use vstd::prelude::*;

use crate::instrument::{
    begins_with, cycle_views, cycles_before, cycles_in, lemma_tags, line_report, pending_number, pending_pattern,
    report_commands, restored, rewritten, wrapped, Cycle, CycleView, LineReport, DEL_LABEL, END_LABEL, NL_PLACEHOLDER,
    TAG_DELETED, TAG_HOLD, TAG_PATTERN, TOP_LABEL,
};
use crate::text::{
    decimal, has_newline, is_digit, join_lines, law_number_on_decimal, law_split_undoes_join, lemma_decimal, number_on,
    split_newlines,
};

verus! {

/// A value with its newlines replaced by the placeholder, as it is printed.
pub open spec fn hidden(value: Seq<char>) -> Seq<char> {
    value.map_values(|c: char| if c == '\n' { NL_PLACEHOLDER } else { c })
}

/// The lines that report one cycle.
pub open spec fn cycle_lines(cycle: CycleView) -> Seq<Seq<char>> {
    seq![
        (if cycle.printed { TAG_PATTERN@ } else { TAG_DELETED@ }) + hidden(cycle.pattern_space),
        decimal(cycle.end_line as nat),
        TAG_HOLD@ + hidden(cycle.hold_space),
    ]
}

/// The lines that report cycles, one after the other.
pub open spec fn report_lines(cycles: Seq<CycleView>) -> Seq<Seq<char>>
    decreases cycles.len(),
{
    if cycles.len() == 0 {
        Seq::empty()
    } else {
        report_lines(cycles.drop_last()) + cycle_lines(cycles.last())
    }
}

/// Lines as they are printed, each with a newline at its end.
pub open spec fn printed_lines(lines: Seq<Seq<char>>) -> Seq<char> {
    join_lines(lines.push(Seq::empty()))
}

/// Whether neither the pattern space nor the hold space of a cycle holds the
/// placeholder.
pub open spec fn reportable(cycle: CycleView) -> bool {
    !cycle.pattern_space.contains(NL_PLACEHOLDER) && !cycle.hold_space.contains(NL_PLACEHOLDER)
}

/// Whether a line is one of the instrumentation, or could be taken for one.
pub open spec fn is_report(line: Seq<char>) -> bool {
    line_report(line) !is Other
}

/// The newlines of a value without placeholders survive being hidden.
pub proof fn law_restored_hidden(value: Seq<char>)
    requires
        !value.contains(NL_PLACEHOLDER),
    ensures
        restored(hidden(value)) == value,
        !has_newline(hidden(value)),
{
    assert forall|i: int| 0 <= i < value.len() implies restored(hidden(value))[i] == value[i] by {
        assert(value.contains(value[i]));
    }
    assert(restored(hidden(value)) =~= value);
    assert forall|i: int| 0 <= i < value.len() implies hidden(value)[i] != '\n' by {}
}

/// What is read from the first `k` lines depends on them alone.
proof fn lemma_prefix(a: Seq<Seq<char>>, b: Seq<Seq<char>>, k: int)
    requires
        0 <= k <= a.len(),
        k <= b.len(),
        a.take(k) == b.take(k),
    ensures
        pending_pattern(a, k) == pending_pattern(b, k),
        pending_number(a, k) == pending_number(b, k),
        cycles_before(a, k) == cycles_before(b, k),
    decreases k,
{
    if k > 0 {
        assert(a.take(k - 1) =~= a.take(k).take(k - 1));
        assert(b.take(k - 1) =~= b.take(k).take(k - 1));
        assert(a[k - 1] == a.take(k)[k - 1]);
        assert(b[k - 1] == b.take(k)[k - 1]);
        lemma_prefix(a, b, k - 1);
    }
}

/// What the three lines of a cycle say.
proof fn lemma_cycle_lines(cycle: CycleView)
    requires
        reportable(cycle),
    ensures
        line_report(cycle_lines(cycle)[0]) == LineReport::Pattern(cycle.pattern_space, cycle.printed),
        line_report(cycle_lines(cycle)[1]) == LineReport::Number(cycle.end_line),
        line_report(cycle_lines(cycle)[2]) == LineReport::Hold(cycle.hold_space),
        forall|i: int| 0 <= i < 3 ==> !has_newline(#[trigger] cycle_lines(cycle)[i]),
{
    lemma_tags();
    law_restored_hidden(cycle.pattern_space);
    law_restored_hidden(cycle.hold_space);
    let tag = if cycle.printed { TAG_PATTERN@ } else { TAG_DELETED@ };
    let first = cycle_lines(cycle)[0];
    let second = cycle_lines(cycle)[1];
    let third = cycle_lines(cycle)[2];
    assert(first.take(3) =~= tag);
    assert(first.skip(3) =~= hidden(cycle.pattern_space));
    assert(third.take(3) =~= TAG_HOLD@);
    assert(third.skip(3) =~= hidden(cycle.hold_space));
    assert(tag[1] == first.take(3)[1]);
    assert(TAG_PATTERN@[1] != TAG_DELETED@[1]);
    assert(third.take(3)[1] == 'H');
    assert(TAG_PATTERN@[1] != 'H' && TAG_DELETED@[1] != 'H');
    lemma_decimal(cycle.end_line as nat);
    law_number_on_decimal(cycle.end_line);
    assert(is_digit(second[0]));
    assert forall|t: Seq<char>| t.len() > 0 && t[0] == '\x01' implies !#[trigger] begins_with(second, t) by {
        if begins_with(second, t) {
            assert(second[0] == second.take(t.len() as int)[0]);
        }
    }
    assert forall|i: int| 0 <= i < first.len() implies first[i] != '\n' by {
        if i >= 3 {
            assert(first[i] == hidden(cycle.pattern_space)[i - 3]);
        }
    }
    assert forall|i: int| 0 <= i < third.len() implies third[i] != '\n' by {
        if i >= 3 {
            assert(third[i] == hidden(cycle.hold_space)[i - 3]);
        }
    }
    assert forall|i: int| 0 <= i < second.len() implies second[i] != '\n' by {
        assert(is_digit(second[i]));
    }
}

/// What is read from the lines that report cycles.
proof fn lemma_report_lines(cycles: Seq<CycleView>)
    requires
        forall|i: int| 0 <= i < cycles.len() ==> reportable(#[trigger] cycles[i]),
    ensures
        ({
            let lines = report_lines(cycles);
            let n = lines.len() as int;
            &&& cycles_before(lines, n) == cycles
            &&& pending_pattern(lines, n) is None
            &&& pending_number(lines, n) is None
            &&& forall|i: int| 0 <= i < n ==> !has_newline(#[trigger] lines[i])
        }),
    decreases cycles.len(),
{
    let lines = report_lines(cycles);
    if cycles.len() > 0 {
        let init = report_lines(cycles.drop_last());
        let cycle = cycles.last();
        let n = init.len() as int;
        assert(reportable(cycles[cycles.len() - 1]));
        assert forall|i: int| 0 <= i < cycles.drop_last().len() implies reportable(
            #[trigger] cycles.drop_last()[i],
        ) by {
            assert(cycles.drop_last()[i] == cycles[i]);
        }
        lemma_report_lines(cycles.drop_last());
        lemma_cycle_lines(cycle);
        assert(lines.take(n) =~= init.take(n));
        lemma_prefix(lines, init, n);
        assert(lines[n] == cycle_lines(cycle)[0]);
        assert(lines[n + 1] == cycle_lines(cycle)[1]);
        assert(lines[n + 2] == cycle_lines(cycle)[2]);
        assert(pending_pattern(lines, n + 1) == Some((cycle.pattern_space, cycle.printed)));
        assert(pending_pattern(lines, n + 2) == Some((cycle.pattern_space, cycle.printed)));
        assert(pending_number(lines, n + 2) == Some(cycle.end_line));
        assert(cycles_before(lines, n + 1) == cycles_before(lines, n));
        assert(cycles_before(lines, n + 2) == cycles_before(lines, n));
        assert(cycles_before(lines, n + 3) =~= cycles.drop_last().push(cycle));
        assert(cycles.drop_last().push(cycle) =~= cycles);
        assert forall|i: int| 0 <= i < lines.len() implies !has_newline(#[trigger] lines[i]) by {
            if i < n {
                assert(lines[i] == init[i]);
            } else {
                assert(lines[i] == cycle_lines(cycle)[i - n]);
            }
        }
    } else {
        assert(cycles_before(lines, 0) =~= cycles);
    }
}

/// Whatever cycles an instrumented script reports, the same cycles are read
/// back from what it prints, as long as their pattern spaces and hold spaces
/// do not hold the placeholder themselves.
pub proof fn law_cycles_read_back(cycles: Seq<CycleView>)
    requires
        forall|i: int| 0 <= i < cycles.len() ==> reportable(#[trigger] cycles[i]),
    ensures
        cycles_in(printed_lines(report_lines(cycles))) == cycles,
{
    lemma_report_lines(cycles);
    lemma_end_of_output(report_lines(cycles));
}

/// The empty piece behind the last newline says nothing.
proof fn lemma_end_of_output(lines: Seq<Seq<char>>)
    requires
        forall|i: int| 0 <= i < lines.len() ==> !has_newline(#[trigger] lines[i]),
    ensures
        cycles_in(printed_lines(lines)) == cycles_before(lines, lines.len() as int),
{
    let n = lines.len() as int;
    let empty = Seq::<char>::empty();
    let all = lines.push(empty);
    lemma_tags();
    assert forall|i: int| 0 <= i < all.len() implies !has_newline(#[trigger] all[i]) by {
        if i < n {
            assert(all[i] == lines[i]);
        }
    }
    law_split_undoes_join(all);
    assert(all.take(n) =~= lines.take(n));
    lemma_prefix(all, lines, n);
    assert(all[n] == empty);
    assert(line_report(empty) is Other);
    assert(cycles_before(all, n + 1) == cycles_before(all, n));
}

/// Output of the script's own does not disturb the reading: lines that are
/// neither tagged nor numbers may stand anywhere between the others.
pub proof fn law_own_output_passed_over(lines: Seq<Seq<char>>)
    ensures
        ({
            let reports = lines.filter(|l: Seq<char>| is_report(l));
            cycles_before(lines, lines.len() as int) == cycles_before(reports, reports.len() as int)
        }),
{
    lemma_own_output(lines);
}

proof fn lemma_own_output(lines: Seq<Seq<char>>)
    ensures
        ({
            let reports = lines.filter(|l: Seq<char>| is_report(l));
            let n = lines.len() as int;
            let m = reports.len() as int;
            &&& cycles_before(lines, n) == cycles_before(reports, m)
            &&& pending_pattern(lines, n) == pending_pattern(reports, m)
            &&& pending_number(lines, n) == pending_number(reports, m)
        }),
    decreases lines.len(),
{
    let keep = |l: Seq<char>| is_report(l);
    let reports = lines.filter(keep);
    let n = lines.len() as int;
    let m = reports.len() as int;
    reveal(Seq::filter);
    if n > 0 {
        let init = lines.drop_last();
        let fewer = init.filter(keep);
        lemma_own_output(init);
        assert(lines.take(n - 1) =~= init.take(n - 1));
        lemma_prefix(lines, init, n - 1);
        assert(lines[n - 1] == lines.last());
        if is_report(lines.last()) {
            assert(keep(lines.last()));
            assert(reports == fewer.push(lines.last()));
            assert(reports.take(m - 1) =~= fewer.take(m - 1));
            lemma_prefix(reports, fewer, m - 1);
        } else {
            assert(!keep(lines.last()));
            assert(reports == fewer);
        }
    }
}

/// The same, for a script that prints on its own between its reports: the
/// cycles are read back from lines of which the reports are those of the
/// cycles.
pub proof fn law_cycles_read_back_among_output(lines: Seq<Seq<char>>, cycles: Seq<CycleView>)
    requires
        forall|i: int| 0 <= i < lines.len() ==> !has_newline(#[trigger] lines[i]),
        forall|i: int| 0 <= i < cycles.len() ==> reportable(#[trigger] cycles[i]),
        lines.filter(|l: Seq<char>| is_report(l)) == report_lines(cycles),
    ensures
        cycles_in(printed_lines(lines)) == cycles,
{
    lemma_end_of_output(lines);
    law_own_output_passed_over(lines);
    lemma_report_lines(cycles);
}

/// Cycles are seen one by one, in order, each with all it holds.
pub proof fn law_views_of_cycles(cycles: Seq<Cycle>)
    ensures
        cycle_views(cycles).len() == cycles.len(),
        forall|i: int|
            #![trigger cycle_views(cycles)[i]]
            0 <= i < cycles.len() ==> {
                &&& cycle_views(cycles)[i].pattern_space == cycles[i].pattern_space@
                &&& cycle_views(cycles)[i].printed == cycles[i].printed
                &&& cycle_views(cycles)[i].hold_space == cycles[i].hold_space@
                &&& cycle_views(cycles)[i].end_line == cycles[i].end_line
            },
{
}

/// The commands around a script are the same for every script: they open a
/// group before it, and behind it report the pattern space, the line number
/// and the hold space.
pub proof fn law_same_commands_around_every_script(script: Seq<char>)
    ensures
        wrapped(script) == ":ISED_TOP\n{\n"@ + rewritten(script) + commands_behind(),
{
    lemma_tags();
    reveal_strlit(":");
    reveal_strlit("ISED_TOP");
    reveal_strlit("ISED_DEL");
    reveal_strlit("ISED_END");
    reveal_strlit("\n{\n");
    reveal_strlit(":ISED_TOP\n{\n");
    assert(":"@ + TOP_LABEL@ + "\n{\n"@ =~= ":ISED_TOP\n{\n"@);
    reveal_strlit("b ");
    reveal_strlit("\n:");
    reveal_strlit("\n");
    reveal_strlit("b ISED_END\n:ISED_DEL\n");
    let middle = "b "@ + END_LABEL@ + "\n:"@ + DEL_LABEL@ + "\n"@;
    assert(middle =~= "b ISED_END\n:ISED_DEL\n"@);
    reveal_strlit("\n=\nx\n");
    reveal_strlit(":ISED_END\n=\nx\n");
    let end = ":"@ + END_LABEL@ + "\n=\nx\n"@;
    assert(end =~= ":ISED_END\n=\nx\n"@);
    reveal_strlit("s/\\n/");
    reveal_strlit("/g\ns/^/");
    reveal_strlit("/\np\n");
    reveal_strlit("s/\\n/\x02/g\ns/^/\x01P\x01/\np\n");
    reveal_strlit("s/\\n/\x02/g\ns/^/\x01X\x01/\np\n");
    reveal_strlit("s/\\n/\x02/g\ns/^/\x01H\x01/\np\n");
    assert(report_commands(TAG_PATTERN@) =~= "s/\\n/\x02/g\ns/^/\x01P\x01/\np\n"@);
    assert(report_commands(TAG_DELETED@) =~= "s/\\n/\x02/g\ns/^/\x01X\x01/\np\n"@);
    assert(report_commands(TAG_HOLD@) =~= "s/\\n/\x02/g\ns/^/\x01H\x01/\np\n"@);
    reveal_strlit("s/^");
    reveal_strlit("//\ns/");
    reveal_strlit("/\\n/g\nx\n");
    reveal_strlit("s/^\x01H\x01//\ns/\x02/\\n/g\nx\n");
    let back = "s/^"@ + TAG_HOLD@ + "//\ns/"@ + seq![NL_PLACEHOLDER] + "/\\n/g\nx\n"@;
    assert(back =~= "s/^\x01H\x01//\ns/\x02/\\n/g\nx\n"@);
    let front = ":"@ + TOP_LABEL@ + "\n{\n"@ + rewritten(script) + "\n}\n"@;
    assert(wrapped(script) =~= front + report_commands(TAG_PATTERN@) + middle + report_commands(TAG_DELETED@) + end
        + report_commands(TAG_HOLD@) + back);
    assert(wrapped(script) =~= ":ISED_TOP\n{\n"@ + rewritten(script) + commands_behind());
}

/// The commands behind a script: the end of its group; the report of a pattern
/// space that is printed, and a branch over the next one; that of a deleted
/// one; the line number; and the report of the hold space, which is put back.
pub open spec fn commands_behind() -> Seq<char> {
    "\n}\n"@ + "s/\\n/\x02/g\ns/^/\x01P\x01/\np\n"@ + "b ISED_END\n:ISED_DEL\n"@
        + "s/\\n/\x02/g\ns/^/\x01X\x01/\np\n"@ + ":ISED_END\n=\nx\n"@ + "s/\\n/\x02/g\ns/^/\x01H\x01/\np\n"@
        + "s/^\x01H\x01//\ns/\x02/\\n/g\nx\n"@
}

/// A substitution among the commands behind a script.
pub enum Edit {
    /// Every one of a character becomes another one.
    Every(char, char),
    /// A tag goes before the text.
    PutBefore(Seq<char>),
    /// A tag before the text goes away.
    TakeAway(Seq<char>),
}

/// How a character is written in a substitution.
pub open spec fn in_script(c: char) -> Seq<char> {
    if c == '\n' {
        "\\n"@
    } else {
        seq![c]
    }
}

impl Edit {
    /// The command for a substitution, on a line of its own.
    pub open spec fn command(self) -> Seq<char> {
        match self {
            Edit::Every(from, to) => "s/"@ + in_script(from) + "/"@ + in_script(to) + "/g\n"@,
            Edit::PutBefore(tag) => "s/^/"@ + tag + "/\n"@,
            Edit::TakeAway(tag) => "s/^"@ + tag + "//\n"@,
        }
    }

    /// What a substitution makes of a text.
    pub open spec fn applied(self, space: Seq<char>) -> Seq<char> {
        match self {
            Edit::Every(from, to) => Seq::new(space.len(), |i: int| if space[i] == from { to } else { space[i] }),
            Edit::PutBefore(tag) => tag + space,
            Edit::TakeAway(tag) => if starts(space, tag) {
                space.skip(tag.len() as int)
            } else {
                space
            },
        }
    }
}

/// Whether a line starts with a tag.
pub open spec fn starts(line: Seq<char>, tag: Seq<char>) -> bool {
    tag.len() <= line.len() && forall|i: int| 0 <= i < tag.len() ==> #[trigger] line[i] == tag[i]
}

/// Behind every script the hold space is fetched, its newlines are hidden, it
/// is tagged and printed, the tag is taken away, the newlines are shown again,
/// and it goes back. What is printed is read as that hold space, and what goes
/// back is that hold space, to the character, unless it holds a placeholder of
/// its own.
pub proof fn law_hold_space_put_back(script: Seq<char>, hold: Seq<char>)
    requires
        !hold.contains('\x02'),
    ensures
        ({
            let hide = Edit::Every('\n', '\x02');
            let tag = Edit::PutBefore("\x01H\x01"@);
            let untag = Edit::TakeAway("\x01H\x01"@);
            let show = Edit::Every('\x02', '\n');
            let commands = "x\n"@ + hide.command() + tag.command() + "p\n"@ + untag.command() + show.command() + "x\n"@;
            let line = tag.applied(hide.applied(hold));
            let all = wrapped(script);
            &&& commands.len() <= all.len()
            &&& all.skip(all.len() - commands.len()) == commands
            &&& show.applied(untag.applied(line)) == hold
            &&& !line.contains('\n')
            &&& line_report(line) == LineReport::Hold(hold)
        }),
{
    let hide = Edit::Every('\n', '\x02');
    let tag = Edit::PutBefore("\x01H\x01"@);
    let untag = Edit::TakeAway("\x01H\x01"@);
    let show = Edit::Every('\x02', '\n');
    let commands = "x\n"@ + hide.command() + tag.command() + "p\n"@ + untag.command() + show.command() + "x\n"@;
    let all = wrapped(script);
    law_same_commands_around_every_script(script);
    lemma_edit_texts();
    reveal_strlit("x\n");
    reveal_strlit("p\n");
    reveal_strlit(":ISED_END\n=\n");
    reveal_strlit(":ISED_END\n=\nx\n");
    reveal_strlit("s/\\n/\x02/g\ns/^/\x01H\x01/\np\n");
    reveal_strlit("s/^\x01H\x01//\ns/\x02/\\n/g\nx\n");
    reveal_strlit("s/\\n/\x02/g\n");
    reveal_strlit("s/^/\x01H\x01/\n");
    reveal_strlit("s/^\x01H\x01//\n");
    reveal_strlit("s/\x02/\\n/g\n");
    let first = "s/\\n/\x02/g\n"@ + "s/^/\x01H\x01/\n"@ + "p\n"@;
    let second = "s/^\x01H\x01//\n"@ + "s/\x02/\\n/g\n"@ + "x\n"@;
    assert(first =~= "s/\\n/\x02/g\ns/^/\x01H\x01/\np\n"@);
    assert(second =~= "s/^\x01H\x01//\ns/\x02/\\n/g\nx\n"@);
    assert(":ISED_END\n=\n"@ + "x\n"@ =~= ":ISED_END\n=\nx\n"@);
    assert(commands =~= "x\n"@ + first + second);
    let before = ":ISED_TOP\n{\n"@ + rewritten(script) + "\n}\n"@ + "s/\\n/\x02/g\ns/^/\x01P\x01/\np\n"@
        + "b ISED_END\n:ISED_DEL\n"@ + "s/\\n/\x02/g\ns/^/\x01X\x01/\np\n"@ + ":ISED_END\n=\n"@;
    assert(all =~= before + commands);
    assert(all.skip(all.len() - commands.len()) =~= commands);
    reveal_strlit("\x01H\x01");
    reveal_strlit("\x01P\x01");
    reveal_strlit("\x01X\x01");
    assert("\x01P\x01"@[1] == 'P' && "\x01X\x01"@[1] == 'X' && "\x01H\x01"@[1] == 'H');
    lemma_tagged_value("\x01H\x01"@, hold);
}

/// Behind every script a printed pattern space and a deleted one are reported
/// alike, each under its own tag, and what is printed is read as that pattern
/// space, unless it holds a placeholder of its own.
pub proof fn law_pattern_space_reported(script: Seq<char>, space: Seq<char>)
    requires
        !space.contains('\x02'),
    ensures
        ({
            let hide = Edit::Every('\n', '\x02');
            let printed = Edit::PutBefore("\x01P\x01"@);
            let deleted = Edit::PutBefore("\x01X\x01"@);
            let begin = ":ISED_TOP\n{\n"@ + rewritten(script) + "\n}\n"@ + hide.command() + printed.command()
                + "p\nb ISED_END\n:ISED_DEL\n"@ + hide.command() + deleted.command() + "p\n:ISED_END\n=\n"@;
            let line = printed.applied(hide.applied(space));
            let other = deleted.applied(hide.applied(space));
            &&& begin.len() <= wrapped(script).len()
            &&& wrapped(script).take(begin.len() as int) == begin
            &&& !line.contains('\n') && !other.contains('\n')
            &&& line_report(line) == LineReport::Pattern(space, true)
            &&& line_report(other) == LineReport::Pattern(space, false)
        }),
{
    let hide = Edit::Every('\n', '\x02');
    let printed = Edit::PutBefore("\x01P\x01"@);
    let deleted = Edit::PutBefore("\x01X\x01"@);
    law_same_commands_around_every_script(script);
    lemma_edit_texts();
    reveal_strlit("p\nb ISED_END\n:ISED_DEL\n");
    reveal_strlit("p\n:ISED_END\n=\n");
    reveal_strlit("b ISED_END\n:ISED_DEL\n");
    reveal_strlit(":ISED_END\n=\nx\n");
    reveal_strlit("s/\\n/\x02/g\ns/^/\x01P\x01/\np\n");
    reveal_strlit("s/\\n/\x02/g\ns/^/\x01X\x01/\np\n");
    reveal_strlit("s/\\n/\x02/g\n");
    reveal_strlit("s/^/\x01P\x01/\n");
    reveal_strlit("s/^/\x01X\x01/\n");
    reveal_strlit("x\n");
    let one = hide.command() + printed.command() + "p\nb ISED_END\n:ISED_DEL\n"@;
    assert(one =~= "s/\\n/\x02/g\ns/^/\x01P\x01/\np\n"@ + "b ISED_END\n:ISED_DEL\n"@);
    let two = hide.command() + deleted.command() + "p\n:ISED_END\n=\n"@;
    assert(two + "x\n"@ =~= "s/\\n/\x02/g\ns/^/\x01X\x01/\np\n"@ + ":ISED_END\n=\nx\n"@);
    let begin = ":ISED_TOP\n{\n"@ + rewritten(script) + "\n}\n"@ + hide.command() + printed.command()
        + "p\nb ISED_END\n:ISED_DEL\n"@ + hide.command() + deleted.command() + "p\n:ISED_END\n=\n"@;
    let start = ":ISED_TOP\n{\n"@ + rewritten(script) + "\n}\n"@;
    assert(begin =~= start + one + two);
    let rest = "x\n"@ + "s/\\n/\x02/g\ns/^/\x01H\x01/\np\n"@ + "s/^\x01H\x01//\ns/\x02/\\n/g\nx\n"@;
    assert(wrapped(script) =~= begin + rest);
    assert(wrapped(script).take(begin.len() as int) =~= begin);
    reveal_strlit("\x01H\x01");
    reveal_strlit("\x01P\x01");
    reveal_strlit("\x01X\x01");
    assert("\x01P\x01"@[1] == 'P' && "\x01X\x01"@[1] == 'X' && "\x01H\x01"@[1] == 'H');
    lemma_tagged_value("\x01P\x01"@, space);
    lemma_tagged_value("\x01X\x01"@, space);
}

/// The substitutions as they are written.
proof fn lemma_edit_texts()
    ensures
        Edit::Every('\n', '\x02').command() == "s/\\n/\x02/g\n"@,
        Edit::Every('\x02', '\n').command() == "s/\x02/\\n/g\n"@,
        Edit::PutBefore("\x01H\x01"@).command() == "s/^/\x01H\x01/\n"@,
        Edit::PutBefore("\x01P\x01"@).command() == "s/^/\x01P\x01/\n"@,
        Edit::PutBefore("\x01X\x01"@).command() == "s/^/\x01X\x01/\n"@,
        Edit::TakeAway("\x01H\x01"@).command() == "s/^\x01H\x01//\n"@,
{
    reveal_strlit("s/");
    reveal_strlit("/");
    reveal_strlit("\\n");
    reveal_strlit("/g\n");
    reveal_strlit("s/^/");
    reveal_strlit("/\n");
    reveal_strlit("s/^");
    reveal_strlit("//\n");
    reveal_strlit("\x01H\x01");
    reveal_strlit("\x01P\x01");
    reveal_strlit("\x01X\x01");
    reveal_strlit("s/\\n/\x02/g\n");
    reveal_strlit("s/\x02/\\n/g\n");
    reveal_strlit("s/^/\x01H\x01/\n");
    reveal_strlit("s/^/\x01P\x01/\n");
    reveal_strlit("s/^/\x01X\x01/\n");
    reveal_strlit("s/^\x01H\x01//\n");
    assert(Edit::Every('\n', '\x02').command() =~= "s/\\n/\x02/g\n"@);
    assert(Edit::Every('\x02', '\n').command() =~= "s/\x02/\\n/g\n"@);
    assert(Edit::PutBefore("\x01H\x01"@).command() =~= "s/^/\x01H\x01/\n"@);
    assert(Edit::PutBefore("\x01P\x01"@).command() =~= "s/^/\x01P\x01/\n"@);
    assert(Edit::PutBefore("\x01X\x01"@).command() =~= "s/^/\x01X\x01/\n"@);
    assert(Edit::TakeAway("\x01H\x01"@).command() =~= "s/^\x01H\x01//\n"@);
}

/// What is printed of a value under one of the tags, and what is left of it
/// when the tag is taken away and the newlines are shown.
proof fn lemma_tagged_value(tag: Seq<char>, value: Seq<char>)
    requires
        !value.contains('\x02'),
        tag == "\x01P\x01"@ || tag == "\x01X\x01"@ || tag == "\x01H\x01"@,
    ensures
        ({
            let line = Edit::PutBefore(tag).applied(Edit::Every('\n', '\x02').applied(value));
            &&& Edit::Every('\x02', '\n').applied(Edit::TakeAway(tag).applied(line)) == value
            &&& !line.contains('\n')
            &&& line_report(line) == if tag == "\x01P\x01"@ {
                LineReport::Pattern(value, true)
            } else if tag == "\x01X\x01"@ {
                LineReport::Pattern(value, false)
            } else {
                LineReport::Hold(value)
            }
        }),
{
    reveal_strlit("\x01H\x01");
    reveal_strlit("\x01P\x01");
    reveal_strlit("\x01X\x01");
    lemma_tags();
    let out = Edit::Every('\n', '\x02').applied(value);
    let line = Edit::PutBefore(tag).applied(out);
    assert(out =~= hidden(value));
    law_restored_hidden(value);
    assert(line.skip(3) =~= out);
    assert(line.take(3) =~= tag);
    assert(starts(line, tag));
    assert(Edit::Every('\x02', '\n').applied(out) =~= restored(out));
    assert forall|i: int| 0 <= i < line.len() implies line[i] != '\n' by {
        if i >= 3 {
            assert(line[i] == out[i - 3]);
            assert(!has_newline(out));
            assert(out.contains(out[i - 3]));
        }
    }
    assert(TAG_PATTERN@[1] != TAG_DELETED@[1] && TAG_PATTERN@[1] != TAG_HOLD@[1] && TAG_DELETED@[1] != TAG_HOLD@[1]);
    assert(tag[1] == line.take(3)[1]);
}

/// A value as it is read from a line: every placeholder is a newline.
pub open spec fn value_read(text: Seq<char>) -> Seq<char> {
    Seq::new(text.len(), |i: int| if text[i] == '\x02' { '\n' } else { text[i] })
}

/// Whether a line reports a pattern space.
pub open spec fn tells_pattern(line: Seq<char>) -> bool {
    starts(line, "\x01P\x01"@) || starts(line, "\x01X\x01"@)
}

/// Whether a line reports a hold space.
pub open spec fn tells_hold(line: Seq<char>) -> bool {
    starts(line, "\x01H\x01"@)
}

/// Whether none of the lines holds a newline.
pub open spec fn are_lines(lines: Seq<Seq<char>>) -> bool {
    forall|i: int| 0 <= i < lines.len() ==> !(#[trigger] lines[i]).contains('\n')
}

/// The cycles that are read from the text of some lines.
pub open spec fn read_from(lines: Seq<Seq<char>>) -> Seq<CycleView> {
    cycles_in(join_lines(lines))
}

proof fn lemma_read_from(lines: Seq<Seq<char>>)
    requires
        lines.len() > 0,
        are_lines(lines),
    ensures
        read_from(lines) == cycles_before(lines, lines.len() as int),
{
    assert forall|i: int| 0 <= i < lines.len() implies !has_newline(#[trigger] lines[i]) by {
        assert(!lines[i].contains('\n'));
    }
    law_split_undoes_join(lines);
    assert(split_newlines(join_lines(lines)) == lines);
}

/// What the report on a line is, by the tag that the line starts with.
proof fn lemma_line_report(line: Seq<char>)
    ensures
        starts(line, "\x01P\x01"@) ==> line_report(line) == LineReport::Pattern(value_read(line.skip(3)), true),
        starts(line, "\x01X\x01"@) ==> line_report(line) == LineReport::Pattern(value_read(line.skip(3)), false),
        tells_hold(line) ==> line_report(line) == LineReport::Hold(value_read(line.skip(3))),
        line_report(line) is Pattern ==> tells_pattern(line),
        line_report(line) is Hold ==> tells_hold(line),
        !tells_pattern(line) && !tells_hold(line) ==> line_report(line) == match number_on(line) {
            Some(n) => LineReport::Number(n),
            None => LineReport::Other,
        },
{
    lemma_tags();
    reveal_strlit("\x01H\x01");
    reveal_strlit("\x01P\x01");
    reveal_strlit("\x01X\x01");
    lemma_starts(line, "\x01P\x01"@);
    lemma_starts(line, "\x01X\x01"@);
    lemma_starts(line, "\x01H\x01"@);
    assert("\x01P\x01"@ =~= TAG_PATTERN@);
    assert("\x01X\x01"@ =~= TAG_DELETED@);
    assert("\x01H\x01"@ =~= TAG_HOLD@);
    assert(TAG_PATTERN@[1] == 'P' && TAG_DELETED@[1] == 'X' && TAG_HOLD@[1] == 'H');
    assert(starts(line, TAG_PATTERN@) ==> line[1] == 'P');
    assert(starts(line, TAG_DELETED@) ==> line[1] == 'X');
    assert(starts(line, TAG_HOLD@) ==> line[1] == 'H');
    if line.len() >= 3 {
        assert(restored(line.skip(3)) =~= value_read(line.skip(3)));
    }
}

proof fn lemma_starts(line: Seq<char>, tag: Seq<char>)
    ensures
        starts(line, tag) == begins_with(line, tag),
{
    if starts(line, tag) {
        assert(line.take(tag.len() as int) =~= tag);
    }
    if begins_with(line, tag) {
        assert forall|i: int| 0 <= i < tag.len() implies #[trigger] line[i] == tag[i] by {
            assert(line.take(tag.len() as int)[i] == line[i]);
        }
    }
}

/// A report of a hold space ends what came before: what follows it is read as
/// if it stood by itself.
pub proof fn law_reading_starts_over(before: Seq<Seq<char>>, hold: Seq<char>, behind: Seq<Seq<char>>)
    requires
        are_lines(before.push(hold)),
        tells_hold(hold),
        are_lines(behind),
        behind.len() > 0,
    ensures
        read_from(before.push(hold) + behind) == read_from(before.push(hold)) + read_from(behind),
{
    let front = before.push(hold);
    let all = front + behind;
    let m = front.len() as int;
    assert forall|i: int| 0 <= i < all.len() implies !(#[trigger] all[i]).contains('\n') by {
        if i < m {
            assert(!front[i].contains('\n'));
        } else {
            assert(!behind[i - m].contains('\n'));
        }
    }
    lemma_read_from(all);
    lemma_read_from(front);
    lemma_read_from(behind);
    assert(all.take(m) =~= front.take(m));
    lemma_prefix(all, front, m);
    lemma_line_report(hold);
    assert(all[m - 1] == hold);
    lemma_read_on(all, m, behind, behind.len() as int);
}

proof fn lemma_read_on(all: Seq<Seq<char>>, m: int, behind: Seq<Seq<char>>, k: int)
    requires
        0 < m,
        0 <= k <= behind.len(),
        all.len() == m + behind.len(),
        line_report(all[m - 1]) is Hold,
        forall|i: int| 0 <= i < behind.len() ==> all[m + i] == #[trigger] behind[i],
    ensures
        pending_pattern(all, m + k) == pending_pattern(behind, k),
        pending_number(all, m + k) == pending_number(behind, k),
        cycles_before(all, m + k) == cycles_before(all, m) + cycles_before(behind, k),
    decreases k,
{
    if k > 0 {
        lemma_read_on(all, m, behind, k - 1);
        assert(all[m + (k - 1)] == behind[k - 1]);
        assert(cycles_before(all, m + k) =~= cycles_before(all, m) + cycles_before(behind, k));
    } else {
        assert(cycles_before(all, m) + cycles_before(behind, 0) =~= cycles_before(all, m));
    }
}

/// Without a report of a hold space there is no cycle.
pub proof fn law_no_cycle_without_hold(lines: Seq<Seq<char>>)
    requires
        lines.len() > 0,
        are_lines(lines),
        forall|i: int| 0 <= i < lines.len() ==> !tells_hold(#[trigger] lines[i]),
    ensures
        read_from(lines) == Seq::<CycleView>::empty(),
{
    lemma_read_from(lines);
    lemma_no_cycle(lines, lines.len() as int);
}

proof fn lemma_no_cycle(lines: Seq<Seq<char>>, k: int)
    requires
        0 <= k <= lines.len(),
        forall|i: int| 0 <= i < k ==> !tells_hold(#[trigger] lines[i]),
    ensures
        cycles_before(lines, k) == Seq::<CycleView>::empty(),
    decreases k,
{
    if k > 0 {
        lemma_no_cycle(lines, k - 1);
        lemma_line_report(lines[k - 1]);
        assert(!tells_hold(lines[k - 1]));
    }
}

/// Whether a line is a number, and the last one among some lines.
pub open spec fn last_number(lines: Seq<Seq<char>>, k: int) -> bool {
    &&& 0 <= k < lines.len()
    &&& number_on(lines[k]) is Some
    &&& forall|i: int| k < i < lines.len() ==> number_on(#[trigger] lines[i]) is None
}

/// Whether a line reports a pattern space, and is the last such line among
/// some lines.
pub open spec fn last_pattern(lines: Seq<Seq<char>>, p: int) -> bool {
    &&& 0 <= p < lines.len()
    &&& tells_pattern(lines[p])
    &&& forall|i: int| p < i < lines.len() ==> !tells_pattern(#[trigger] lines[i])
}

/// Up to the report of a hold space there is one cycle, where a number came
/// before it. It ends on the last such number, it has the last pattern space
/// that was reported, printed or deleted by its tag, or an empty one that is
/// not printed where none was; and it has that hold space.
pub proof fn law_one_cycle_per_hold(lines: Seq<Seq<char>>, hold: Seq<char>, k: int, p: int)
    requires
        are_lines(lines.push(hold)),
        tells_hold(hold),
        forall|i: int| 0 <= i < lines.len() ==> !tells_hold(#[trigger] lines[i]),
    ensures
        (forall|i: int| 0 <= i < lines.len() ==> number_on(#[trigger] lines[i]) is None) ==> read_from(lines.push(hold))
            == Seq::<CycleView>::empty(),
        last_number(lines, k) ==> {
            let read = read_from(lines.push(hold));
            &&& read.len() == 1
            &&& read[0].end_line == number_on(lines[k])->0
            &&& read[0].hold_space == value_read(hold.skip(3))
            &&& last_pattern(lines, p) ==> read[0].pattern_space == value_read(lines[p].skip(3))
            &&& last_pattern(lines, p) ==> read[0].printed == starts(lines[p], "\x01P\x01"@)
            &&& (forall|i: int| 0 <= i < lines.len() ==> !tells_pattern(#[trigger] lines[i])) ==> {
                &&& read[0].pattern_space == Seq::<char>::empty()
                &&& !read[0].printed
            }
        },
{
    let all = lines.push(hold);
    let n = lines.len() as int;
    lemma_read_from(all);
    assert forall|i: int| 0 <= i < n implies !tells_hold(#[trigger] all[i]) by {
        assert(all[i] == lines[i]);
    }
    lemma_no_cycle(all, n);
    lemma_line_report(hold);
    assert(all[n] == hold);
    if forall|i: int| 0 <= i < lines.len() ==> number_on(#[trigger] lines[i]) is None {
        lemma_no_number(all, lines, n);
    }
    if last_number(lines, k) {
        lemma_number_line(lines[k]);
        assert(all[k] == lines[k]);
        lemma_line_report(lines[k]);
        lemma_number_kept(all, lines, k, n);
        if last_pattern(lines, p) {
            assert(all[p] == lines[p]);
            lemma_line_report(lines[p]);
            lemma_only_one_tag(lines[p]);
            lemma_pattern_kept(all, lines, p, n);
        }
        if forall|i: int| 0 <= i < lines.len() ==> !tells_pattern(#[trigger] lines[i]) {
            lemma_no_pattern(all, lines, n);
        }
    }
}

proof fn lemma_only_one_tag(line: Seq<char>)
    ensures
        starts(line, "\x01P\x01"@) ==> !starts(line, "\x01X\x01"@),
{
    reveal_strlit("\x01P\x01");
    reveal_strlit("\x01X\x01");
    assert("\x01P\x01"@[1] == 'P' && "\x01X\x01"@[1] == 'X');
    if starts(line, "\x01P\x01"@) && starts(line, "\x01X\x01"@) {
        assert(line[1] == "\x01P\x01"@[1]);
        assert(line[1] == "\x01X\x01"@[1]);
    }
}

/// A line with a number has no tag.
proof fn lemma_number_line(line: Seq<char>)
    requires
        number_on(line) is Some,
    ensures
        !tells_pattern(line),
        !tells_hold(line),
{
    crate::laws::text::law_number_holds_digits(line);
    reveal_strlit("\x01H\x01");
    reveal_strlit("\x01P\x01");
    reveal_strlit("\x01X\x01");
    assert('0' <= line[0] <= '9' || line[0] == '+');
    assert("\x01P\x01"@[0] == '\x01' && "\x01X\x01"@[0] == '\x01' && "\x01H\x01"@[0] == '\x01');
}

proof fn lemma_no_number(all: Seq<Seq<char>>, lines: Seq<Seq<char>>, j: int)
    requires
        0 <= j <= lines.len() <= all.len(),
        forall|i: int| 0 <= i < lines.len() ==> all[i] == #[trigger] lines[i],
        forall|i: int| 0 <= i < lines.len() ==> number_on(#[trigger] lines[i]) is None,
    ensures
        pending_number(all, j) is None,
    decreases j,
{
    if j > 0 {
        lemma_no_number(all, lines, j - 1);
        assert(all[j - 1] == lines[j - 1]);
        lemma_line_report(lines[j - 1]);
    }
}

proof fn lemma_number_kept(all: Seq<Seq<char>>, lines: Seq<Seq<char>>, k: int, j: int)
    requires
        0 <= k < j <= lines.len() <= all.len(),
        forall|i: int| 0 <= i < lines.len() ==> all[i] == #[trigger] lines[i],
        forall|i: int| 0 <= i < lines.len() ==> !tells_hold(#[trigger] lines[i]),
        line_report(lines[k]) == LineReport::Number(number_on(lines[k])->0),
        last_number(lines, k),
    ensures
        pending_number(all, j) == number_on(lines[k]),
    decreases j,
{
    assert(all[j - 1] == lines[j - 1]);
    if j - 1 > k {
        lemma_number_kept(all, lines, k, j - 1);
        lemma_line_report(lines[j - 1]);
        assert(!tells_hold(lines[j - 1]));
        assert(number_on(lines[j - 1]) is None);
    }
}

proof fn lemma_no_pattern(all: Seq<Seq<char>>, lines: Seq<Seq<char>>, j: int)
    requires
        0 <= j <= lines.len() <= all.len(),
        forall|i: int| 0 <= i < lines.len() ==> all[i] == #[trigger] lines[i],
        forall|i: int| 0 <= i < lines.len() ==> !tells_pattern(#[trigger] lines[i]),
    ensures
        pending_pattern(all, j) is None,
    decreases j,
{
    if j > 0 {
        lemma_no_pattern(all, lines, j - 1);
        assert(all[j - 1] == lines[j - 1]);
        lemma_line_report(lines[j - 1]);
    }
}

proof fn lemma_pattern_kept(all: Seq<Seq<char>>, lines: Seq<Seq<char>>, p: int, j: int)
    requires
        0 <= p < j <= lines.len() <= all.len(),
        forall|i: int| 0 <= i < lines.len() ==> all[i] == #[trigger] lines[i],
        forall|i: int| 0 <= i < lines.len() ==> !tells_hold(#[trigger] lines[i]),
        last_pattern(lines, p),
    ensures
        pending_pattern(all, j) matches Some((space, printed)) && line_report(lines[p]) == LineReport::Pattern(
            space,
            printed,
        ),
    decreases j,
{
    assert(all[j - 1] == lines[j - 1]);
    lemma_line_report(lines[j - 1]);
    if j - 1 > p {
        lemma_pattern_kept(all, lines, p, j - 1);
        assert(!tells_hold(lines[j - 1]));
        assert(!tells_pattern(lines[j - 1]));
    }
}

} // verus!
